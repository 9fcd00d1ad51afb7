use tournament_core::id::{GameId, PlayerId};
use tournament_core::tournament::{ActionData, ActionError, Tournament, TournamentAction};

fn register(t: &mut Tournament, name: &str) -> PlayerId {
    match t.perform_action(TournamentAction::RegisterPlayer(name.to_string())) {
        Ok(ActionData::RegisterPlayer(id)) => id,
        other => panic!("registering a player failed: {:?}", other),
    }
}

fn create_game(t: &mut Tournament, players: Vec<PlayerId>) -> GameId {
    match t.perform_action(TournamentAction::CreateGame(players)) {
        Ok(ActionData::CreateGame(id)) => id,
        other => panic!("creating a game failed: {:?}", other),
    }
}

fn wins_of(standings: &[(PlayerId, usize)], id: &PlayerId) -> Option<usize> {
    standings.iter().find(|(p, _)| p == id).map(|(_, w)| *w)
}

#[test]
fn register_player_then_lookup() {
    let mut t = Tournament::new();
    let id = register(&mut t, "Alice");
    let p = t.get_player(&id).expect("a registered player must be found");
    assert_eq!(p.name, "Alice");
    assert_eq!(t.get_players().len(), 1);
}

#[test]
fn register_duplicate_names_allowed() {
    let mut t = Tournament::new();
    let a = register(&mut t, "Alice");
    let b = register(&mut t, "Alice");
    assert_ne!(a, b);
    assert_eq!(t.get_players().len(), 2);
}

#[test]
fn create_game_stores_exact_player_set() {
    let mut t = Tournament::new();
    let stranger = PlayerId::from_raw(7);
    let gid = create_game(&mut t, vec![stranger]);
    let g = t.get_game(&gid).expect("a created game must be found");
    assert_eq!(g.players.len(), 1);
    assert!(g.players.contains(&stranger));
    assert!(g.winner.is_none());
    assert_eq!(t.get_games().len(), 1);
}

#[test]
fn record_winner_checks_player_before_game() {
    let mut t = Tournament::new();
    let unknown_player = PlayerId::from_raw(1);
    let unknown_game = GameId::from_raw(2);
    assert_eq!(
        t.perform_action(TournamentAction::RecordWinner(unknown_game, unknown_player)),
        Err(ActionError::PlayerNotFound)
    );
}

#[test]
fn record_winner_unknown_game() {
    let mut t = Tournament::new();
    let alice = register(&mut t, "Alice");
    let unknown_game = GameId::from_raw(2);
    assert_eq!(
        t.perform_action(TournamentAction::RecordWinner(unknown_game, alice)),
        Err(ActionError::GameNotFound)
    );
}

#[test]
fn record_winner_player_not_in_game() {
    let mut t = Tournament::new();
    let alice = register(&mut t, "Alice");
    let bob = register(&mut t, "Bob");
    let gid = create_game(&mut t, vec![alice]);
    assert_eq!(
        t.perform_action(TournamentAction::RecordWinner(gid, bob)),
        Err(ActionError::PlayerNotInGame)
    );
}

#[test]
fn record_winner_success_then_lookup() {
    let mut t = Tournament::new();
    let alice = register(&mut t, "Alice");
    let gid = create_game(&mut t, vec![alice]);
    assert_eq!(
        t.perform_action(TournamentAction::RecordWinner(gid, alice)),
        Ok(ActionData::Nothing)
    );
    let g = t.get_game(&gid).expect("the game must still be found");
    assert_eq!(g.winner, Some(alice));
}

#[test]
fn standings_counts_wins_and_sums_to_decided_games() {
    let mut t = Tournament::new();
    let alice = register(&mut t, "Alice");
    let bob = register(&mut t, "Bob");
    let g1 = create_game(&mut t, vec![alice, bob]);
    let g2 = create_game(&mut t, vec![alice, bob]);
    let g3 = create_game(&mut t, vec![alice, bob]);
    let _undecided = create_game(&mut t, vec![alice, bob]);
    assert_eq!(t.perform_action(TournamentAction::RecordWinner(g1, alice)), Ok(ActionData::Nothing));
    assert_eq!(t.perform_action(TournamentAction::RecordWinner(g2, alice)), Ok(ActionData::Nothing));
    assert_eq!(t.perform_action(TournamentAction::RecordWinner(g3, bob)), Ok(ActionData::Nothing));
    let standings = t.get_standings();
    assert_eq!(wins_of(&standings, &alice), Some(2));
    assert_eq!(wins_of(&standings, &bob), Some(1));
    let total: usize = standings.iter().map(|(_, w)| *w).sum();
    assert_eq!(total, 3);
}

#[test]
fn standings_omit_players_without_wins() {
    let mut t = Tournament::new();
    let alice = register(&mut t, "Alice");
    let bob = register(&mut t, "Bob");
    let gid = create_game(&mut t, vec![alice, bob]);
    assert_eq!(t.perform_action(TournamentAction::RecordWinner(gid, alice)), Ok(ActionData::Nothing));
    let standings = t.get_standings();
    assert_eq!(standings.len(), 1);
    assert_eq!(wins_of(&standings, &alice), Some(1));
    assert_eq!(wins_of(&standings, &bob), None);
}

#[test]
fn standings_of_empty_tournament_are_empty() {
    let t = Tournament::new();
    assert!(t.get_standings().is_empty());
    assert!(t.get_players().is_empty());
    assert!(t.get_games().is_empty());
}

#[test]
fn overwriting_winner_drops_previous_win() {
    let mut t = Tournament::new();
    let p1 = register(&mut t, "Alice");
    let p2 = register(&mut t, "Bob");
    let g1 = create_game(&mut t, vec![p1, p2]);
    assert_eq!(t.perform_action(TournamentAction::RecordWinner(g1, p1)), Ok(ActionData::Nothing));
    let standings = t.get_standings();
    assert_eq!(standings.len(), 1);
    assert_eq!(wins_of(&standings, &p1), Some(1));
    assert_eq!(t.perform_action(TournamentAction::RecordWinner(g1, p2)), Ok(ActionData::Nothing));
    let standings = t.get_standings();
    assert_eq!(standings.len(), 1);
    assert_eq!(wins_of(&standings, &p2), Some(1));
    assert_eq!(wins_of(&standings, &p1), None);
}

#[test]
fn default_tournament_is_empty() {
    let t = Tournament::default();
    assert!(t.get_players().is_empty());
    assert!(t.get_games().is_empty());
}

#[test]
fn clone_preserves_state() {
    let mut t = Tournament::new();
    let alice = register(&mut t, "Alice");
    let gid = create_game(&mut t, vec![alice]);
    assert_eq!(t.perform_action(TournamentAction::RecordWinner(gid, alice)), Ok(ActionData::Nothing));
    let copy = t.clone();
    assert_eq!(copy.get_player(&alice).expect("player must be in the copy").name, "Alice");
    assert_eq!(copy.get_game(&gid).expect("game must be in the copy").winner, Some(alice));
}
