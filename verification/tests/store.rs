use tournament_core::id::TournamentId;
use tournament_core::store::{SharedStore, TournamentStore};
use tournament_core::tournament::{ActionData, TournamentAction};

#[test]
fn store_create_and_get() {
    let mut store = TournamentStore::new();
    let (id, t) = store.create_tournament();
    assert!(t.get_players().is_empty());
    assert!(t.get_games().is_empty());
    let fetched = store.get_tournament(&id).expect("a created tournament must be found");
    assert!(fetched.get_players().is_empty());
}

#[test]
fn store_get_missing_is_none() {
    let store = TournamentStore::new();
    assert!(store.get_tournament(&TournamentId::from_raw(1)).is_none());
}

#[test]
fn store_get_all_lists_every_tournament() {
    let mut store = TournamentStore::new();
    let (a, _) = store.create_tournament();
    let (b, _) = store.create_tournament();
    let all = store.get_all_tournaments();
    assert_eq!(all.len(), 2);
    assert!(all.iter().any(|(id, _)| *id == a));
    assert!(all.iter().any(|(id, _)| *id == b));
}

#[test]
fn store_apply_on_missing_tournament_is_none() {
    let mut store = TournamentStore::new();
    let r = store.apply_action(
        &TournamentId::from_raw(9),
        TournamentAction::RegisterPlayer("Zoe".to_string()),
    );
    assert!(r.is_none());
}

#[test]
fn store_apply_register_mutates_stored_tournament() {
    let mut store = TournamentStore::new();
    let (id, _) = store.create_tournament();
    let r = store.apply_action(&id, TournamentAction::RegisterPlayer("Zoe".to_string()));
    let pid = match r {
        Some(Ok(ActionData::RegisterPlayer(pid))) => pid,
        other => panic!("registering through the store failed: {:?}", other),
    };
    let t = store.get_tournament(&id).expect("the tournament must still be found");
    assert_eq!(t.get_player(&pid).expect("the player must be stored").name, "Zoe");
}

#[test]
fn shared_store_create_apply_get() {
    let store = SharedStore::new();
    let (id, t) = store.create_tournament();
    assert!(t.get_players().is_empty());
    let r = store.apply_action(&id, TournamentAction::RegisterPlayer("Ann".to_string()));
    assert!(matches!(r, Some(Ok(ActionData::RegisterPlayer(_)))));
    let snapshot = store.get_tournament(&id).expect("the tournament must be found");
    assert_eq!(snapshot.get_players().len(), 1);
    assert_eq!(store.get_all_tournaments().len(), 1);
}

#[test]
fn shared_store_apply_on_missing_tournament_is_none() {
    let store = SharedStore::new();
    let r = store.apply_action(
        &TournamentId::from_raw(5),
        TournamentAction::RegisterPlayer("Ann".to_string()),
    );
    assert!(r.is_none());
    assert!(store.get_tournament(&TournamentId::from_raw(5)).is_none());
    assert!(store.get_all_tournaments().is_empty());
}

#[test]
fn shared_store_keeps_distinct_tournaments_apart() {
    let store = SharedStore::new();
    let (ta, _) = store.create_tournament();
    let (tb, _) = store.create_tournament();
    assert_ne!(ta, tb);
    let ra = store.apply_action(&ta, TournamentAction::RegisterPlayer("Ann".to_string()));
    assert!(matches!(ra, Some(Ok(ActionData::RegisterPlayer(_)))));
    let rb = store.apply_action(&tb, TournamentAction::RegisterPlayer("Ben".to_string()));
    assert!(matches!(rb, Some(Ok(ActionData::RegisterPlayer(_)))));
    let a = store.get_tournament(&ta).expect("the first tournament must be found");
    let b = store.get_tournament(&tb).expect("the second tournament must be found");
    assert_eq!(a.get_players().len(), 1);
    assert_eq!(b.get_players().len(), 1);
    assert_eq!(a.get_players()[0].1.name, "Ann");
    assert_eq!(b.get_players()[0].1.name, "Ben");
    assert_eq!(store.get_all_tournaments().len(), 2);
}

#[test]
fn scenario_two_players_one_game_overwritten_winner() {
    let store = SharedStore::new();
    let (t1, _) = store.create_tournament();
    let p1 = match store.apply_action(&t1, TournamentAction::RegisterPlayer("Alice".to_string())) {
        Some(Ok(ActionData::RegisterPlayer(id))) => id,
        other => panic!("registering Alice failed: {:?}", other),
    };
    let p2 = match store.apply_action(&t1, TournamentAction::RegisterPlayer("Bob".to_string())) {
        Some(Ok(ActionData::RegisterPlayer(id))) => id,
        other => panic!("registering Bob failed: {:?}", other),
    };
    let g1 = match store.apply_action(&t1, TournamentAction::CreateGame(vec![p1, p2])) {
        Some(Ok(ActionData::CreateGame(id))) => id,
        other => panic!("creating the game failed: {:?}", other),
    };
    assert_eq!(
        store.apply_action(&t1, TournamentAction::RecordWinner(g1, p1)),
        Some(Ok(ActionData::Nothing))
    );
    let standings = store.get_tournament(&t1).expect("tournament must be found").get_standings();
    assert_eq!(standings.len(), 1);
    assert_eq!(standings[0], (p1, 1));
    assert_eq!(
        store.apply_action(&t1, TournamentAction::RecordWinner(g1, p2)),
        Some(Ok(ActionData::Nothing))
    );
    let standings = store.get_tournament(&t1).expect("tournament must be found").get_standings();
    assert_eq!(standings.len(), 1);
    assert_eq!(standings[0], (p2, 1));
}
