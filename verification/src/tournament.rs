//! The tournament aggregate: registered players, games, standings, and the
//! validated action processor that is the only way to mutate a tournament.
//!
//! A tournament is modelled as two mathematical maps: player id to player and
//! game id to game, where a game is a set of player ids plus an optional
//! winner. Every mutating entry point states, over that model, exactly which
//! transition it performs.

use vstd::prelude::*;

use crate::id::{GameId, PlayerId};
use crate::kvmap::{
    kv_contains_key, kv_map, kv_unique_keys, lemma_kv_contains_push, lemma_kv_contains_update,
    lemma_kv_map_domain, lemma_kv_map_index, lemma_kv_map_push, lemma_kv_map_update,
    lemma_kv_unique_push,
};

verus! {

/// A player registered in a tournament.
#[derive(Debug)]
pub struct Player {
    /// The name of the player.
    pub name: String,
}

/// A game between a set of players, with the winner once one is recorded.
#[derive(Debug)]
pub struct Game {
    /// All players in the game; the order of the vector carries no meaning.
    pub players: Vec<PlayerId>,
    /// The winner, if one has been recorded.
    pub winner: Option<PlayerId>,
}

/// The mathematical model of a game: which players are in it and who won.
pub ghost struct GameView {
    /// The set of players in the game.
    pub players: Set<PlayerId>,
    /// The winner, if one has been recorded.
    pub winner: Option<PlayerId>,
}

impl View for Game {
    type V = GameView;

    open spec fn view(&self) -> GameView {
        GameView { players: self.players@.to_set(), winner: self.winner }
    }
}

/// A recorded winner must be one of the game's players.
pub open spec fn game_wf(g: Game) -> bool {
    g.winner matches Some(w) ==> g.players@.contains(w)
}

/// A tournament: its registered players and its games.
#[derive(Debug)]
pub struct Tournament {
    players: Vec<(PlayerId, Player)>,
    games: Vec<(GameId, Game)>,
}

/// The mathematical model of a tournament: a map of players and a map of
/// games.
pub ghost struct TournamentView {
    /// Player id to registered player.
    pub players: Map<PlayerId, Player>,
    /// Game id to game.
    pub games: Map<GameId, GameView>,
}

/// The game entries with each game abstracted to its model.
pub open spec fn game_entries(s: Seq<(GameId, Game)>) -> Seq<(GameId, GameView)> {
    s.map_values(|p: (GameId, Game)| (p.0, p.1@))
}

impl View for Tournament {
    type V = TournamentView;

    closed spec fn view(&self) -> TournamentView {
        TournamentView {
            players: kv_map(self.players@),
            games: kv_map(game_entries(self.games@)),
        }
    }
}

impl Tournament {
    /// The representation of the player mapping: one pair per player.
    pub closed spec fn players_seq(self) -> Seq<(PlayerId, Player)> {
        self.players@
    }

    /// The representation of the game mapping: one pair per game.
    pub closed spec fn games_seq(self) -> Seq<(GameId, Game)> {
        self.games@
    }

    /// Well-formedness: ids are unique within their kind, and a recorded
    /// winner is always one of its game's players.
    pub closed spec fn wf(self) -> bool {
        &&& kv_unique_keys(self.players@)
        &&& kv_unique_keys(self.games@)
        &&& forall|i: int| 0 <= i < self.games@.len() ==> game_wf((#[trigger] self.games@[i]).1)
    }

    /// Creates a new tournament with no players and no games.
    pub fn new() -> (t: Self)
        ensures
            t.wf(),
            t@.players == Map::<PlayerId, Player>::empty(),
            t@.games == Map::<GameId, GameView>::empty(),
            t.players_seq() == Seq::<(PlayerId, Player)>::empty(),
            t.games_seq() == Seq::<(GameId, Game)>::empty(),
    {
        let t = Tournament { players: Vec::new(), games: Vec::new() };
        proof {
            assert(game_entries(t.games@) =~= Seq::<(GameId, GameView)>::empty());
        }
        t
    }

    /// Gets a reference to a player.
    pub fn get_player(&self, id: &PlayerId) -> (r: Option<&Player>)
        requires
            self.wf(),
        ensures
            match r {
                Some(p) => self@.players.contains_key(*id) && *p == self@.players[*id],
                None => !self@.players.contains_key(*id),
            },
    {
        let n = self.players.len();
        let mut i: usize = 0;
        while i < n
            invariant
                n == self.players@.len(),
                i <= n,
                forall|j: int| 0 <= j < i ==> (#[trigger] self.players@[j]).0 != *id,
                self.wf(),
            decreases n - i,
        {
            if self.players[i].0 == *id {
                proof {
                    lemma_kv_map_index(self.players@, i as int);
                }
                return Some(&self.players[i].1);
            }
            i += 1;
        }
        proof {
            lemma_kv_map_domain(self.players@);
            assert(!kv_contains_key(self.players@, *id));
        }
        None
    }

    /// Gets all players as id-player pairs; the order carries no meaning.
    pub fn get_players(&self) -> (r: &Vec<(PlayerId, Player)>)
        requires
            self.wf(),
        ensures
            r@ == self.players_seq(),
            kv_unique_keys(r@),
            kv_map(r@) == self@.players,
            forall|k: PlayerId| kv_contains_key(r@, k) <==> self@.players.contains_key(k),
    {
        proof {
            lemma_kv_map_domain(self.players@);
        }
        &self.players
    }

    /// Gets a reference to a game.
    pub fn get_game(&self, id: &GameId) -> (r: Option<&Game>)
        requires
            self.wf(),
        ensures
            match r {
                Some(g) => self@.games.contains_key(*id) && g@ == self@.games[*id] && game_wf(*g),
                None => !self@.games.contains_key(*id),
            },
    {
        let n = self.games.len();
        let mut i: usize = 0;
        while i < n
            invariant
                n == self.games@.len(),
                i <= n,
                forall|j: int| 0 <= j < i ==> (#[trigger] self.games@[j]).0 != *id,
                self.wf(),
            decreases n - i,
        {
            if self.games[i].0 == *id {
                proof {
                    lemma_kv_unique_game_entries(self.games@);
                    assert((game_entries(self.games@)[i as int]).0 == *id);
                    lemma_kv_map_index(game_entries(self.games@), i as int);
                }
                return Some(&self.games[i].1);
            }
            i += 1;
        }
        proof {
            lemma_kv_map_domain(game_entries(self.games@));
            assert(!kv_contains_key(game_entries(self.games@), *id)) by {
                if kv_contains_key(game_entries(self.games@), *id) {
                    let j = choose|j: int|
                        0 <= j < game_entries(self.games@).len() && (#[trigger] game_entries(
                            self.games@,
                        )[j]).0 == *id;
                    assert((self.games@[j]).0 == *id);
                }
            }
            assert(!self@.games.contains_key(*id));
        }
        None
    }

    /// Gets all games as id-game pairs; the order carries no meaning.
    pub fn get_games(&self) -> (r: &Vec<(GameId, Game)>)
        requires
            self.wf(),
        ensures
            r@ == self.games_seq(),
            kv_unique_keys(r@),
            kv_map(game_entries(r@)) == self@.games,
            forall|k: GameId| kv_contains_key(r@, k) <==> self@.games.contains_key(k),
    {
        proof {
            lemma_kv_map_domain(game_entries(self.games@));
            assert(forall|j: int|
                0 <= j < game_entries(self.games@).len() ==> (#[trigger] game_entries(
                    self.games@,
                )[j]).0 == self.games@[j].0);
            assert forall|k: GameId| kv_contains_key(self.games@, k) <==> kv_contains_key(
                game_entries(self.games@),
                k,
            ) by {
                if kv_contains_key(self.games@, k) {
                    let i = choose|i: int|
                        0 <= i < self.games@.len() && (#[trigger] self.games@[i]).0 == k;
                    assert((game_entries(self.games@)[i]).0 == k);
                }
                if kv_contains_key(game_entries(self.games@), k) {
                    let i = choose|i: int|
                        0 <= i < game_entries(self.games@).len() && (#[trigger] game_entries(
                            self.games@,
                        )[i]).0 == k;
                    assert((self.games@[i]).0 == k);
                }
            }
        }
        &self.games
    }

    /// The index of the pair carrying `id` among the players, if any.
    fn find_player_index(&self, id: &PlayerId) -> (r: Option<usize>)
        ensures
            match r {
                Some(i) => i < self.players_seq().len() && self.players_seq()[i as int].0 == *id,
                None => !kv_contains_key(self.players_seq(), *id),
            },
    {
        let n = self.players.len();
        let mut i: usize = 0;
        while i < n
            invariant
                n == self.players@.len(),
                i <= n,
                forall|j: int| 0 <= j < i ==> (#[trigger] self.players@[j]).0 != *id,
            decreases n - i,
        {
            if self.players[i].0 == *id {
                return Some(i);
            }
            i += 1;
        }
        None
    }

    /// The index of the pair carrying `id` among the games, if any.
    fn find_game_index(&self, id: &GameId) -> (r: Option<usize>)
        ensures
            match r {
                Some(i) => i < self.games_seq().len() && self.games_seq()[i as int].0 == *id,
                None => !kv_contains_key(self.games_seq(), *id),
            },
    {
        let n = self.games.len();
        let mut i: usize = 0;
        while i < n
            invariant
                n == self.games@.len(),
                i <= n,
                forall|j: int| 0 <= j < i ==> (#[trigger] self.games@[j]).0 != *id,
            decreases n - i,
        {
            if self.games[i].0 == *id {
                return Some(i);
            }
            i += 1;
        }
        None
    }

    /// Registers `p` under `id`, overwriting any player already there.
    fn put_player(&mut self, id: PlayerId, p: Player)
        requires
            old(self).wf(),
        ensures
            final(self).wf(),
            final(self)@.players == old(self)@.players.insert(id, p),
            final(self)@.games == old(self)@.games,
            final(self).games_seq() == old(self).games_seq(),
    {
        match self.find_player_index(&id) {
            Some(i) => {
                proof {
                    lemma_kv_map_update(self.players@, i as int, id, p);
                }
                self.players[i] = (id, p);
            },
            None => {
                proof {
                    lemma_kv_map_domain(self.players@);
                    lemma_kv_map_push(self.players@, id, p);
                    lemma_kv_unique_push(self.players@, id, p);
                }
                self.players.push((id, p));
            },
        }
    }

    /// Stores `g` under `id`, overwriting any game already there.
    fn put_game(&mut self, id: GameId, g: Game)
        requires
            old(self).wf(),
            game_wf(g),
        ensures
            final(self).wf(),
            final(self)@.games == old(self)@.games.insert(id, g@),
            final(self)@.players == old(self)@.players,
            final(self).players_seq() == old(self).players_seq(),
    {
        let ghost gv = g@;
        match self.find_game_index(&id) {
            Some(i) => {
                proof {
                    lemma_kv_unique_game_entries(self.games@);
                    assert((game_entries(self.games@)[i as int]).0 == id);
                    lemma_kv_map_update(game_entries(self.games@), i as int, id, gv);
                    assert(game_entries(self.games@.update(i as int, (id, g))) =~= game_entries(
                        self.games@,
                    ).update(i as int, (id, gv)));
                }
                self.games[i] = (id, g);
                proof {
                    lemma_games_unique_from_entries(self.games@);
                }
            },
            None => {
                proof {
                    lemma_kv_map_domain(game_entries(self.games@));
                    lemma_kv_unique_game_entries(self.games@);
                    assert(!kv_contains_key(game_entries(self.games@), id)) by {
                        if kv_contains_key(game_entries(self.games@), id) {
                            let i = choose|i: int|
                                0 <= i < game_entries(self.games@).len() && (
                                #[trigger] game_entries(self.games@)[i]).0 == id;
                            assert((self.games@[i]).0 == id);
                        }
                    }
                    lemma_kv_map_push(game_entries(self.games@), id, gv);
                    lemma_kv_unique_push(game_entries(self.games@), id, gv);
                    assert(game_entries(self.games@.push((id, g))) =~= game_entries(
                        self.games@,
                    ).push((id, gv)));
                }
                self.games.push((id, g));
                proof {
                    lemma_games_unique_from_entries(self.games@);
                }
            },
        }
    }
}

/// The data returned when performing a tournament action.
pub type TournamentResult = Result<ActionData, ActionError>;

/// Every way a tournament can be mutated, as a message: actions are applied
/// through [`Tournament::perform_action`] and validated there.
#[derive(Debug)]
pub enum TournamentAction {
    /// Registers a player under the given name.
    RegisterPlayer(String),
    /// Creates a game between the given players.
    CreateGame(Vec<PlayerId>),
    /// Records the given player as the winner of the given game.
    RecordWinner(GameId, PlayerId),
}

/// Every way an action can be rejected.
#[derive(Clone, Copy, Debug, PartialEq, Eq, Structural)]
pub enum ActionError {
    /// The specified player is not registered in the tournament.
    PlayerNotFound,
    /// The specified game is not in the tournament.
    GameNotFound,
    /// The specified player is not in the specified game.
    PlayerNotInGame,
}

/// The data a successful action hands back.
#[derive(Clone, Copy, Debug, PartialEq, Eq, Structural)]
pub enum ActionData {
    /// The new player's id.
    RegisterPlayer(PlayerId),
    /// The new game's id.
    CreateGame(GameId),
    /// No data is returned.
    Nothing,
}

/// The transition a register action performs: the player is added under the
/// id, everything else is unchanged. Registration never fails.
pub open spec fn registers_player(
    pre: TournamentView,
    post: TournamentView,
    name: String,
    id: PlayerId,
) -> bool {
    &&& post.players == pre.players.insert(id, (Player { name }))
    &&& post.games == pre.games
}

/// The transition a create-game action performs: the game is added under the
/// id with no winner and exactly the given players, everything else is
/// unchanged. The players need not be registered; creation never fails.
pub open spec fn creates_game(
    pre: TournamentView,
    post: TournamentView,
    players: Set<PlayerId>,
    id: GameId,
) -> bool {
    &&& post.players == pre.players
    &&& post.games == pre.games.insert(id, (GameView { players, winner: None }))
}

/// The outcome of a record-winner action, checked in this exact order: the
/// player must be registered, the game must exist, and the player must be in
/// the game; then the winner is set, overwriting any previous winner.
pub open spec fn record_winner_outcome(
    pre: TournamentView,
    post: TournamentView,
    game: GameId,
    player: PlayerId,
    result: TournamentResult,
) -> bool {
    if !pre.players.contains_key(player) {
        result == Err::<ActionData, ActionError>(ActionError::PlayerNotFound) && post == pre
    } else if !pre.games.contains_key(game) {
        result == Err::<ActionData, ActionError>(ActionError::GameNotFound) && post == pre
    } else if !pre.games[game].players.contains(player) {
        result == Err::<ActionData, ActionError>(ActionError::PlayerNotInGame) && post == pre
    } else {
        &&& result == Ok::<ActionData, ActionError>(ActionData::Nothing)
        &&& post.players == pre.players
        &&& post.games == pre.games.insert(
            game,
            (GameView { players: pre.games[game].players, winner: Some(player) }),
        )
    }
}

/// The full state machine: what applying each action to a tournament returns
/// and how it changes the tournament's model.
pub open spec fn action_outcome(
    pre: TournamentView,
    post: TournamentView,
    action: TournamentAction,
    result: TournamentResult,
) -> bool {
    match action {
        TournamentAction::RegisterPlayer(name) => exists|id: PlayerId|
            result == Ok::<ActionData, ActionError>(ActionData::RegisterPlayer(id))
                && #[trigger] registers_player(pre, post, name, id),
        TournamentAction::CreateGame(players) => exists|id: GameId|
            result == Ok::<ActionData, ActionError>(ActionData::CreateGame(id))
                && #[trigger] creates_game(pre, post, players@.to_set(), id),
        TournamentAction::RecordWinner(game, player) => record_winner_outcome(
            pre,
            post,
            game,
            player,
            result,
        ),
    }
}

/// Whether the sequence holds the given player id.
fn vec_contains_player(v: &Vec<PlayerId>, id: &PlayerId) -> (r: bool)
    ensures
        r == v@.contains(*id),
{
    let n = v.len();
    let mut i: usize = 0;
    while i < n
        invariant
            n == v@.len(),
            i <= n,
            forall|j: int| 0 <= j < i ==> v@[j] != *id,
        decreases n - i,
    {
        if v[i] == *id {
            proof {
                assert(v@[i as int] == *id);
            }
            return true;
        }
        i += 1;
    }
    false
}

impl Tournament {
    /// Whether a player is registered under `id`.
    fn contains_player(&self, id: &PlayerId) -> (r: bool)
        requires
            self.wf(),
        ensures
            r == self@.players.contains_key(*id),
    {
        proof {
            lemma_kv_map_domain(self.players@);
        }
        match self.find_player_index(id) {
            Some(i) => {
                proof {
                    assert((self.players@[i as int]).0 == *id);
                    assert(kv_contains_key(self.players@, *id));
                    assert(self@.players.contains_key(*id));
                }
                true
            },
            None => false,
        }
    }

    /// Validates and applies a record-winner request: the player must be
    /// registered, the game must exist, and the player must be in the game,
    /// checked in this exact order; then the winner is set, silently
    /// overwriting any previously recorded winner.
    fn record_winner(&mut self, game: GameId, player: PlayerId) -> (result: TournamentResult)
        requires
            old(self).wf(),
        ensures
            final(self).wf(),
            record_winner_outcome(old(self)@, final(self)@, game, player, result),
    {
        if !self.contains_player(&player) {
            return Err(ActionError::PlayerNotFound);
        }
        match self.find_game_index(&game) {
            None => {
                proof {
                    lemma_kv_map_domain(game_entries(self.games@));
                    assert(!kv_contains_key(game_entries(self.games@), game)) by {
                        if kv_contains_key(game_entries(self.games@), game) {
                            let j = choose|j: int|
                                0 <= j < game_entries(self.games@).len() && (
                                #[trigger] game_entries(self.games@)[j]).0 == game;
                            assert((self.games@[j]).0 == game);
                        }
                    }
                }
                Err(ActionError::GameNotFound)
            },
            Some(gi) => {
                proof {
                    lemma_kv_unique_game_entries(self.games@);
                    assert((game_entries(self.games@)[gi as int]).0 == game);
                    lemma_kv_map_index(game_entries(self.games@), gi as int);
                    assert(self@.games[game] == self.games@[gi as int].1@);
                }
                let in_game = vec_contains_player(&self.games[gi].1.players, &player);
                if !in_game {
                    proof {
                        assert(!self@.games[game].players.contains(player));
                    }
                    Err(ActionError::PlayerNotInGame)
                } else {
                    let ghost s = self.games@;
                    self.games[gi].1.winner = Some(player);
                    proof {
                        let newpair = self.games@[gi as int];
                        assert(self.games@ == s.update(gi as int, newpair));
                        assert(newpair.0 == game);
                        assert(newpair.1.players == s[gi as int].1.players);
                        assert(newpair.1.winner == Some(player));
                        assert(game_entries(s.update(gi as int, newpair)) =~= game_entries(
                            s,
                        ).update(gi as int, (game, newpair.1@)));
                        lemma_kv_map_update(game_entries(s), gi as int, game, newpair.1@);
                        lemma_games_unique_from_entries(self.games@);
                        assert(newpair.1@ == (GameView {
                            players: old(self)@.games[game].players,
                            winner: Some(player),
                        }));
                        assert(self@.games == old(self)@.games.insert(game, newpair.1@));
                        assert(game_wf(newpair.1));
                        assert forall|j: int| 0 <= j < self.games@.len() implies game_wf(
                            (#[trigger] self.games@[j]).1,
                        ) by {
                            if j != gi as int {
                                assert(self.games@[j] == s[j]);
                            }
                        }
                    }
                    Ok(ActionData::Nothing)
                }
            },
        }
    }

    /// Performs an action on the tournament: the single validated entry point
    /// for every mutation. Registering a player and creating a game always
    /// succeed under a freshly drawn id; recording a winner is validated as
    /// [`record_winner_outcome`] states.
    pub fn perform_action(&mut self, action: TournamentAction) -> (result: TournamentResult)
        requires
            old(self).wf(),
        ensures
            final(self).wf(),
            action_outcome(old(self)@, final(self)@, action, result),
    {
        match action {
            TournamentAction::RegisterPlayer(name) => {
                let id = PlayerId::new_random();
                let ghost n = name;
                self.put_player(id, Player { name });
                proof {
                    assert(registers_player(old(self)@, self@, n, id));
                }
                Ok(ActionData::RegisterPlayer(id))
            },
            TournamentAction::CreateGame(players) => {
                let id = GameId::new_random();
                let ghost ps = players@.to_set();
                self.put_game(id, Game { players, winner: None });
                proof {
                    assert(creates_game(old(self)@, self@, ps, id));
                }
                Ok(ActionData::CreateGame(id))
            },
            TournamentAction::RecordWinner(game, player) => self.record_winner(game, player),
        }
    }
}

/// The number of games in the sequence whose recorded winner is `p`.
pub open spec fn wins_in(games: Seq<(GameId, Game)>, p: PlayerId) -> nat
    decreases games.len(),
{
    if games.len() == 0 {
        0
    } else {
        wins_in(games.drop_last(), p) + (if games.last().1.winner == Some(p) {
            1nat
        } else {
            0nat
        })
    }
}

/// The number of games in the sequence with a recorded winner.
pub open spec fn winners_count(games: Seq<(GameId, Game)>) -> nat
    decreases games.len(),
{
    if games.len() == 0 {
        0
    } else {
        winners_count(games.drop_last()) + (if games.last().1.winner is Some {
            1nat
        } else {
            0nat
        })
    }
}

/// The sum of all win counts in a standings sequence.
pub open spec fn sum_wins(standings: Seq<(PlayerId, usize)>) -> int
    decreases standings.len(),
{
    if standings.len() == 0 {
        0
    } else {
        sum_wins(standings.drop_last()) + standings.last().1
    }
}

/// Extending the counted prefix by one game adds that game's contribution.
proof fn lemma_wins_in_snoc(games: Seq<(GameId, Game)>, g: int, p: PlayerId)
    requires
        0 <= g < games.len(),
    ensures
        wins_in(games.take(g + 1), p) == wins_in(games.take(g), p) + (if games[g].1.winner == Some(
            p,
        ) {
            1nat
        } else {
            0nat
        }),
{
    assert(games.take(g + 1).drop_last() =~= games.take(g));
    assert(games.take(g + 1).last() == games[g]);
}

/// Extending the counted prefix by one game adds one when it has a winner.
proof fn lemma_winners_count_snoc(games: Seq<(GameId, Game)>, g: int)
    requires
        0 <= g < games.len(),
    ensures
        winners_count(games.take(g + 1)) == winners_count(games.take(g)) + (if games[g].1.winner
            is Some {
            1nat
        } else {
            0nat
        }),
{
    assert(games.take(g + 1).drop_last() =~= games.take(g));
    assert(games.take(g + 1).last() == games[g]);
}

/// A player cannot have won more games than there are.
proof fn lemma_wins_in_le_len(games: Seq<(GameId, Game)>, p: PlayerId)
    ensures
        wins_in(games, p) <= games.len(),
    decreases games.len(),
{
    if games.len() > 0 {
        lemma_wins_in_le_len(games.drop_last(), p);
    }
}

/// Replacing one entry changes the sum by the difference at that entry.
proof fn lemma_sum_wins_update(s: Seq<(PlayerId, usize)>, i: int, k: PlayerId, v: usize)
    requires
        0 <= i < s.len(),
    ensures
        sum_wins(s.update(i, (k, v))) == sum_wins(s) - s[i].1 + v,
    decreases s.len(),
{
    let t = s.update(i, (k, v));
    if i == s.len() - 1 {
        assert(t.drop_last() =~= s.drop_last());
        assert(t.last() == (k, v));
    } else {
        assert(t.drop_last() =~= s.drop_last().update(i, (k, v)));
        assert(t.last() == s.last());
        lemma_sum_wins_update(s.drop_last(), i, k, v);
    }
}

impl Tournament {
    /// Gets the win record of all players: one entry per player with at
    /// least one recorded win, carrying the number of games won. Games
    /// without a winner are excluded, and a player with no recorded win is
    /// absent rather than present with a count of zero; the sum of all
    /// counts equals the number of games with a recorded winner.
    pub fn get_standings(&self) -> (r: Vec<(PlayerId, usize)>)
        ensures
            kv_unique_keys(r@),
            forall|p: PlayerId| kv_contains_key(r@, p) <==> wins_in(self.games_seq(), p) > 0,
            forall|i: int|
                0 <= i < r@.len() ==> (#[trigger] r@[i]).1 == wins_in(self.games_seq(), r@[i].0),
            sum_wins(r@) == winners_count(self.games_seq()),
    {
        let n = self.games.len();
        let mut digest: Vec<(PlayerId, usize)> = Vec::new();
        let mut g: usize = 0;
        proof {
            assert(self.games@.take(0) =~= Seq::<(GameId, Game)>::empty());
        }
        while g < n
            invariant
                n == self.games@.len(),
                g <= n,
                kv_unique_keys(digest@),
                forall|p: PlayerId|
                    kv_contains_key(digest@, p) <==> wins_in(self.games@.take(g as int), p) > 0,
                forall|i: int|
                    0 <= i < digest@.len() ==> (#[trigger] digest@[i]).1 == wins_in(
                        self.games@.take(g as int),
                        digest@[i].0,
                    ),
                sum_wins(digest@) == winners_count(self.games@.take(g as int)),
            decreases n - g,
        {
            let ghost pre = digest@;
            let winner_opt = self.games[g].1.winner;
            proof {
                lemma_winners_count_snoc(self.games@, g as int);
                assert forall|p: PlayerId|
                    wins_in(self.games@.take(g as int + 1), p) == wins_in(
                        self.games@.take(g as int),
                        p,
                    ) + (if self.games@[g as int].1.winner == Some(p) {
                        1nat
                    } else {
                        0nat
                    }) by {
                    lemma_wins_in_snoc(self.games@, g as int, p);
                }
            }
            match winner_opt {
                None => {},
                Some(w) => {
                    match find_standing_index(&digest, &w) {
                        Some(di) => {
                            let cur = digest[di].1;
                            proof {
                                lemma_wins_in_le_len(self.games@.take(g as int), w);
                                assert(self.games@.take(g as int).len() == g as int);
                                assert(cur == wins_in(self.games@.take(g as int), w));
                                assert(cur < n);
                                lemma_sum_wins_update(pre, di as int, w, (cur + 1) as usize);
                                lemma_kv_contains_update(pre, di as int, w, (cur + 1) as usize);
                                lemma_kv_map_update(pre, di as int, w, (cur + 1) as usize);
                            }
                            digest[di] = (w, cur + 1);
                            proof {
                                assert(kv_contains_key(pre, w)) by {
                                    assert((pre[di as int]).0 == w);
                                }
                                assert forall|p: PlayerId|
                                    kv_contains_key(digest@, p) <==> wins_in(
                                        self.games@.take(g as int + 1),
                                        p,
                                    ) > 0 by {
                                    assert(kv_contains_key(digest@, p) <==> kv_contains_key(
                                        pre,
                                        p,
                                    ));
                                    if p == w {
                                        assert(wins_in(self.games@.take(g as int + 1), p) == cur
                                            + 1);
                                    }
                                }
                                assert forall|i: int|
                                    0 <= i < digest@.len() implies (#[trigger] digest@[i]).1
                                    == wins_in(
                                    self.games@.take(g as int + 1),
                                    digest@[i].0,
                                ) by {
                                    if i != di as int {
                                        assert(digest@[i] == pre[i]);
                                        assert(pre[i].0 != w);
                                    }
                                }
                            }
                        },
                        None => {
                            proof {
                                assert(wins_in(self.games@.take(g as int), w) == 0);
                                lemma_kv_contains_push(pre, w, 1usize);
                                lemma_kv_unique_push(pre, w, 1usize);
                                assert(pre.push((w, 1usize)).drop_last() =~= pre);
                            }
                            digest.push((w, 1));
                            proof {
                                assert forall|p: PlayerId|
                                    kv_contains_key(digest@, p) <==> wins_in(
                                        self.games@.take(g as int + 1),
                                        p,
                                    ) > 0 by {
                                    assert(kv_contains_key(digest@, p) <==> (kv_contains_key(
                                        pre,
                                        p,
                                    ) || p == w));
                                    if p == w {
                                        assert(wins_in(self.games@.take(g as int + 1), p) == 1);
                                    }
                                }
                                assert forall|i: int|
                                    0 <= i < digest@.len() implies (#[trigger] digest@[i]).1
                                    == wins_in(
                                    self.games@.take(g as int + 1),
                                    digest@[i].0,
                                ) by {
                                    if i < pre.len() {
                                        assert(digest@[i] == pre[i]);
                                        assert(kv_contains_key(pre, pre[i].0));
                                        assert(pre[i].0 != w);
                                    } else {
                                        assert(digest@[i] == (w, 1usize));
                                    }
                                }
                            }
                        },
                    }
                },
            }
            g += 1;
        }
        proof {
            assert(self.games@.take(n as int) =~= self.games@);
        }
        digest
    }
}

/// The index of the pair carrying `id` in a standings vector, if any.
fn find_standing_index(digest: &Vec<(PlayerId, usize)>, id: &PlayerId) -> (r: Option<usize>)
    ensures
        match r {
            Some(i) => i < digest@.len() && digest@[i as int].0 == *id,
            None => !kv_contains_key(digest@, *id),
        },
{
    let n = digest.len();
    let mut i: usize = 0;
    while i < n
        invariant
            n == digest@.len(),
            i <= n,
            forall|j: int| 0 <= j < i ==> (#[trigger] digest@[j]).0 != *id,
        decreases n - i,
    {
        if digest[i].0 == *id {
            return Some(i);
        }
        i += 1;
    }
    None
}

/// An exact copy of a player id vector.
fn clone_player_ids(v: &Vec<PlayerId>) -> (r: Vec<PlayerId>)
    ensures
        r@ == v@,
{
    let n = v.len();
    let mut r: Vec<PlayerId> = Vec::new();
    let mut i: usize = 0;
    while i < n
        invariant
            n == v@.len(),
            i <= n,
            r@ =~= v@.take(i as int),
        decreases n - i,
    {
        r.push(v[i]);
        proof {
            assert(r@ =~= v@.take(i as int + 1));
        }
        i += 1;
    }
    proof {
        assert(v@.take(n as int) =~= v@);
    }
    r
}

impl Clone for Player {
    /// The copy carries the same name and so is equal to the original.
    fn clone(&self) -> (res: Self)
        ensures
            res == *self,
    {
        Player { name: self.name.clone() }
    }
}

impl Clone for Game {
    /// The copy holds the same players and the same winner.
    fn clone(&self) -> (res: Self)
        ensures
            res@ == self@,
            res.players@ == self.players@,
            res.winner == self.winner,
    {
        Game { players: clone_player_ids(&self.players), winner: self.winner }
    }
}

impl Clone for Tournament {
    /// The copy denotes the same model, with well-formedness preserved.
    fn clone(&self) -> (res: Self)
        ensures
            res@ == self@,
            res.players_seq() == self.players_seq(),
            res.wf() == self.wf(),
            res.games_seq().len() == self.games_seq().len(),
            forall|j: int|
                0 <= j < self.games_seq().len() ==> (#[trigger] res.games_seq()[j]).0
                    == self.games_seq()[j].0 && res.games_seq()[j].1.winner
                    == self.games_seq()[j].1.winner && res.games_seq()[j].1.players@
                    == self.games_seq()[j].1.players@,
    {
        let np = self.players.len();
        let mut players: Vec<(PlayerId, Player)> = Vec::new();
        let mut i: usize = 0;
        while i < np
            invariant
                np == self.players@.len(),
                i <= np,
                players@ =~= self.players@.take(i as int),
            decreases np - i,
        {
            players.push((self.players[i].0, self.players[i].1.clone()));
            proof {
                assert(players@ =~= self.players@.take(i as int + 1));
            }
            i += 1;
        }
        proof {
            assert(self.players@.take(np as int) =~= self.players@);
        }
        let ng = self.games.len();
        let mut games: Vec<(GameId, Game)> = Vec::new();
        let mut j: usize = 0;
        while j < ng
            invariant
                ng == self.games@.len(),
                j <= ng,
                games@.len() == j,
                forall|x: int|
                    0 <= x < j ==> (#[trigger] games@[x]).0 == self.games@[x].0
                        && games@[x].1.winner == self.games@[x].1.winner && games@[x].1.players@
                        == self.games@[x].1.players@ && games@[x].1@ == self.games@[x].1@,
            decreases ng - j,
        {
            games.push((self.games[j].0, self.games[j].1.clone()));
            j += 1;
        }
        let res = Tournament { players, games };
        proof {
            assert(game_entries(res.games@) =~= game_entries(self.games@));
            assert(res@ == self@);
            assert forall|x: int, y: int|
                0 <= x < y < res.games@.len() implies ((#[trigger] res.games@[x]).0 == (
            #[trigger] res.games@[y]).0) == (self.games@[x].0 == self.games@[y].0) by {}
            assert(kv_unique_keys(res.games@) == kv_unique_keys(self.games@)) by {
                if kv_unique_keys(res.games@) {
                    assert forall|x: int, y: int|
                        0 <= x < y < self.games@.len() implies (#[trigger] self.games@[x]).0 != (
                    #[trigger] self.games@[y]).0 by {
                        assert(res.games@[x].0 == self.games@[x].0);
                        assert(res.games@[y].0 == self.games@[y].0);
                    }
                }
                if kv_unique_keys(self.games@) {
                    assert forall|x: int, y: int|
                        0 <= x < y < res.games@.len() implies (#[trigger] res.games@[x]).0 != (
                    #[trigger] res.games@[y]).0 by {
                        assert(res.games@[x].0 == self.games@[x].0);
                        assert(res.games@[y].0 == self.games@[y].0);
                    }
                }
            }
            assert((forall|x: int|
                0 <= x < res.games@.len() ==> game_wf((#[trigger] res.games@[x]).1)) == (
            forall|x: int|
                0 <= x < self.games@.len() ==> game_wf((#[trigger] self.games@[x]).1))) by {
                if forall|x: int|
                    0 <= x < res.games@.len() ==> game_wf((#[trigger] res.games@[x]).1) {
                    assert forall|x: int|
                        0 <= x < self.games@.len() implies game_wf(
                        (#[trigger] self.games@[x]).1,
                    ) by {
                        assert(game_wf(res.games@[x].1));
                        assert(res.games@[x].1.players@ == self.games@[x].1.players@);
                        assert(res.games@[x].1.winner == self.games@[x].1.winner);
                    }
                }
                if forall|x: int|
                    0 <= x < self.games@.len() ==> game_wf((#[trigger] self.games@[x]).1) {
                    assert forall|x: int|
                        0 <= x < res.games@.len() implies game_wf((#[trigger] res.games@[x]).1) by {
                        assert(game_wf(self.games@[x].1));
                        assert(res.games@[x].1.players@ == self.games@[x].1.players@);
                        assert(res.games@[x].1.winner == self.games@[x].1.winner);
                    }
                }
            }
        }
        res
    }
}

impl Default for Tournament {
    /// The default tournament is empty, exactly as `Tournament::new` builds
    /// it.
    fn default() -> (t: Self)
        ensures
            t.wf(),
            t@.players == Map::<PlayerId, Player>::empty(),
            t@.games == Map::<GameId, GameView>::empty(),
    {
        Tournament::new()
    }
}

/// For every name, a register action succeeds, and looking the returned id
/// up in the new state yields exactly the registered player.
pub proof fn lemma_register_player_succeeds(
    pre: TournamentView,
    post: TournamentView,
    name: String,
    result: TournamentResult,
)
    requires
        action_outcome(pre, post, TournamentAction::RegisterPlayer(name), result),
    ensures
        exists|id: PlayerId|
            result == Ok::<ActionData, ActionError>(ActionData::RegisterPlayer(id))
                && #[trigger] registers_player(pre, post, name, id) && post.players.contains_key(id)
                && post.players[id] == (Player { name }),
{
    let id = choose|id: PlayerId|
        result == Ok::<ActionData, ActionError>(ActionData::RegisterPlayer(id))
            && #[trigger] registers_player(pre, post, name, id);
    assert(registers_player(pre, post, name, id));
    assert(post.players.contains_key(id));
}

/// For every player set, including one referencing unregistered ids, a
/// create-game action succeeds, and the stored game holds exactly that set
/// and no winner.
pub proof fn lemma_create_game_succeeds(
    pre: TournamentView,
    post: TournamentView,
    players: Vec<PlayerId>,
    result: TournamentResult,
)
    requires
        action_outcome(pre, post, TournamentAction::CreateGame(players), result),
    ensures
        exists|id: GameId|
            result == Ok::<ActionData, ActionError>(ActionData::CreateGame(id))
                && #[trigger] creates_game(pre, post, players@.to_set(), id)
                && post.games.contains_key(id) && post.games[id].players == players@.to_set()
                && post.games[id].winner is None,
{
    let id = choose|id: GameId|
        result == Ok::<ActionData, ActionError>(ActionData::CreateGame(id))
            && #[trigger] creates_game(pre, post, players@.to_set(), id);
    assert(creates_game(pre, post, players@.to_set(), id));
    assert(post.games.contains_key(id));
}

/// Recording a winner who is not registered is rejected as player-not-found
/// and changes nothing, even when the game does not exist either: player
/// existence is checked before game existence.
pub proof fn lemma_unknown_player_rejected_first(
    pre: TournamentView,
    post: TournamentView,
    game: GameId,
    player: PlayerId,
    result: TournamentResult,
)
    requires
        action_outcome(pre, post, TournamentAction::RecordWinner(game, player), result),
        !pre.players.contains_key(player),
    ensures
        result == Err::<ActionData, ActionError>(ActionError::PlayerNotFound),
        post == pre,
{
}

/// Recording a winner for a game that does not exist, with a registered
/// player, is rejected as game-not-found and changes nothing.
pub proof fn lemma_unknown_game_rejected(
    pre: TournamentView,
    post: TournamentView,
    game: GameId,
    player: PlayerId,
    result: TournamentResult,
)
    requires
        action_outcome(pre, post, TournamentAction::RecordWinner(game, player), result),
        pre.players.contains_key(player),
        !pre.games.contains_key(game),
    ensures
        result == Err::<ActionData, ActionError>(ActionError::GameNotFound),
        post == pre,
{
}

/// Recording a registered player who is not in the game is rejected as
/// player-not-in-game and changes nothing.
pub proof fn lemma_player_not_in_game_rejected(
    pre: TournamentView,
    post: TournamentView,
    game: GameId,
    player: PlayerId,
    result: TournamentResult,
)
    requires
        action_outcome(pre, post, TournamentAction::RecordWinner(game, player), result),
        pre.players.contains_key(player),
        pre.games.contains_key(game),
        !pre.games[game].players.contains(player),
    ensures
        result == Err::<ActionData, ActionError>(ActionError::PlayerNotInGame),
        post == pre,
{
}

/// Recording a registered player who is in an existing game succeeds, and a
/// subsequent lookup of the game shows that player as the winner; any
/// previously recorded winner is overwritten, and every other game and all
/// players are unchanged.
pub proof fn lemma_record_winner_succeeds(
    pre: TournamentView,
    post: TournamentView,
    game: GameId,
    player: PlayerId,
    result: TournamentResult,
)
    requires
        action_outcome(pre, post, TournamentAction::RecordWinner(game, player), result),
        pre.players.contains_key(player),
        pre.games.contains_key(game),
        pre.games[game].players.contains(player),
    ensures
        result == Ok::<ActionData, ActionError>(ActionData::Nothing),
        post.players == pre.players,
        post.games.contains_key(game),
        post.games[game].winner == Some(player),
        post.games[game].players == pre.games[game].players,
        forall|other: GameId|
            other != game && pre.games.contains_key(other) ==> post.games.contains_key(other)
                && post.games[other] == pre.games[other],
{
}

/// Distinct game ids in the representation mean distinct ids among the
/// abstracted entries, since abstraction keeps every key.
proof fn lemma_kv_unique_game_entries(s: Seq<(GameId, Game)>)
    requires
        kv_unique_keys(s),
    ensures
        kv_unique_keys(game_entries(s)),
{
    let t = game_entries(s);
    assert forall|i: int, j: int| 0 <= i < j < t.len() implies (#[trigger] t[i]).0 != (
    #[trigger] t[j]).0 by {
        assert(t[i].0 == s[i].0);
        assert(t[j].0 == s[j].0);
        assert(s[i].0 != s[j].0);
    }
}

/// The converse direction: distinct abstracted keys mean distinct ids in the
/// representation.
proof fn lemma_games_unique_from_entries(s: Seq<(GameId, Game)>)
    requires
        kv_unique_keys(game_entries(s)),
    ensures
        kv_unique_keys(s),
{
    let t = game_entries(s);
    assert forall|i: int, j: int| 0 <= i < j < s.len() implies (#[trigger] s[i]).0 != (
    #[trigger] s[j]).0 by {
        assert(t[i].0 == s[i].0);
        assert(t[j].0 == s[j].0);
        assert(t[i].0 != t[j].0);
    }
}

} // verus!
