//! The concurrent store: a process-wide mapping from tournament id to
//! tournament aggregate, guarded by one reader-writer lock over the whole
//! mapping. A write to one tournament therefore serializes with reads and
//! writes to unrelated tournaments; that coarse granularity is deliberate.
//!
//! [`TournamentStore`] is the plain mapping with exact contracts;
//! [`SharedStore`] wraps it in the lock, so every value a reader observes is
//! a well-formed store: no caller ever sees a tournament mid-mutation.

use vstd::prelude::*;
use vstd::rwlock::{RwLock, RwLockPredicate};

use crate::id::{GameId, PlayerId, TournamentId};
use crate::kvmap::{
    kv_contains_key, kv_map, kv_unique_keys, lemma_kv_map_domain, lemma_kv_map_index,
    lemma_kv_map_push, lemma_kv_map_update, lemma_kv_unique_push,
};
use crate::tournament::{
    action_outcome, creates_game, registers_player, ActionData, ActionError, GameView, Player,
    Tournament, TournamentAction, TournamentResult, TournamentView,
};

verus! {

/// The tournament entries with each tournament abstracted to its model.
pub open spec fn tournament_entries(s: Seq<(TournamentId, Tournament)>) -> Seq<
    (TournamentId, TournamentView),
> {
    s.map_values(|p: (TournamentId, Tournament)| (p.0, p.1@))
}

/// Distinct tournament ids in the representation mean distinct ids among the
/// abstracted entries, and conversely, since abstraction keeps every key.
proof fn lemma_unique_tournament_entries(s: Seq<(TournamentId, Tournament)>)
    ensures
        kv_unique_keys(s) == kv_unique_keys(tournament_entries(s)),
{
    let t = tournament_entries(s);
    if kv_unique_keys(s) {
        assert forall|i: int, j: int| 0 <= i < j < t.len() implies (#[trigger] t[i]).0 != (
        #[trigger] t[j]).0 by {
            assert(t[i].0 == s[i].0);
            assert(t[j].0 == s[j].0);
        }
    }
    if kv_unique_keys(t) {
        assert forall|i: int, j: int| 0 <= i < j < s.len() implies (#[trigger] s[i]).0 != (
        #[trigger] s[j]).0 by {
            assert(t[i].0 == s[i].0);
            assert(t[j].0 == s[j].0);
            assert(t[i].0 != t[j].0);
        }
    }
}

/// The mapping from tournament id to tournament aggregate: the state that
/// the shared store guards.
pub struct TournamentStore {
    entries: Vec<(TournamentId, Tournament)>,
}

impl View for TournamentStore {
    type V = Map<TournamentId, TournamentView>;

    closed spec fn view(&self) -> Map<TournamentId, TournamentView> {
        kv_map(tournament_entries(self.entries@))
    }
}

impl TournamentStore {
    /// Well-formedness: tournament ids are unique, and every stored
    /// aggregate is itself well-formed.
    pub closed spec fn wf(self) -> bool {
        &&& kv_unique_keys(self.entries@)
        &&& forall|i: int| 0 <= i < self.entries@.len() ==> (#[trigger] self.entries@[i]).1.wf()
    }

    /// Creates a store with no tournaments.
    pub fn new() -> (s: Self)
        ensures
            s.wf(),
            s@ == Map::<TournamentId, TournamentView>::empty(),
    {
        let s = TournamentStore { entries: Vec::new() };
        proof {
            assert(tournament_entries(s.entries@) =~= Seq::<
                (TournamentId, TournamentView),
            >::empty());
        }
        s
    }

    /// The index of the entry carrying `id`, if any.
    fn find_index(&self, id: &TournamentId) -> (r: Option<usize>)
        ensures
            match r {
                Some(i) => i < self.entries@.len() && self.entries@[i as int].0 == *id
                    && self@.contains_key(*id),
                None => !self@.contains_key(*id),
            },
    {
        let n = self.entries.len();
        let mut i: usize = 0;
        while i < n
            invariant
                n == self.entries@.len(),
                i <= n,
                forall|j: int| 0 <= j < i ==> (#[trigger] self.entries@[j]).0 != *id,
            decreases n - i,
        {
            if self.entries[i].0 == *id {
                proof {
                    lemma_kv_map_domain(tournament_entries(self.entries@));
                    assert((tournament_entries(self.entries@)[i as int]).0 == *id);
                    assert(kv_contains_key(tournament_entries(self.entries@), *id));
                }
                return Some(i);
            }
            i += 1;
        }
        proof {
            lemma_kv_map_domain(tournament_entries(self.entries@));
            assert(!kv_contains_key(tournament_entries(self.entries@), *id)) by {
                if kv_contains_key(tournament_entries(self.entries@), *id) {
                    let j = choose|j: int|
                        0 <= j < tournament_entries(self.entries@).len() && (
                        #[trigger] tournament_entries(self.entries@)[j]).0 == *id;
                    assert((self.entries@[j]).0 == *id);
                }
            }
        }
        None
    }

    /// Stores `t` under `id`, overwriting any tournament already there.
    fn put(&mut self, id: TournamentId, t: Tournament)
        requires
            old(self).wf(),
            t.wf(),
        ensures
            final(self).wf(),
            final(self)@ == old(self)@.insert(id, t@),
    {
        let ghost tv = t@;
        match self.find_index(&id) {
            Some(i) => {
                proof {
                    lemma_unique_tournament_entries(self.entries@);
                    assert((tournament_entries(self.entries@)[i as int]).0 == id);
                    lemma_kv_map_update(tournament_entries(self.entries@), i as int, id, tv);
                    assert(tournament_entries(self.entries@.update(i as int, (id, t)))
                        =~= tournament_entries(self.entries@).update(i as int, (id, tv)));
                }
                self.entries[i] = (id, t);
                proof {
                    lemma_unique_tournament_entries(self.entries@);
                }
            },
            None => {
                proof {
                    lemma_kv_map_domain(tournament_entries(self.entries@));
                    lemma_unique_tournament_entries(self.entries@);
                    assert(!kv_contains_key(tournament_entries(self.entries@), id)) by {
                        if kv_contains_key(tournament_entries(self.entries@), id) {
                            let j = choose|j: int|
                                0 <= j < tournament_entries(self.entries@).len() && (
                                #[trigger] tournament_entries(self.entries@)[j]).0 == id;
                            assert((self.entries@[j]).0 == id);
                        }
                    }
                    lemma_kv_map_push(tournament_entries(self.entries@), id, tv);
                    lemma_kv_unique_push(tournament_entries(self.entries@), id, tv);
                    assert(tournament_entries(self.entries@.push((id, t))) =~= tournament_entries(
                        self.entries@,
                    ).push((id, tv)));
                }
                self.entries.push((id, t));
                proof {
                    lemma_unique_tournament_entries(self.entries@);
                }
            },
        }
    }

    /// Creates a new, empty tournament under a fresh random id; returns the
    /// id and a copy of the stored aggregate.
    pub fn create_tournament(&mut self) -> (r: (TournamentId, Tournament))
        requires
            old(self).wf(),
        ensures
            final(self).wf(),
            final(self)@ == old(self)@.insert(r.0, r.1@),
            r.1.wf(),
            r.1@.players == Map::<PlayerId, Player>::empty(),
            r.1@.games == Map::<GameId, GameView>::empty(),
    {
        let id = TournamentId::new_random();
        let t = Tournament::new();
        let copy = t.clone();
        self.put(id, t);
        (id, copy)
    }

    /// Returns a copy of the tournament stored under `id`, if any.
    pub fn get_tournament(&self, id: &TournamentId) -> (r: Option<Tournament>)
        requires
            self.wf(),
        ensures
            match r {
                Some(t) => self@.contains_key(*id) && t@ == self@[*id] && t.wf(),
                None => !self@.contains_key(*id),
            },
    {
        match self.find_index(id) {
            Some(i) => {
                proof {
                    lemma_unique_tournament_entries(self.entries@);
                    assert((tournament_entries(self.entries@)[i as int]).0 == *id);
                    lemma_kv_map_index(tournament_entries(self.entries@), i as int);
                }
                Some(self.entries[i].1.clone())
            },
            None => None,
        }
    }

    /// Returns a copy of the whole mapping as id-tournament pairs; ids are
    /// pairwise distinct and the order carries no meaning.
    pub fn get_all_tournaments(&self) -> (r: Vec<(TournamentId, Tournament)>)
        requires
            self.wf(),
        ensures
            kv_unique_keys(r@),
            kv_map(tournament_entries(r@)) == self@,
            forall|i: int| 0 <= i < r@.len() ==> (#[trigger] r@[i]).1.wf(),
            forall|k: TournamentId| kv_contains_key(r@, k) <==> self@.contains_key(k),
    {
        let n = self.entries.len();
        let mut r: Vec<(TournamentId, Tournament)> = Vec::new();
        let mut i: usize = 0;
        while i < n
            invariant
                n == self.entries@.len(),
                i <= n,
                r@.len() == i,
                self.wf(),
                forall|x: int|
                    0 <= x < i ==> (#[trigger] r@[x]).0 == self.entries@[x].0 && r@[x].1@
                        == self.entries@[x].1@ && r@[x].1.wf(),
            decreases n - i,
        {
            r.push((self.entries[i].0, self.entries[i].1.clone()));
            i += 1;
        }
        proof {
            assert(tournament_entries(r@) =~= tournament_entries(self.entries@));
            assert forall|x: int, y: int| 0 <= x < y < r@.len() implies (#[trigger] r@[x]).0 != (
            #[trigger] r@[y]).0 by {
                assert(r@[x].0 == self.entries@[x].0);
                assert(r@[y].0 == self.entries@[y].0);
            }
            lemma_kv_map_domain(tournament_entries(r@));
            assert forall|k: TournamentId|
                kv_contains_key(r@, k) <==> self@.contains_key(k) by {
                if kv_contains_key(r@, k) {
                    let j = choose|j: int| 0 <= j < r@.len() && (#[trigger] r@[j]).0 == k;
                    assert((tournament_entries(r@)[j]).0 == k);
                    assert(kv_contains_key(tournament_entries(r@), k));
                }
                if self@.contains_key(k) {
                    assert(kv_map(tournament_entries(r@)) == self@);
                    assert(kv_map(tournament_entries(r@)).contains_key(k));
                    assert(kv_contains_key(tournament_entries(r@), k));
                    let j = choose|j: int|
                        0 <= j < tournament_entries(r@).len() && (#[trigger] tournament_entries(
                            r@,
                        )[j]).0 == k;
                    assert((r@[j]).0 == k);
                }
            }
        }
        r
    }

    /// Applies an action to the tournament stored under `id`: nothing at all
    /// when no such tournament exists, and otherwise exactly the transition
    /// that [`action_outcome`] states, under the whole-mapping lock's
    /// exclusivity.
    pub fn apply_action(&mut self, id: &TournamentId, action: TournamentAction) -> (result: Option<
        TournamentResult,
    >)
        requires
            old(self).wf(),
        ensures
            final(self).wf(),
            (result is None) <==> !old(self)@.contains_key(*id),
            result is None ==> final(self)@ == old(self)@,
            result matches Some(r) ==> exists|post: TournamentView|
                #[trigger] action_outcome(old(self)@[*id], post, action, r) && final(self)@ == old(
                    self,
                )@.insert(*id, post),
    {
        match self.find_index(id) {
            None => None,
            Some(i) => {
                proof {
                    lemma_unique_tournament_entries(self.entries@);
                    assert((tournament_entries(self.entries@)[i as int]).0 == *id);
                    lemma_kv_map_index(tournament_entries(self.entries@), i as int);
                }
                let ghost s = self.entries@;
                let r = self.entries[i].1.perform_action(action);
                proof {
                    let newpair = self.entries@[i as int];
                    assert(self.entries@ == s.update(i as int, newpair));
                    assert(newpair.0 == *id);
                    assert(tournament_entries(s.update(i as int, newpair)) =~= tournament_entries(
                        s,
                    ).update(i as int, (*id, newpair.1@)));
                    lemma_kv_map_update(tournament_entries(s), i as int, *id, newpair.1@);
                    lemma_unique_tournament_entries(self.entries@);
                    assert(action_outcome(old(self)@[*id], newpair.1@, action, r));
                    assert(final(self)@ == old(self)@.insert(*id, newpair.1@));
                    assert forall|j: int|
                        0 <= j < self.entries@.len() implies (#[trigger] self.entries@[j]).1.wf()
                        by {
                        if j != i as int {
                            assert(self.entries@[j] == s[j]);
                        }
                    }
                }
                Some(r)
            },
        }
    }
}

/// What may be stored in the shared store's lock: only well-formed stores.
pub struct StorePred;

impl RwLockPredicate<TournamentStore> for StorePred {
    open spec fn inv(self, v: TournamentStore) -> bool {
        v.wf()
    }
}

/// What a caller can rely on from a locked apply, whatever the hidden state
/// was when the lock was acquired: registering and creating never fail, and
/// recording a winner returns either success or one of the three domain
/// errors.
pub open spec fn apply_result_shape(
    action: TournamentAction,
    result: Option<TournamentResult>,
) -> bool {
    match result {
        None => true,
        Some(r) => match action {
            TournamentAction::RegisterPlayer(_) => r matches Ok(ActionData::RegisterPlayer(_)),
            TournamentAction::CreateGame(_) => r matches Ok(ActionData::CreateGame(_)),
            TournamentAction::RecordWinner(_, _) => r == Ok::<ActionData, ActionError>(
                ActionData::Nothing,
            ) || r == Err::<ActionData, ActionError>(ActionError::PlayerNotFound) || r == Err::<
                ActionData,
                ActionError,
            >(ActionError::GameNotFound) || r == Err::<ActionData, ActionError>(
                ActionError::PlayerNotInGame,
            ),
        },
    }
}

/// Every transition the action processor can take yields a result of the
/// shape [`apply_result_shape`] describes.
proof fn lemma_outcome_shape(
    pre: TournamentView,
    post: TournamentView,
    action: TournamentAction,
    r: TournamentResult,
)
    requires
        action_outcome(pre, post, action, r),
    ensures
        apply_result_shape(action, Some(r)),
{
    match action {
        TournamentAction::RegisterPlayer(name) => {
            let id = choose|id: PlayerId|
                r == Ok::<ActionData, ActionError>(ActionData::RegisterPlayer(id))
                    && #[trigger] registers_player(pre, post, name, id);
            assert(r == Ok::<ActionData, ActionError>(ActionData::RegisterPlayer(id)));
        },
        TournamentAction::CreateGame(players) => {
            let id = choose|id: GameId|
                r == Ok::<ActionData, ActionError>(ActionData::CreateGame(id))
                    && #[trigger] creates_game(pre, post, players@.to_set(), id);
            assert(r == Ok::<ActionData, ActionError>(ActionData::CreateGame(id)));
        },
        TournamentAction::RecordWinner(_, _) => {},
    }
}

/// The shared store: the mapping behind one reader-writer lock. Every value
/// that ever rests in the lock is a well-formed store, so a reader never
/// observes a tournament mid-mutation; writers exclude each other and all
/// readers through the lock itself.
pub struct SharedStore {
    lock: RwLock<TournamentStore, StorePred>,
}

impl SharedStore {
    /// Only well-formed stores may rest in the lock.
    #[verifier::type_invariant]
    spec fn lock_configured(self) -> bool {
        self.lock.pred() == StorePred
    }

    /// Creates the shared store around an empty mapping. The store is built
    /// by the application's entry point and handed to every caller, so it
    /// exists before any access.
    pub fn new() -> SharedStore {
        SharedStore { lock: RwLock::new(TournamentStore::new(), Ghost(StorePred)) }
    }

    /// Creates a new, empty tournament under the write lock and returns its
    /// id and a copy of it.
    pub fn create_tournament(&self) -> (r: (TournamentId, Tournament))
        ensures
            r.1.wf(),
            r.1@.players == Map::<PlayerId, Player>::empty(),
            r.1@.games == Map::<GameId, GameView>::empty(),
    {
        proof {
            use_type_invariant(self);
        }
        let (mut store, handle) = self.lock.acquire_write();
        let r = store.create_tournament();
        handle.release_write(store);
        r
    }

    /// Returns a copy of the tournament under `id`, taken under a read
    /// lock: a well-formed snapshot, never a value mid-mutation.
    pub fn get_tournament(&self, id: &TournamentId) -> (r: Option<Tournament>)
        ensures
            r matches Some(t) ==> t.wf(),
    {
        proof {
            use_type_invariant(self);
        }
        let handle = self.lock.acquire_read();
        let r = handle.borrow().get_tournament(id);
        handle.release_read();
        r
    }

    /// Returns a copy of the whole mapping, taken under a read lock: ids
    /// are pairwise distinct and every aggregate in it is well-formed.
    pub fn get_all_tournaments(&self) -> (r: Vec<(TournamentId, Tournament)>)
        ensures
            kv_unique_keys(r@),
            forall|i: int| 0 <= i < r@.len() ==> (#[trigger] r@[i]).1.wf(),
    {
        proof {
            use_type_invariant(self);
        }
        let handle = self.lock.acquire_read();
        let r = handle.borrow().get_all_tournaments();
        handle.release_read();
        r
    }

    /// Applies an action to the tournament under `id`, holding the write
    /// lock over the whole mapping for the duration of the transition: the
    /// action is a single atomic state transition. Returns nothing at all
    /// when no tournament carries `id`, and otherwise the action's result,
    /// whose shape [`apply_result_shape`] pins down for every outcome.
    pub fn apply_action(&self, id: &TournamentId, action: TournamentAction) -> (result: Option<
        TournamentResult,
    >)
        ensures
            apply_result_shape(action, result),
    {
        proof {
            use_type_invariant(self);
        }
        let ghost a = action;
        let (mut store, handle) = self.lock.acquire_write();
        let ghost pre = store@;
        let result = store.apply_action(id, action);
        proof {
            match result {
                Some(r) => {
                    let post = choose|post: TournamentView|
                        #[trigger] action_outcome(pre[*id], post, a, r) && store@ == pre.insert(
                            *id,
                            post,
                        );
                    lemma_outcome_shape(pre[*id], post, a, r);
                },
                None => {},
            }
        }
        handle.release_write(store);
        result
    }
}

} // verus!
