//! Typed identifiers: each entity kind gets its own nominal wrapper around a
//! random 128-bit value, so a player id can never be used where a game id is
//! expected. Two identifiers of one kind are equal exactly when their
//! underlying values are equal.

use vstd::prelude::*;

use crate::uuid_text::{format_uuid, is_uuid_text, parse_uuid, uuid_text_of, uuid_val_of};

verus! {

/// Relies on `uuid::Uuid::new_v4` and `uuid::Uuid::as_u128`: draws a fresh
/// random version-4 UUID from the process-wide random source and returns its
/// 128-bit value. Nothing can be promised of a random value.
#[verifier::external_body]
fn fresh_uuid_bits() -> u128 {
    uuid::Uuid::new_v4().as_u128()
}

/// Identifies one tournament.
#[derive(Clone, Copy, PartialEq, Eq, Hash, Debug, Structural)]
pub struct TournamentId {
    raw: u128,
}

/// Identifies one player within a tournament.
#[derive(Clone, Copy, PartialEq, Eq, Hash, Debug, Structural)]
pub struct PlayerId {
    raw: u128,
}

/// Identifies one game within a tournament.
#[derive(Clone, Copy, PartialEq, Eq, Hash, Debug, Structural)]
pub struct GameId {
    raw: u128,
}

impl TournamentId {
    /// The identifier's underlying 128-bit value.
    pub closed spec fn spec_raw(self) -> u128 {
        self.raw
    }

    /// Draws a fresh random identifier.
    pub fn new_random() -> Self {
        TournamentId { raw: fresh_uuid_bits() }
    }

    /// Returns the underlying 128-bit value.
    pub fn raw(&self) -> (r: u128)
        ensures
            r == self.spec_raw(),
    {
        self.raw
    }

    /// Builds the identifier holding the given 128-bit value.
    pub fn from_raw(raw: u128) -> (id: Self)
        ensures
            id.spec_raw() == raw,
    {
        TournamentId { raw }
    }

    /// The canonical hyphenated lowercase UUID text of this identifier.
    pub fn to_text(&self) -> (s: String)
        ensures
            s@ == uuid_text_of(self.spec_raw()),
    {
        format_uuid(self.raw)
    }

    /// Parses an identifier from canonical hyphenated UUID text.
    pub fn from_text(s: &str) -> (r: Option<Self>)
        ensures
            match r {
                Some(id) => is_uuid_text(s@) && id.spec_raw() == uuid_val_of(s@),
                None => !is_uuid_text(s@),
            },
    {
        match parse_uuid(s) {
            Some(bits) => Some(TournamentId { raw: bits }),
            None => None,
        }
    }
}

impl PlayerId {
    /// The identifier's underlying 128-bit value.
    pub closed spec fn spec_raw(self) -> u128 {
        self.raw
    }

    /// Draws a fresh random identifier.
    pub fn new_random() -> Self {
        PlayerId { raw: fresh_uuid_bits() }
    }

    /// Returns the underlying 128-bit value.
    pub fn raw(&self) -> (r: u128)
        ensures
            r == self.spec_raw(),
    {
        self.raw
    }

    /// Builds the identifier holding the given 128-bit value.
    pub fn from_raw(raw: u128) -> (id: Self)
        ensures
            id.spec_raw() == raw,
    {
        PlayerId { raw }
    }

    /// The canonical hyphenated lowercase UUID text of this identifier.
    pub fn to_text(&self) -> (s: String)
        ensures
            s@ == uuid_text_of(self.spec_raw()),
    {
        format_uuid(self.raw)
    }

    /// Parses an identifier from canonical hyphenated UUID text.
    pub fn from_text(s: &str) -> (r: Option<Self>)
        ensures
            match r {
                Some(id) => is_uuid_text(s@) && id.spec_raw() == uuid_val_of(s@),
                None => !is_uuid_text(s@),
            },
    {
        match parse_uuid(s) {
            Some(bits) => Some(PlayerId { raw: bits }),
            None => None,
        }
    }
}

impl GameId {
    /// The identifier's underlying 128-bit value.
    pub closed spec fn spec_raw(self) -> u128 {
        self.raw
    }

    /// Draws a fresh random identifier.
    pub fn new_random() -> Self {
        GameId { raw: fresh_uuid_bits() }
    }

    /// Returns the underlying 128-bit value.
    pub fn raw(&self) -> (r: u128)
        ensures
            r == self.spec_raw(),
    {
        self.raw
    }

    /// Builds the identifier holding the given 128-bit value.
    pub fn from_raw(raw: u128) -> (id: Self)
        ensures
            id.spec_raw() == raw,
    {
        GameId { raw }
    }

    /// The canonical hyphenated lowercase UUID text of this identifier.
    pub fn to_text(&self) -> (s: String)
        ensures
            s@ == uuid_text_of(self.spec_raw()),
    {
        format_uuid(self.raw)
    }

    /// Parses an identifier from canonical hyphenated UUID text.
    pub fn from_text(s: &str) -> (r: Option<Self>)
        ensures
            match r {
                Some(id) => is_uuid_text(s@) && id.spec_raw() == uuid_val_of(s@),
                None => !is_uuid_text(s@),
            },
    {
        match parse_uuid(s) {
            Some(bits) => Some(GameId { raw: bits }),
            None => None,
        }
    }
}

/// Identifiers compare by their underlying value alone: two tournament ids
/// are equal exactly when their raw values are equal.
pub proof fn lemma_tournament_id_eq(a: TournamentId, b: TournamentId)
    ensures
        (a == b) <==> (a.spec_raw() == b.spec_raw()),
{
}

/// Identifiers compare by their underlying value alone: two player ids are
/// equal exactly when their raw values are equal.
pub proof fn lemma_player_id_eq(a: PlayerId, b: PlayerId)
    ensures
        (a == b) <==> (a.spec_raw() == b.spec_raw()),
{
}

/// Identifiers compare by their underlying value alone: two game ids are
/// equal exactly when their raw values are equal.
pub proof fn lemma_game_id_eq(a: GameId, b: GameId)
    ensures
        (a == b) <==> (a.spec_raw() == b.spec_raw()),
{
}

} // verus!
