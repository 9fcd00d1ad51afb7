//! In-memory tournament management: typed identifiers, the tournament
//! aggregate with its validated action processor, and a shared store that
//! holds every tournament behind one reader-writer lock.

pub mod id;
pub mod kvmap;
pub mod response;
pub mod store;
pub mod tournament;
pub mod uuid_text;
