//! Request and response wrapper types shared with the service layer.

use vstd::prelude::*;

verus! {

/// The request used to create a tournament; it carries no data.
#[derive(Debug)]
pub struct CreateTournamentRequest;

/// The basic wrapper that the service layer returns a payload in; the
/// service layer owns how it is put on the wire.
#[derive(Debug)]
pub struct BasicResponse<T>(pub T);

impl<T> BasicResponse<T> {
    /// Wraps the payload in a response, unchanged.
    pub fn new(data: T) -> (r: Self)
        ensures
            r.0 == data,
    {
        BasicResponse(data)
    }
}

} // verus!
