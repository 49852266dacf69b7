//! Command-line client library for a restaurant-menu web API: opening-hours
//! evaluation, restaurant filtering and sorting, menu flattening, and
//! keyword-based menu formatting, with machine-checked contracts.
use vstd::prelude::*;

pub mod args;
pub mod clock;
pub mod hours;
pub mod lang;
pub mod search;
pub mod text;

verus! {

/// The failure kinds of the query pipeline.
///
/// `Network` and `Decode` arise at the HTTP boundary; `Parse` arises from a
/// malformed opening-hours string or numeric field inside otherwise valid
/// data; `Validation` arises from nonsensical flag combinations or an invalid
/// language code.
#[derive(Clone, Copy, Debug, PartialEq, Eq, Structural)]
pub enum MenuError {
    Network,
    Decode,
    Parse,
    Validation,
}

impl MenuError {
    /// A short human-readable description of the error kind.
    pub fn describe(&self) -> (r: &'static str)
        ensures
            *self == MenuError::Network ==> r@ == "network error"@,
            *self == MenuError::Decode ==> r@ == "malformed response"@,
            *self == MenuError::Parse ==> r@ == "malformed field"@,
            *self == MenuError::Validation ==> r@ == "invalid option"@,
    {
        match self {
            MenuError::Network => "network error",
            MenuError::Decode => "malformed response",
            MenuError::Parse => "malformed field",
            MenuError::Validation => "invalid option",
        }
    }
}

} // verus!
