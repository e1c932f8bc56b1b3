//! What a request is answered with.

use vstd::prelude::*;

verus! {

/// What a request is answered with.
#[derive(Clone, Copy, Debug, PartialEq, Eq, Structural)]
pub enum Answer {
    /// The listing of the names that match.
    Listing,
    /// The text of the requested templates.
    Templates,
    /// The instructions for use: neither a listing nor a name was asked for.
    Help,
}

/// What a request is answered with: a listing where one is asked for, with
/// names or without; else the text for the names, and the instructions where
/// there is no name.
pub open spec fn answer_for(list: bool, names: nat) -> Answer {
    if list {
        Answer::Listing
    } else if names == 0 {
        Answer::Help
    } else {
        Answer::Templates
    }
}

/// Decides what a request for `names` is answered with.
pub fn answer(list: bool, names: &[String]) -> (r: Answer)
    ensures
        r == answer_for(list, names@.len()),
{
    if list {
        Answer::Listing
    } else if names.len() == 0 {
        Answer::Help
    } else {
        Answer::Templates
    }
}

} // verus!
