//! The wall clock, read through `chrono`.
use vstd::prelude::*;

verus! {

/// `chrono::Utc::now()` printed by `to_rfc2822`: the time at which the
/// server stamps a message. It is read from the machine, so nothing is
/// stated of the text.
#[verifier::external_body]
pub(crate) fn now_rfc2822() -> String {
    chrono::Utc::now().to_rfc2822()
}

/// `chrono::Utc::now()` printed by its `Display` impl: the time that goes
/// into a new user's id. It is read from the machine, so nothing is stated
/// of the text.
#[verifier::external_body]
pub(crate) fn now_display() -> String {
    chrono::Utc::now().to_string()
}

} // verus!
