use vstd::prelude::*;

pub mod clock;
pub mod json;
pub mod manager;
pub mod message;
pub mod notify;
pub mod order;
pub mod stream;
pub mod strings;
pub mod user;
pub mod room;

verus! {

/// Errors that keep the server from starting.
#[derive(Debug)]
pub enum ChatServerErr {
    FailedInitializeServer,
}

} // verus!
