//! The state of a client connection as the server sees it.
use vstd::prelude::*;

verus! {

/// The state of a client connection.
#[derive(Clone, Copy, PartialEq, Eq, Structural, Debug)]
pub enum State {
    Ready,
    Alive,
    Wait,
    Busy,
    Dead,
    WaitKill,
}

impl State {
    /// Whether the connection is waiting to be dropped.
    pub fn is_wait_kill(&self) -> (r: bool)
        ensures
            r == (*self == State::WaitKill),
    {
        match *self {
            State::Ready | State::Alive | State::Wait | State::Busy | State::Dead => false,
            State::WaitKill => true,
        }
    }
}

} // verus!
