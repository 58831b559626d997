//! Requests that wait for their answers.
use crate::stanza::Iq;
use std::str::FromStr;
use std::task::Waker;
use vstd::prelude::*;

verus! {

/// A handle to a task that waits, as `std::task` has it. It is only carried from the one who waits
/// to the one who wakes.
#[verifier::external_type_specification]
#[verifier::external_body]
pub struct ExWaker(Waker);

/// How far a request has come.
pub enum PendingIqState {
    /// No answer yet. Where somebody waits for it, this wakes them.
    Waiting(Option<Waker>),
    /// Something came that could not be read.
    Errored(String),
    /// The answer came.
    Finished(Iq),
}

impl PendingIqState {
    /// How far the request has come once an answer is there: the first one stays, and it takes the
    /// place of one that could not be read.
    pub open spec fn after_answer(self, iq: Iq) -> PendingIqState {
        match self {
            PendingIqState::Finished(first) => PendingIqState::Finished(first),
            _ => PendingIqState::Finished(iq),
        }
    }

    /// How far the request has come once something is there that could not be read: it only counts
    /// where there was nothing before.
    pub open spec fn after_error(self, reason: String) -> PendingIqState {
        match self {
            PendingIqState::Waiting(_) => PendingIqState::Errored(reason),
            _ => self,
        }
    }

    /// Whom anything that comes wakes.
    pub open spec fn wakes(self) -> Seq<Waker> {
        match self {
            PendingIqState::Waiting(Some(waker)) => seq![waker],
            _ => Seq::empty(),
        }
    }
}

/// The number that a text writes as a UUID, where it writes one.
pub uninterp spec fn uuid_of(text: Seq<char>) -> Option<u128>;

/// Calls `uuid::Uuid::from_str` and hands out the number with `as_u128`. The result depends on the
/// text alone.
#[verifier::external_body]
pub(crate) fn read_uuid(text: &str) -> (r: Option<u128>)
    ensures
        r == uuid_of(text@),
{
    uuid::Uuid::from_str(text).ok().map(|uuid| uuid.as_u128())
}

} // verus!
