//! The shape that the walkers of the document share: one step at a time over
//! the events that are left.

use crate::error::Fatal;
use crate::event::EventView;
use vstd::prelude::*;

verus! {

/// What one step of a walker comes to.
pub enum Step<S, R, E> {
    /// The walk goes on over the events that are left, in a new state.
    Next(Seq<EventView>, S),
    /// The walk is over, with its result and the events that are left.
    Done(R, Seq<EventView>),
    /// The walk fails, and leaves behind what it had changed.
    Fail(Fatal, E),
}

impl<S, R, E> Step<S, R, E> {
    /// The events that the step leaves.
    pub open spec fn rest(self) -> Seq<EventView> {
        match self {
            Step::Next(rest, _) => rest,
            Step::Done(_, rest) => rest,
            Step::Fail(_, _) => Seq::empty(),
        }
    }

    /// The same step over the events `b`, of which it takes the first `j`.
    pub open spec fn over(self, b: Seq<EventView>, j: int) -> Self {
        match self {
            Step::Next(_, s) => Step::Next(b.skip(j), s),
            Step::Done(r, _) => Step::Done(r, b.skip(j)),
            Step::Fail(f, e) => Step::Fail(f, e),
        }
    }

    /// Whether the step leaves fewer events than the `n` that it found.
    pub open spec fn shortens(self, n: nat) -> bool {
        match self {
            Step::Next(rest, _) => rest.len() < n,
            Step::Done(_, rest) => rest.len() < n,
            Step::Fail(_, _) => true,
        }
    }
}

} // verus!
