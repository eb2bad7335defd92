//! Skip utilities: passing over events without interpreting them.

use crate::error::Fatal;
use crate::event::{Event, EventSource, EventView};
use vstd::prelude::*;

verus! {

/// Fast forward to the end of an object: the events that are left after the
/// `EndObject` that brings `cb` open objects down to none, with the number of
/// arrays that are open there, `sq` of them being open at the start.
pub open spec fn object_end(ev: Seq<EventView>, cb: nat, sq: nat) -> Result<
    (nat, Seq<EventView>),
    Fatal,
>
    decreases ev.len(),
{
    if ev.len() == 0 {
        Err(Fatal::MalformedInput)
    } else {
        let rest = ev.skip(1);
        match ev[0] {
            EventView::StartObject => object_end(rest, cb + 1, sq),
            EventView::EndObject => if cb == 0 {
                Err(Fatal::MalformedInput)
            } else if cb == 1 {
                Ok((sq, rest))
            } else {
                object_end(rest, (cb - 1) as nat, sq)
            },
            EventView::StartArray => object_end(rest, cb, sq + 1),
            EventView::EndArray => if sq == 0 {
                Err(Fatal::MalformedInput)
            } else {
                object_end(rest, cb, (sq - 1) as nat)
            },
            EventView::Eof => Err(Fatal::MalformedInput),
            _ => object_end(rest, cb, sq),
        }
    }
}

/// Skip an array: the events that are left after the `EndArray` that brings
/// `sq` open arrays down to none. Only array brackets are counted.
pub open spec fn array_end(ev: Seq<EventView>, sq: nat) -> Result<Seq<EventView>, Fatal>
    decreases ev.len(),
{
    if ev.len() == 0 {
        Err(Fatal::MalformedInput)
    } else {
        let rest = ev.skip(1);
        match ev[0] {
            EventView::StartArray => array_end(rest, sq + 1),
            EventView::EndArray => if sq == 0 {
                Err(Fatal::MalformedInput)
            } else if sq == 1 {
                Ok(rest)
            } else {
                array_end(rest, (sq - 1) as nat)
            },
            EventView::Eof => Err(Fatal::MalformedInput),
            _ => array_end(rest, sq),
        }
    }
}

/// Bypass one value: the events that are left after the value that `ev`
/// starts with. An object runs to the end of the object, an array to the end
/// of the array, a scalar is one event. A closing bracket of an array in place
/// of a value is malformed input.
pub open spec fn bypassed(ev: Seq<EventView>) -> Result<Seq<EventView>, Fatal> {
    if ev.len() == 0 {
        Err(Fatal::MalformedInput)
    } else {
        let rest = ev.skip(1);
        match ev[0] {
            EventView::StartObject => match object_end(rest, 1, 0) {
                Ok((_, after)) => Ok(after),
                Err(f) => Err(f),
            },
            EventView::StartArray => array_end(rest, 1),
            EventView::EndArray => Err(Fatal::MalformedInput),
            EventView::Eof => Err(Fatal::MalformedInput),
            _ => Ok(rest),
        }
    }
}

/// What is left after the end of an object is shorter than what was there,
/// and each array that is open afterwards was open before or was opened by
/// an event that is gone.
pub proof fn lemma_object_end_shorter(ev: Seq<EventView>, cb: nat, sq: nat)
    ensures
        match object_end(ev, cb, sq) {
            Ok((s, rest)) => rest.len() < ev.len() && s + rest.len() <= sq + ev.len(),
            Err(_) => true,
        },
    decreases ev.len(),
{
    if ev.len() > 0 {
        let rest = ev.skip(1);
        match ev[0] {
            EventView::StartObject => lemma_object_end_shorter(rest, cb + 1, sq),
            EventView::EndObject => if cb > 1 {
                lemma_object_end_shorter(rest, (cb - 1) as nat, sq)
            },
            EventView::StartArray => lemma_object_end_shorter(rest, cb, sq + 1),
            EventView::EndArray => if sq > 0 {
                lemma_object_end_shorter(rest, cb, (sq - 1) as nat)
            },
            EventView::Eof => {},
            _ => lemma_object_end_shorter(rest, cb, sq),
        }
    }
}

/// What is left after the end of an array is shorter than what was there.
pub proof fn lemma_array_end_shorter(ev: Seq<EventView>, sq: nat)
    ensures
        match array_end(ev, sq) {
            Ok(rest) => rest.len() < ev.len(),
            Err(_) => true,
        },
    decreases ev.len(),
{
    if ev.len() > 0 {
        let rest = ev.skip(1);
        match ev[0] {
            EventView::StartArray => lemma_array_end_shorter(rest, sq + 1),
            EventView::EndArray => if sq > 1 {
                lemma_array_end_shorter(rest, (sq - 1) as nat)
            },
            EventView::Eof => {},
            _ => lemma_array_end_shorter(rest, sq),
        }
    }
}

/// What is left after a bypassed value is shorter than what was there.
pub proof fn lemma_bypassed_shorter(ev: Seq<EventView>)
    ensures
        match bypassed(ev) {
            Ok(rest) => rest.len() < ev.len(),
            Err(_) => true,
        },
{
    if ev.len() > 0 {
        lemma_object_end_shorter(ev.skip(1), 1, 0);
        lemma_array_end_shorter(ev.skip(1), 1);
    }
}

/// Used to skip objects that have been partially processed: consumes events
/// until the `cb` open objects are closed.
#[verifier::loop_isolation(false)]
pub fn ff_to_next_obj(source: &mut EventSource<'_>, cb: &mut u64, sq: &mut u64) -> (r: Result<
    (),
    Fatal,
>)
    requires
        old(source).wf(),
        *old(cb) + old(source).pending().len() <= u64::MAX,
        *old(sq) + old(source).pending().len() <= u64::MAX,
    ensures
        final(source).wf(),
        match object_end(old(source).pending(), *old(cb) as nat, *old(sq) as nat) {
            Ok((s, rest)) => {
                &&& r is Ok
                &&& *final(cb) == 0
                &&& *final(sq) == s
                &&& final(source).pending() == rest
                &&& rest.len() < old(source).pending().len()
                &&& s + rest.len() <= *old(sq) + old(source).pending().len()
            },
            Err(f) => r == Err::<(), Fatal>(f),
        },
{
    let ghost start = source.pending();
    let ghost cb0 = *cb as nat;
    let ghost sq0 = *sq as nat;
    proof {
        lemma_object_end_shorter(start, cb0, sq0);
    }
    loop
        invariant
            source.wf(),
            *cb + source.pending().len() <= u64::MAX,
            *sq + source.pending().len() <= u64::MAX,
            object_end(start, cb0, sq0) == object_end(source.pending(), *cb as nat, *sq as nat),
        decreases source.pending().len(),
    {
        let e = match source.next_event() {
            Some(e) => e,
            None => {
                return Err(Fatal::MalformedInput);
            },
        };
        match e {
            Event::StartObject => {
                *cb = *cb + 1;
            },
            Event::EndObject => {
                if *cb == 0 {
                    return Err(Fatal::MalformedInput);
                }
                *cb = *cb - 1;
                if *cb == 0 {
                    return Ok(());
                }
            },
            Event::StartArray => {
                *sq = *sq + 1;
            },
            Event::EndArray => {
                if *sq == 0 {
                    return Err(Fatal::MalformedInput);
                }
                *sq = *sq - 1;
            },
            Event::Eof => {
                return Err(Fatal::MalformedInput);
            },
            _ => {},
        }
    }
}

/// Skips an array without interpreting it: consumes events until the `sq`
/// open arrays are closed. With `sq` at zero the array is still to be entered.
#[verifier::loop_isolation(false)]
pub fn skip_array(source: &mut EventSource<'_>, sq: u64) -> (r: Result<(), Fatal>)
    requires
        old(source).wf(),
        sq + old(source).pending().len() <= u64::MAX,
    ensures
        final(source).wf(),
        match array_end(old(source).pending(), sq as nat) {
            Ok(rest) => {
                &&& r is Ok
                &&& final(source).pending() == rest
                &&& rest.len() < old(source).pending().len()
            },
            Err(f) => r == Err::<(), Fatal>(f),
        },
{
    let ghost start = source.pending();
    let mut sq = sq;
    let ghost sq0 = sq as nat;
    proof {
        lemma_array_end_shorter(start, sq0);
    }
    loop
        invariant
            source.wf(),
            sq + source.pending().len() <= u64::MAX,
            array_end(start, sq0) == array_end(source.pending(), sq as nat),
        decreases source.pending().len(),
    {
        let e = match source.next_event() {
            Some(e) => e,
            None => {
                return Err(Fatal::MalformedInput);
            },
        };
        match e {
            Event::StartArray => {
                sq = sq + 1;
            },
            Event::EndArray => {
                if sq == 0 {
                    return Err(Fatal::MalformedInput);
                }
                sq = sq - 1;
                if sq == 0 {
                    return Ok(());
                }
            },
            Event::Eof => {
                return Err(Fatal::MalformedInput);
            },
            _ => {},
        }
    }
}

/// Used to bypass the value of an unsupported key.
pub fn bypass_key(source: &mut EventSource<'_>) -> (r: Result<(), Fatal>)
    requires
        old(source).wf(),
    ensures
        final(source).wf(),
        match bypassed(old(source).pending()) {
            Ok(rest) => {
                &&& r is Ok
                &&& final(source).pending() == rest
                &&& rest.len() < old(source).pending().len()
            },
            Err(f) => r == Err::<(), Fatal>(f),
        },
{
    proof {
        lemma_bypassed_shorter(source.pending());
    }
    let e = match source.next_event() {
        Some(e) => e,
        None => {
            return Err(Fatal::MalformedInput);
        },
    };
    match e {
        Event::StartObject => {
            let mut cb: u64 = 1;
            let mut sq: u64 = 0;
            ff_to_next_obj(source, &mut cb, &mut sq)
        },
        Event::StartArray => skip_array(source, 1),
        Event::EndArray => Err(Fatal::MalformedInput),
        Event::Eof => Err(Fatal::MalformedInput),
        _ => Ok(()),
    }
}

} // verus!
