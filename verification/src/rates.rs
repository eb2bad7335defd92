//! The walker of a `negotiated_rates` array.

use crate::error::Fatal;
use crate::event::{Event, EventSource, EventView};
use crate::notices::{Notices, NoticesView};
use crate::prices::{lemma_prices_walk_shorter, prices_of, prices_start, process_negotiated_prices};
use crate::records::{optional_rates, rate_views, Rate, RateView};
use crate::skip::{
    bypass_key, bypassed, ff_to_next_obj, lemma_bypassed_shorter, lemma_object_end_shorter,
    object_end,
};
use crate::text::{parse_u64, parsed_u64, same_text};
use crate::walk::Step;
use std::collections::HashMap;
use vstd::prelude::*;

verus! {

broadcast use vstd::std_specs::hash::group_hash_axioms;

/// The state of a walk over rates.
pub struct RatesState {
    pub cb: nat,
    pub sq: nat,
    pub rate: RateView,
    pub rates: Seq<RateView>,
    pub notices: NoticesView,
}

/// The state at the start of a walk over rates.
pub open spec fn rates_start(notices: NoticesView) -> RatesState {
    RatesState { cb: 0, sq: 0, rate: RateView::empty(), rates: Seq::empty(), notices }
}

/// What a walk over rates returns: the rates that survived, or `None` if none
/// did, and the notices.
pub type RatesResult = (Option<Seq<RateView>>, NoticesView);

/// The rates that a walk returns: `None` in place of no rate at all.
pub open spec fn finished_rates(rates: Seq<RateView>) -> Option<Seq<RateView>> {
    if rates.len() == 0 {
        None
    } else {
        Some(rates)
    }
}

/// One step of the walk over rates, on the first of the events `ev`. Of the
/// provider references, those in `groups` are kept.
pub open spec fn rates_step(ev: Seq<EventView>, st: RatesState, groups: Set<u64>) -> Step<
    RatesState,
    RatesResult,
    NoticesView,
>
    recommends
        ev.len() > 0,
{
    let rest = ev.skip(1);
    match ev[0] {
        EventView::StartObject => Step::Next(rest, RatesState { cb: st.cb + 1, ..st }),
        EventView::EndObject => if st.cb == 0 {
            Step::Fail(Fatal::MalformedInput, st.notices)
        } else if st.cb == 1 {
            Step::Next(
                rest,
                RatesState {
                    cb: 0,
                    rate: RateView::empty(),
                    rates: if st.rate.refs.len() != 0 {
                        st.rates.push(st.rate)
                    } else {
                        st.rates
                    },
                    ..st
                },
            )
        } else {
            Step::Next(rest, RatesState { cb: (st.cb - 1) as nat, ..st })
        },
        EventView::StartArray => Step::Next(rest, RatesState { sq: st.sq + 1, ..st }),
        EventView::EndArray => if st.sq == 0 {
            Step::Fail(Fatal::MalformedInput, st.notices)
        } else if st.sq == 1 {
            Step::Done((finished_rates(st.rates), st.notices), rest)
        } else if st.rate.refs.len() == 0 {
            // No reference of this rate is asked for: the rest of it is passed over.
            match object_end(rest, st.cb, (st.sq - 1) as nat) {
                Ok((sq, after)) => Step::Next(
                    after,
                    RatesState { cb: 0, sq, rate: RateView::empty(), ..st },
                ),
                Err(f) => Step::Fail(f, st.notices),
            }
        } else {
            Step::Next(rest, RatesState { sq: (st.sq - 1) as nat, ..st })
        },
        EventView::ObjectKey(key) => if key == "provider_references"@ {
            Step::Next(rest, st)
        } else if key == "negotiated_prices"@ {
            match prices_of(rest, st.notices) {
                Ok(((prices, notices), after)) => Step::Next(
                    after,
                    RatesState { rate: RateView { prices, ..st.rate }, notices, ..st },
                ),
                Err((f, notices)) => Step::Fail(f, notices),
            }
        } else {
            match bypassed(rest) {
                Ok(after) => Step::Next(
                    after,
                    RatesState { notices: st.notices.unsupported(key, "negotiated_rates"@), ..st },
                ),
                Err(f) => Step::Fail(f, st.notices.unsupported(key, "negotiated_rates"@)),
            }
        },
        EventView::Number(n) => match parsed_u64(n) {
            Some(reference) => Step::Next(
                rest,
                if groups.contains(reference) {
                    RatesState {
                        rate: RateView { refs: st.rate.refs.push(reference), ..st.rate },
                        ..st
                    }
                } else {
                    st
                },
            ),
            None => Step::Fail(Fatal::BadNumber, st.notices),
        },
        EventView::Eof => Step::Fail(Fatal::MalformedInput, st.notices),
        _ => Step::Next(rest, st),
    }
}

/// Every step of the walk over rates uses up at least one event.
pub proof fn lemma_rates_step_shortens(ev: Seq<EventView>, st: RatesState, groups: Set<u64>)
    requires
        ev.len() > 0,
    ensures
        rates_step(ev, st, groups).shortens(ev.len()),
{
    reveal(prices_of);
    lemma_bypassed_shorter(ev.skip(1));
    lemma_prices_walk_shorter(ev.skip(1), prices_start(st.notices));
    if st.sq >= 1 {
        lemma_object_end_shorter(ev.skip(1), st.cb, (st.sq - 1) as nat);
    }
}

/// The walk over rates from state `st`: step by step to the end of the array.
/// The input ending before that is malformed.
pub open spec fn rates_walk(ev: Seq<EventView>, st: RatesState, groups: Set<u64>) -> Result<
    (RatesResult, Seq<EventView>),
    (Fatal, NoticesView),
>
    decreases ev.len(),
{
    if ev.len() == 0 {
        Err((Fatal::MalformedInput, st.notices))
    } else {
        match rates_step(ev, st, groups) {
            Step::Next(rest, next) => {
                proof {
                    lemma_rates_step_shortens(ev, st, groups);
                }
                rates_walk(rest, next, groups)
            },
            Step::Done(r, rest) => Ok((r, rest)),
            Step::Fail(f, e) => Err((f, e)),
        }
    }
}

/// The rates of the `negotiated_rates` array that `ev` starts with, the
/// notices after it, and the events behind it.
#[verifier::opaque]
pub open spec fn rates_of(ev: Seq<EventView>, groups: Set<u64>, notices: NoticesView) -> Result<
    (RatesResult, Seq<EventView>),
    (Fatal, NoticesView),
> {
    rates_walk(ev, rates_start(notices), groups)
}

/// A walk over rates that ends well leaves fewer events than it found.
pub proof fn lemma_rates_walk_shorter(ev: Seq<EventView>, st: RatesState, groups: Set<u64>)
    ensures
        rates_walk(ev, st, groups) matches Ok((_, rest)) ==> rest.len() < ev.len(),
    decreases ev.len(),
{
    if ev.len() > 0 {
        lemma_rates_step_shortens(ev, st, groups);
        match rates_step(ev, st, groups) {
            Step::Next(rest, next) => lemma_rates_walk_shorter(rest, next, groups),
            _ => {},
        }
    }
}

/// Whether every rate has a reference, and every reference is in `groups`.
pub open spec fn rates_within(rates: Seq<RateView>, groups: Set<u64>) -> bool {
    forall|i: int|
        0 <= i < rates.len() ==> {
            &&& (#[trigger] rates[i]).refs.len() > 0
            &&& forall|j: int| 0 <= j < rates[i].refs.len() ==> groups.contains(#[trigger] rates[i].refs[j])
        }
}

/// Whether every reference of the rate is in `groups`.
pub open spec fn rate_within(rate: RateView, groups: Set<u64>) -> bool {
    forall|j: int| 0 <= j < rate.refs.len() ==> groups.contains(#[trigger] rate.refs[j])
}

/// A step of the walk keeps every reference that it holds within `groups`.
pub proof fn lemma_rates_step_within(ev: Seq<EventView>, st: RatesState, groups: Set<u64>)
    requires
        ev.len() > 0,
        rates_within(st.rates, groups),
        rate_within(st.rate, groups),
    ensures
        match rates_step(ev, st, groups) {
            Step::Next(_, next) => rates_within(next.rates, groups) && rate_within(
                next.rate,
                groups,
            ),
            Step::Done((Some(rates), _), _) => rates.len() > 0 && rates_within(rates, groups),
            _ => true,
        },
{
}

/// Filter soundness of the rates: every rate that the walk returns has a
/// reference, and each of its references is one of `groups`.
pub proof fn lemma_rates_walk_within(ev: Seq<EventView>, st: RatesState, groups: Set<u64>)
    requires
        rates_within(st.rates, groups),
        rate_within(st.rate, groups),
    ensures
        rates_walk(ev, st, groups) matches Ok(((Some(rates), _), _)) ==> rates.len() > 0
            && rates_within(rates, groups),
    decreases ev.len(),
{
    if ev.len() > 0 {
        lemma_rates_step_shortens(ev, st, groups);
        lemma_rates_step_within(ev, st, groups);
        match rates_step(ev, st, groups) {
            Step::Next(rest, next) => lemma_rates_walk_within(rest, next, groups),
            _ => {},
        }
    }
}

/// Processes the `negotiated_rates` array of an `in_network` object. Keeps of
/// each rate the references that `ref_map` holds, and the rate itself if one
/// is kept. Returns `None` if no rate is kept.
#[verifier::loop_isolation(false)]
pub fn process_negotiated_rates(
    source: &mut EventSource<'_>,
    ref_map: &HashMap<u64, Vec<String>>,
    notices: &mut Notices,
) -> (r: Result<Option<Vec<Rate>>, Fatal>)
    requires
        old(source).wf(),
    ensures
        final(source).wf(),
        match rates_of(old(source).pending(), ref_map@.dom(), old(notices)@) {
            Ok(((rates, n), rest)) => {
                &&& r is Ok
                &&& optional_rates(r->Ok_0) == rates
                &&& final(notices)@ == n
                &&& final(source).pending() == rest
                &&& rest.len() < old(source).pending().len()
            },
            Err((f, n)) => r == Err::<Option<Vec<Rate>>, Fatal>(f) && final(notices)@ == n,
        },
{
    let ghost start = source.pending();
    let ghost groups = ref_map@.dom();
    let ghost first = rates_start(notices@);
    proof {
        reveal(rates_of);
        lemma_rates_walk_shorter(start, first, groups);
    }
    let mut rates: Vec<Rate> = Vec::new();
    let mut rate: Rate = Rate::new();
    let mut cb: u64 = 0;
    let mut sq: u64 = 0;
    assert(rate_views(rates@) =~= Seq::empty());
    loop
        invariant
            source.wf(),
            cb + source.pending().len() <= start.len(),
            sq + source.pending().len() <= start.len(),
            rates_walk(start, first, groups) == rates_walk(
                source.pending(),
                RatesState {
                    cb: cb as nat,
                    sq: sq as nat,
                    rate: rate@,
                    rates: rate_views(rates@),
                    notices: notices@,
                },
                groups,
            ),
        decreases source.pending().len(),
    {
        let ghost ev = source.pending();
        proof {
            reveal(prices_of);
            lemma_bypassed_shorter(ev.skip(1));
            lemma_prices_walk_shorter(ev.skip(1), prices_start(notices@));
        }
        let e = match source.next_event() {
            Some(e) => e,
            None => {
                return Err(Fatal::MalformedInput);
            },
        };
        match e {
            Event::StartObject => {
                cb = cb + 1;
            },
            Event::EndObject => {
                if cb == 0 {
                    return Err(Fatal::MalformedInput);
                }
                cb = cb - 1;
                if cb == 0 {
                    if rate.provider_references.len() != 0 {
                        let ghost held = rate_views(rates@);
                        rates.push(rate);
                        assert(rate_views(rates@) =~= held.push(rate@));
                    }
                    rate = Rate::new();
                }
            },
            Event::StartArray => {
                sq = sq + 1;
            },
            Event::EndArray => {
                if sq == 0 {
                    return Err(Fatal::MalformedInput);
                }
                sq = sq - 1;
                if sq == 0 {
                    if rates.len() == 0 {
                        return Ok(None);
                    }
                    return Ok(Some(rates));
                } else if rate.provider_references.len() == 0 {
                    proof {
                        lemma_object_end_shorter(ev.skip(1), cb as nat, sq as nat);
                    }
                    match ff_to_next_obj(source, &mut cb, &mut sq) {
                        Ok(()) => {
                            rate = Rate::new();
                        },
                        Err(f) => {
                            return Err(f);
                        },
                    }
                }
            },
            Event::ObjectKey(key) => {
                if same_text(key.as_str(), "provider_references") {
                } else if same_text(key.as_str(), "negotiated_prices") {
                    match process_negotiated_prices(source, notices) {
                        Ok(prices) => {
                            rate.negotiated_prices = prices;
                        },
                        Err(f) => {
                            return Err(f);
                        },
                    }
                } else {
                    notices.unsupported(key.as_str(), "negotiated_rates");
                    match bypass_key(source) {
                        Ok(()) => {},
                        Err(f) => {
                            return Err(f);
                        },
                    }
                }
            },
            Event::Number(num) => {
                match parse_u64(num.as_str()) {
                    Some(ref_num) => {
                        if ref_map.contains_key(&ref_num) {
                            rate.provider_references.push(ref_num);
                        }
                    },
                    None => {
                        return Err(Fatal::BadNumber);
                    },
                }
            },
            Event::Eof => {
                return Err(Fatal::MalformedInput);
            },
            _ => {},
        }
    }
}

} // verus!
