//! The walker of a `negotiated_prices` array.

use crate::error::Fatal;
use crate::event::{Event, EventSource, EventView};
use crate::notices::{Notices, NoticesView};
use crate::records::{price_views, Price, PriceView};
use crate::skip::{bypass_key, bypassed, lemma_bypassed_shorter};
use crate::text::same_text;
use crate::walk::Step;
use vstd::prelude::*;

verus! {

/// The field of a price that the next scalar goes to.
#[derive(Debug, Clone, Copy, PartialEq, Eq, Structural)]
pub enum PriceField {
    NegotiatedType,
    NegotiatedRate,
    ExpirationDate,
    ServiceCode,
    BillingClass,
    BillingCodeModifier,
    Undefined,
}

/// The field that a key of a price object announces, if it is a known key.
pub open spec fn price_field_of(key: Seq<char>) -> Option<PriceField> {
    if key == "negotiated_type"@ {
        Some(PriceField::NegotiatedType)
    } else if key == "negotiated_rate"@ {
        Some(PriceField::NegotiatedRate)
    } else if key == "expiration_date"@ {
        Some(PriceField::ExpirationDate)
    } else if key == "service_code"@ {
        Some(PriceField::ServiceCode)
    } else if key == "billing_class"@ {
        Some(PriceField::BillingClass)
    } else if key == "billing_code_modifier"@ {
        Some(PriceField::BillingCodeModifier)
    } else {
        None
    }
}

/// The price after a string for `field`: the string is added to what the
/// field holds, and each service code is followed by one space.
pub open spec fn price_with_string(price: PriceView, field: PriceField, s: Seq<char>) -> PriceView {
    match field {
        PriceField::NegotiatedType => PriceView {
            negotiated_type: price.negotiated_type + s,
            ..price
        },
        PriceField::NegotiatedRate => PriceView {
            negotiated_rate: price.negotiated_rate + s,
            ..price
        },
        PriceField::ExpirationDate => PriceView {
            expiration_date: price.expiration_date + s,
            ..price
        },
        PriceField::ServiceCode => PriceView {
            service_code: price.service_code + s + " "@,
            ..price
        },
        PriceField::BillingClass => PriceView { billing_class: price.billing_class + s, ..price },
        PriceField::BillingCodeModifier => PriceView {
            billing_code_modifier: price.billing_code_modifier + s,
            ..price
        },
        PriceField::Undefined => price,
    }
}

/// The price after a number for `field`: under the key of the negotiated
/// rate its text is added to the rate as it stands in the document; under any
/// other key it fills no field.
pub open spec fn price_with_number(price: PriceView, field: PriceField, n: Seq<char>) -> PriceView {
    if field is NegotiatedRate {
        PriceView { negotiated_rate: price.negotiated_rate + n, ..price }
    } else {
        price
    }
}

/// The prices that a walk returns: those collected, or a single null price
/// where there was none.
pub open spec fn finished_prices(prices: Seq<PriceView>) -> Seq<PriceView> {
    if prices.len() == 0 {
        seq![PriceView::null()]
    } else {
        prices
    }
}

/// The state of a walk over prices.
pub struct PricesState {
    pub field: PriceField,
    pub cb: nat,
    pub sq: nat,
    pub price: PriceView,
    pub prices: Seq<PriceView>,
    pub notices: NoticesView,
}

/// The state at the start of a walk over prices.
pub open spec fn prices_start(notices: NoticesView) -> PricesState {
    PricesState {
        field: PriceField::Undefined,
        cb: 0,
        sq: 0,
        price: PriceView::empty(),
        prices: Seq::empty(),
        notices,
    }
}

/// What a walk over prices returns: the prices and the notices.
pub type PricesResult = (Seq<PriceView>, NoticesView);

/// One step of the walk over prices, on the first of the events `ev`.
pub open spec fn prices_step(ev: Seq<EventView>, st: PricesState) -> Step<
    PricesState,
    PricesResult,
    NoticesView,
>
    recommends
        ev.len() > 0,
{
    let rest = ev.skip(1);
    match ev[0] {
        EventView::StartObject => Step::Next(rest, PricesState { cb: st.cb + 1, ..st }),
        EventView::EndObject => if st.cb == 0 {
            Step::Fail(Fatal::MalformedInput, st.notices)
        } else if st.cb == 1 {
            Step::Next(
                rest,
                PricesState {
                    cb: 0,
                    price: PriceView::empty(),
                    prices: st.prices.push(st.price.with_defaults()),
                    ..st
                },
            )
        } else {
            Step::Next(rest, PricesState { cb: (st.cb - 1) as nat, ..st })
        },
        EventView::StartArray => Step::Next(rest, PricesState { sq: st.sq + 1, ..st }),
        EventView::EndArray => if st.sq == 0 {
            Step::Fail(Fatal::MalformedInput, st.notices)
        } else if st.sq == 1 {
            Step::Done((finished_prices(st.prices), st.notices), rest)
        } else {
            Step::Next(rest, PricesState { sq: (st.sq - 1) as nat, ..st })
        },
        EventView::ObjectKey(key) => match price_field_of(key) {
            Some(field) => Step::Next(rest, PricesState { field, ..st }),
            None => match bypassed(rest) {
                Ok(after) => Step::Next(
                    after,
                    PricesState { notices: st.notices.unsupported(key, "Price"@), ..st },
                ),
                Err(f) => Step::Fail(f, st.notices.unsupported(key, "Price"@)),
            },
        },
        EventView::String(s) => if st.field is Undefined {
            Step::Fail(Fatal::UndefinedState, st.notices)
        } else {
            Step::Next(rest, PricesState { price: price_with_string(st.price, st.field, s), ..st })
        },
        EventView::Number(n) => Step::Next(
            rest,
            PricesState { price: price_with_number(st.price, st.field, n), ..st },
        ),
        EventView::Eof => Step::Fail(Fatal::MalformedInput, st.notices),
        _ => Step::Next(rest, st),
    }
}

/// Every step of the walk over prices uses up at least one event.
pub proof fn lemma_prices_step_shortens(ev: Seq<EventView>, st: PricesState)
    requires
        ev.len() > 0,
    ensures
        prices_step(ev, st).shortens(ev.len()),
{
    lemma_bypassed_shorter(ev.skip(1));
}

/// The walk over prices from state `st`: step by step to the end of the
/// array. The input ending before that is malformed.
pub open spec fn prices_walk(ev: Seq<EventView>, st: PricesState) -> Result<
    (PricesResult, Seq<EventView>),
    (Fatal, NoticesView),
>
    decreases ev.len(),
{
    if ev.len() == 0 {
        Err((Fatal::MalformedInput, st.notices))
    } else {
        match prices_step(ev, st) {
            Step::Next(rest, next) => {
                proof {
                    lemma_prices_step_shortens(ev, st);
                }
                prices_walk(rest, next)
            },
            Step::Done(r, rest) => Ok((r, rest)),
            Step::Fail(f, e) => Err((f, e)),
        }
    }
}

/// The prices of the `negotiated_prices` array that `ev` starts with, the
/// notices after it, and the events behind it.
#[verifier::opaque]
pub open spec fn prices_of(ev: Seq<EventView>, notices: NoticesView) -> Result<
    (PricesResult, Seq<EventView>),
    (Fatal, NoticesView),
> {
    prices_walk(ev, prices_start(notices))
}

/// A walk over prices that ends well leaves fewer events than it found.
pub proof fn lemma_prices_walk_shorter(ev: Seq<EventView>, st: PricesState)
    ensures
        prices_walk(ev, st) matches Ok((_, rest)) ==> rest.len() < ev.len(),
    decreases ev.len(),
{
    if ev.len() > 0 {
        lemma_prices_step_shortens(ev, st);
        match prices_step(ev, st) {
            Step::Next(rest, next) => lemma_prices_walk_shorter(rest, next),
            _ => {},
        }
    }
}

/// The field that a key of a price object announces.
fn price_field(key: &str) -> (r: Option<PriceField>)
    ensures
        r == price_field_of(key@),
{
    if same_text(key, "negotiated_type") {
        Some(PriceField::NegotiatedType)
    } else if same_text(key, "negotiated_rate") {
        Some(PriceField::NegotiatedRate)
    } else if same_text(key, "expiration_date") {
        Some(PriceField::ExpirationDate)
    } else if same_text(key, "service_code") {
        Some(PriceField::ServiceCode)
    } else if same_text(key, "billing_class") {
        Some(PriceField::BillingClass)
    } else if same_text(key, "billing_code_modifier") {
        Some(PriceField::BillingCodeModifier)
    } else {
        None
    }
}

/// Adds a string to the field of `price` that `field` names.
fn push_price_string(price: &mut Price, field: PriceField, s: &str)
    ensures
        final(price)@ == price_with_string(old(price)@, field, s@),
{
    match field {
        PriceField::NegotiatedType => price.negotiated_type.append(s),
        PriceField::NegotiatedRate => price.negotiated_rate.append(s),
        PriceField::ExpirationDate => price.expiration_date.append(s),
        PriceField::ServiceCode => {
            price.service_code.append(s);
            price.service_code.append(" ");
        },
        PriceField::BillingClass => price.billing_class.append(s),
        PriceField::BillingCodeModifier => price.billing_code_modifier.append(s),
        PriceField::Undefined => {},
    }
}

/// Handles the data in a `negotiated_prices` array: returns its prices, each
/// with `null` for what it lacks, or a single price of nulls if the array
/// holds none. The service codes of a price are kept as one string, each
/// followed by a space.
#[verifier::loop_isolation(false)]
pub fn process_negotiated_prices(source: &mut EventSource<'_>, notices: &mut Notices) -> (r: Result<
    Vec<Price>,
    Fatal,
>)
    requires
        old(source).wf(),
    ensures
        final(source).wf(),
        match prices_of(old(source).pending(), old(notices)@) {
            Ok(((prices, n), rest)) => {
                &&& r is Ok
                &&& price_views(r->Ok_0@) == prices
                &&& final(notices)@ == n
                &&& final(source).pending() == rest
                &&& rest.len() < old(source).pending().len()
            },
            Err((f, n)) => r == Err::<Vec<Price>, Fatal>(f) && final(notices)@ == n,
        },
{
    let ghost start = source.pending();
    let ghost first = prices_start(notices@);
    proof {
        reveal(prices_of);
        lemma_prices_walk_shorter(start, first);
    }
    let mut state = PriceField::Undefined;
    let mut sq: u64 = 0;
    let mut cb: u64 = 0;
    let mut prices: Vec<Price> = Vec::new();
    let mut price = Price::new();
    assert(price_views(prices@) =~= Seq::empty());
    loop
        invariant
            source.wf(),
            cb + source.pending().len() <= start.len(),
            sq + source.pending().len() <= start.len(),
            prices_walk(start, first) == prices_walk(
                source.pending(),
                PricesState {
                    field: state,
                    cb: cb as nat,
                    sq: sq as nat,
                    price: price@,
                    prices: price_views(prices@),
                    notices: notices@,
                },
            ),
        decreases source.pending().len(),
    {
        let ghost ev = source.pending();
        proof {
            lemma_bypassed_shorter(ev.skip(1));
        }
        let e = match source.next_event() {
            Some(e) => e,
            None => {
                return Err(Fatal::MalformedInput);
            },
        };
        match e {
            Event::StartObject => {
                cb = cb + 1;
            },
            Event::EndObject => {
                if cb == 0 {
                    return Err(Fatal::MalformedInput);
                }
                cb = cb - 1;
                if cb == 0 {
                    let ghost held = price_views(prices@);
                    price.push_defaults();
                    prices.push(price);
                    assert(price_views(prices@) =~= held.push(price@));
                    price = Price::new();
                }
            },
            Event::StartArray => {
                sq = sq + 1;
            },
            Event::EndArray => {
                if sq == 0 {
                    return Err(Fatal::MalformedInput);
                }
                sq = sq - 1;
                if sq == 0 {
                    if prices.len() == 0 {
                        prices.push(Price::new_null());
                        assert(price_views(prices@) =~= seq![PriceView::null()]);
                    }
                    return Ok(prices);
                }
            },
            Event::ObjectKey(key) => {
                match price_field(key.as_str()) {
                    Some(field) => {
                        state = field;
                    },
                    None => {
                        notices.unsupported(key.as_str(), "Price");
                        match bypass_key(source) {
                            Ok(()) => {},
                            Err(f) => {
                                return Err(f);
                            },
                        }
                    },
                }
            },
            Event::String(s) => {
                if state == PriceField::Undefined {
                    return Err(Fatal::UndefinedState);
                }
                push_price_string(&mut price, state, s.as_str());
            },
            Event::Number(num) => {
                if state == PriceField::NegotiatedRate {
                    price.negotiated_rate.append(num.as_str());
                }
            },
            Event::Eof => {
                return Err(Fatal::MalformedInput);
            },
            _ => {},
        }
    }
}

} // verus!
