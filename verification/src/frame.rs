//! Walkers look only at the events that they take: a walk that ends well
//! goes the same way over any other events that start alike.

use crate::event::EventView;
use crate::skip::{
    array_end, bypassed, lemma_array_end_shorter, lemma_bypassed_shorter,
    lemma_object_end_shorter, object_end,
};
use crate::notices::NoticesView;
use crate::prices::{
    lemma_prices_step_shortens, lemma_prices_walk_shorter, prices_of, prices_start, prices_step,
    prices_walk, PricesResult, PricesState,
};
use crate::network::{
    lemma_net_step_shortens, lemma_net_walk_shorter, net_step, net_walk, NetResult, NetState,
};
use crate::providers::{
    groups_of, groups_start, groups_step, groups_walk, lemma_groups_step_shortens,
    lemma_groups_walk_shorter, lemma_refs_step_shortens, lemma_refs_walk_shorter, refs_step,
    refs_walk, GroupsResult, GroupsState, RefsResult, RefsState,
};
use crate::query::npis;
use crate::rates::{
    lemma_rates_step_shortens, lemma_rates_walk_shorter, rates_of, rates_start, rates_step,
    rates_walk, RatesResult, RatesState,
};
use crate::walk::Step;
use vstd::prelude::*;

verus! {

/// Whether two sequences of events start with the same `k` events.
pub open spec fn agree(a: Seq<EventView>, b: Seq<EventView>, k: int) -> bool {
    &&& 0 <= k <= a.len()
    &&& k <= b.len()
    &&& forall|i: int| 0 <= i < k ==> a[i] == b[i]
}

/// Sequences that start alike still start alike once the first `j` events of
/// both are gone.
pub proof fn lemma_agree_skip(a: Seq<EventView>, b: Seq<EventView>, k: int, j: int)
    requires
        agree(a, b, k),
        0 <= j <= k,
    ensures
        agree(a.skip(j), b.skip(j), k - j),
        a.skip(j).skip(k - j) == a.skip(k),
        b.skip(j).skip(k - j) == b.skip(k),
{
    assert forall|i: int| 0 <= i < k - j implies a.skip(j)[i] == b.skip(j)[i] by {
        assert(a.skip(j)[i] == a[i + j]);
        assert(b.skip(j)[i] == b[i + j]);
    }
    assert(a.skip(j).skip(k - j) =~= a.skip(k));
    assert(b.skip(j).skip(k - j) =~= b.skip(k));
}

/// The fast forward to the end of an object looks only at the events that it
/// takes.
pub proof fn lemma_object_end_frame(
    a: Seq<EventView>,
    b: Seq<EventView>,
    cb: nat,
    sq: nat,
    k: int,
)
    requires
        object_end(a, cb, sq) matches Ok((_, rest)) && rest.len() + k == a.len(),
        agree(a, b, k),
    ensures
        object_end(a, cb, sq) matches Ok((s, rest)) && rest == a.skip(k) && object_end(b, cb, sq)
            == Ok::<(nat, Seq<EventView>), crate::error::Fatal>((s, b.skip(k))),
    decreases a.len(),
{
    lemma_object_end_shorter(a, cb, sq);
    lemma_agree_skip(a, b, k, 1);
    let ra = a.skip(1);
    let rb = b.skip(1);
    assert(a[0] == b[0]);
    match a[0] {
        EventView::StartObject => lemma_object_end_frame(ra, rb, cb + 1, sq, k - 1),
        EventView::EndObject => if cb > 1 {
            lemma_object_end_frame(ra, rb, (cb - 1) as nat, sq, k - 1)
        },
        EventView::StartArray => lemma_object_end_frame(ra, rb, cb, sq + 1, k - 1),
        EventView::EndArray => lemma_object_end_frame(ra, rb, cb, (sq - 1) as nat, k - 1),
        EventView::Eof => {},
        _ => lemma_object_end_frame(ra, rb, cb, sq, k - 1),
    }
}

/// The skip of an array looks only at the events that it takes.
pub proof fn lemma_array_end_frame(a: Seq<EventView>, b: Seq<EventView>, sq: nat, k: int)
    requires
        array_end(a, sq) matches Ok(rest) && rest.len() + k == a.len(),
        agree(a, b, k),
    ensures
        array_end(a, sq) == Ok::<Seq<EventView>, crate::error::Fatal>(a.skip(k)),
        array_end(b, sq) == Ok::<Seq<EventView>, crate::error::Fatal>(b.skip(k)),
    decreases a.len(),
{
    lemma_array_end_shorter(a, sq);
    lemma_agree_skip(a, b, k, 1);
    let ra = a.skip(1);
    let rb = b.skip(1);
    assert(a[0] == b[0]);
    match a[0] {
        EventView::StartArray => lemma_array_end_frame(ra, rb, sq + 1, k - 1),
        EventView::EndArray => if sq > 1 {
            lemma_array_end_frame(ra, rb, (sq - 1) as nat, k - 1)
        },
        EventView::Eof => {},
        _ => lemma_array_end_frame(ra, rb, sq, k - 1),
    }
}

/// The bypass of a value looks only at the events that it takes.
pub proof fn lemma_bypassed_frame(a: Seq<EventView>, b: Seq<EventView>, k: int)
    requires
        bypassed(a) matches Ok(rest) && rest.len() + k == a.len(),
        agree(a, b, k),
    ensures
        bypassed(a) == Ok::<Seq<EventView>, crate::error::Fatal>(a.skip(k)),
        bypassed(b) == Ok::<Seq<EventView>, crate::error::Fatal>(b.skip(k)),
{
    lemma_bypassed_shorter(a);
    lemma_agree_skip(a, b, k, 1);
    assert(a[0] == b[0]);
    match a[0] {
        EventView::StartObject => lemma_object_end_frame(a.skip(1), b.skip(1), 1, 0, k - 1),
        EventView::StartArray => lemma_array_end_frame(a.skip(1), b.skip(1), 1, k - 1),
        _ => {},
    }
}

/// Sequences that start with the same `k` events start with the same `j`
/// events, for `j` up to `k`.
pub proof fn lemma_agree_less(a: Seq<EventView>, b: Seq<EventView>, k: int, j: int)
    requires
        agree(a, b, k),
        0 <= j <= k,
    ensures
        agree(a, b, j),
{
}

/// A step of the walk over prices looks only at the events that it takes.
pub proof fn lemma_prices_step_frame(
    a: Seq<EventView>,
    b: Seq<EventView>,
    st: PricesState,
    k: int,
)
    requires
        a.len() > 0,
        !(prices_step(a, st) is Fail),
        a.len() - prices_step(a, st).rest().len() <= k,
        agree(a, b, k),
    ensures
        prices_step(a, st).rest() == a.skip(a.len() - prices_step(a, st).rest().len()),
        prices_step(b, st) == prices_step(a, st).over(
            b,
            a.len() - prices_step(a, st).rest().len(),
        ),
{
    let j = a.len() - prices_step(a, st).rest().len();
    lemma_prices_step_shortens(a, st);
    lemma_agree_skip(a, b, k, 1);
    lemma_agree_less(a.skip(1), b.skip(1), k - 1, j - 1);
    lemma_agree_skip(a, b, j, 1);
    assert(a[0] == b[0]);
    if bypassed(a.skip(1)) matches Ok(after) && after.len() + j - 1 == a.skip(1).len() {
        lemma_bypassed_frame(a.skip(1), b.skip(1), j - 1);
    }
}

/// The walk over prices looks only at the events that it takes.
pub proof fn lemma_prices_walk_frame(
    a: Seq<EventView>,
    b: Seq<EventView>,
    st: PricesState,
    k: int,
)
    requires
        prices_walk(a, st) matches Ok((_, rest)) && rest.len() + k == a.len(),
        agree(a, b, k),
    ensures
        prices_walk(a, st) matches Ok((r, rest)) && rest == a.skip(k) && prices_walk(b, st)
            == Ok::<(PricesResult, Seq<EventView>), (crate::error::Fatal, NoticesView)>(
            (r, b.skip(k)),
        ),
    decreases a.len(),
{
    lemma_prices_walk_shorter(a, st);
    lemma_prices_step_shortens(a, st);
    let step = prices_step(a, st);
    let j = a.len() - step.rest().len();
    match step {
        Step::Next(rest, next) => {
            lemma_prices_walk_shorter(rest, next);
            lemma_prices_step_frame(a, b, st, k);
            lemma_agree_skip(a, b, k, j);
            lemma_prices_walk_frame(a.skip(j), b.skip(j), next, k - j);
        },
        Step::Done(_, _) => {
            lemma_prices_step_frame(a, b, st, k);
        },
        Step::Fail(_, _) => {},
    }
}

/// A step of the walk over rates looks only at the events that it takes.
pub proof fn lemma_rates_step_frame(
    a: Seq<EventView>,
    b: Seq<EventView>,
    st: RatesState,
    groups: Set<u64>,
    k: int,
)
    requires
        a.len() > 0,
        !(rates_step(a, st, groups) is Fail),
        a.len() - rates_step(a, st, groups).rest().len() <= k,
        agree(a, b, k),
    ensures
        rates_step(a, st, groups).rest() == a.skip(
            a.len() - rates_step(a, st, groups).rest().len(),
        ),
        rates_step(b, st, groups) == rates_step(a, st, groups).over(
            b,
            a.len() - rates_step(a, st, groups).rest().len(),
        ),
{
    reveal(prices_of);
    let j = a.len() - rates_step(a, st, groups).rest().len();
    let ra = a.skip(1);
    let rb = b.skip(1);
    lemma_rates_step_shortens(a, st, groups);
    lemma_agree_skip(a, b, k, 1);
    lemma_agree_less(ra, rb, k - 1, j - 1);
    lemma_agree_skip(a, b, j, 1);
    assert(a[0] == b[0]);
    if bypassed(ra) matches Ok(after) && after.len() + j - 1 == ra.len() {
        lemma_bypassed_frame(ra, rb, j - 1);
    }
    if st.sq >= 1 && (object_end(ra, st.cb, (st.sq - 1) as nat) matches Ok((_, after))
        && after.len() + j - 1 == ra.len()) {
        lemma_object_end_frame(ra, rb, st.cb, (st.sq - 1) as nat, j - 1);
    }
    if prices_walk(ra, prices_start(st.notices)) matches Ok((_, after)) && after.len() + j - 1
        == ra.len() {
        lemma_prices_walk_frame(ra, rb, prices_start(st.notices), j - 1);
    }
}

/// The walk over rates looks only at the events that it takes.
pub proof fn lemma_rates_walk_frame(
    a: Seq<EventView>,
    b: Seq<EventView>,
    st: RatesState,
    groups: Set<u64>,
    k: int,
)
    requires
        rates_walk(a, st, groups) matches Ok((_, rest)) && rest.len() + k == a.len(),
        agree(a, b, k),
    ensures
        rates_walk(a, st, groups) matches Ok((r, rest)) && rest == a.skip(k) && rates_walk(
            b,
            st,
            groups,
        ) == Ok::<(RatesResult, Seq<EventView>), (crate::error::Fatal, NoticesView)>(
            (r, b.skip(k)),
        ),
    decreases a.len(),
{
    lemma_rates_walk_shorter(a, st, groups);
    lemma_rates_step_shortens(a, st, groups);
    let step = rates_step(a, st, groups);
    let j = a.len() - step.rest().len();
    match step {
        Step::Next(rest, next) => {
            lemma_rates_walk_shorter(rest, next, groups);
            lemma_rates_step_frame(a, b, st, groups, k);
            lemma_agree_skip(a, b, k, j);
            lemma_rates_walk_frame(a.skip(j), b.skip(j), next, groups, k - j);
        },
        Step::Done(_, _) => {
            lemma_rates_step_frame(a, b, st, groups, k);
        },
        Step::Fail(_, _) => {},
    }
}

/// A step of the walk over provider groups looks only at the events that it
/// takes.
pub proof fn lemma_groups_step_frame(
    a: Seq<EventView>,
    b: Seq<EventView>,
    st: GroupsState,
    wanted: Set<u64>,
    k: int,
)
    requires
        a.len() > 0,
        !(groups_step(a, st, wanted) is Fail),
        a.len() - groups_step(a, st, wanted).rest().len() <= k,
        agree(a, b, k),
    ensures
        groups_step(a, st, wanted).rest() == a.skip(
            a.len() - groups_step(a, st, wanted).rest().len(),
        ),
        groups_step(b, st, wanted) == groups_step(a, st, wanted).over(
            b,
            a.len() - groups_step(a, st, wanted).rest().len(),
        ),
{
    let j = a.len() - groups_step(a, st, wanted).rest().len();
    let ra = a.skip(1);
    let rb = b.skip(1);
    lemma_groups_step_shortens(a, st, wanted);
    lemma_agree_skip(a, b, k, 1);
    lemma_agree_less(ra, rb, k - 1, j - 1);
    lemma_agree_skip(a, b, j, 1);
    assert(a[0] == b[0]);
    if bypassed(ra) matches Ok(after) && after.len() + j - 1 == ra.len() {
        lemma_bypassed_frame(ra, rb, j - 1);
    }
}

/// The walk over provider groups looks only at the events that it takes.
pub proof fn lemma_groups_walk_frame(
    a: Seq<EventView>,
    b: Seq<EventView>,
    st: GroupsState,
    wanted: Set<u64>,
    k: int,
)
    requires
        groups_walk(a, st, wanted) matches Ok((_, rest)) && rest.len() + k == a.len(),
        agree(a, b, k),
    ensures
        groups_walk(a, st, wanted) matches Ok((r, rest)) && rest == a.skip(k) && groups_walk(
            b,
            st,
            wanted,
        ) == Ok::<(GroupsResult, Seq<EventView>), (crate::error::Fatal, GroupsResult)>(
            (r, b.skip(k)),
        ),
    decreases a.len(),
{
    lemma_groups_walk_shorter(a, st, wanted);
    lemma_groups_step_shortens(a, st, wanted);
    let step = groups_step(a, st, wanted);
    let j = a.len() - step.rest().len();
    match step {
        Step::Next(rest, next) => {
            lemma_groups_walk_shorter(rest, next, wanted);
            lemma_groups_step_frame(a, b, st, wanted, k);
            lemma_agree_skip(a, b, k, j);
            lemma_groups_walk_frame(a.skip(j), b.skip(j), next, wanted, k - j);
        },
        Step::Done(_, _) => {
            lemma_groups_step_frame(a, b, st, wanted, k);
        },
        Step::Fail(_, _) => {},
    }
}

/// A step of the walk over provider references looks only at the events
/// that it takes.
pub proof fn lemma_refs_step_frame(a: Seq<EventView>, b: Seq<EventView>, st: RefsState, k: int)
    requires
        a.len() > 0,
        !(refs_step(a, st) is Fail),
        a.len() - refs_step(a, st).rest().len() <= k,
        agree(a, b, k),
    ensures
        refs_step(a, st).rest() == a.skip(a.len() - refs_step(a, st).rest().len()),
        refs_step(b, st) == refs_step(a, st).over(b, a.len() - refs_step(a, st).rest().len()),
{
    reveal(groups_of);
    let j = a.len() - refs_step(a, st).rest().len();
    let ra = a.skip(1);
    let rb = b.skip(1);
    lemma_refs_step_shortens(a, st);
    lemma_agree_skip(a, b, k, 1);
    lemma_agree_less(ra, rb, k - 1, j - 1);
    lemma_agree_skip(a, b, j, 1);
    assert(a[0] == b[0]);
    if bypassed(ra) matches Ok(after) && after.len() + j - 1 == ra.len() {
        lemma_bypassed_frame(ra, rb, j - 1);
    }
    let start = groups_start(st.providers, st.notices);
    if groups_walk(ra, start, npis(st.providers)) matches Ok((_, after)) && after.len() + j - 1
        == ra.len() {
        lemma_groups_walk_frame(ra, rb, start, npis(st.providers), j - 1);
    }
}

/// The walk over provider references looks only at the events that it
/// takes.
pub proof fn lemma_refs_walk_frame(a: Seq<EventView>, b: Seq<EventView>, st: RefsState, k: int)
    requires
        refs_walk(a, st) matches Ok((_, rest)) && rest.len() + k == a.len(),
        agree(a, b, k),
    ensures
        refs_walk(a, st) matches Ok((r, rest)) && rest == a.skip(k) && refs_walk(b, st) == Ok::<
            (RefsResult, Seq<EventView>),
            (crate::error::Fatal, GroupsResult),
        >((r, b.skip(k))),
    decreases a.len(),
{
    lemma_refs_walk_shorter(a, st);
    lemma_refs_step_shortens(a, st);
    let step = refs_step(a, st);
    let j = a.len() - step.rest().len();
    match step {
        Step::Next(rest, next) => {
            lemma_refs_walk_shorter(rest, next);
            lemma_refs_step_frame(a, b, st, k);
            lemma_agree_skip(a, b, k, j);
            lemma_refs_walk_frame(a.skip(j), b.skip(j), next, k - j);
        },
        Step::Done(_, _) => {
            lemma_refs_step_frame(a, b, st, k);
        },
        Step::Fail(_, _) => {},
    }
}

/// A step of the walk over the `in_network` array looks only at the events
/// that it takes.
pub proof fn lemma_net_step_frame(
    a: Seq<EventView>,
    b: Seq<EventView>,
    st: NetState,
    codes: Set<Seq<char>>,
    tuples: Map<u64, Seq<Seq<char>>>,
    k: int,
)
    requires
        a.len() > 0,
        !(net_step(a, st, codes, tuples) is Fail),
        a.len() - net_step(a, st, codes, tuples).rest().len() <= k,
        agree(a, b, k),
    ensures
        net_step(a, st, codes, tuples).rest() == a.skip(
            a.len() - net_step(a, st, codes, tuples).rest().len(),
        ),
        net_step(b, st, codes, tuples) == net_step(a, st, codes, tuples).over(
            b,
            a.len() - net_step(a, st, codes, tuples).rest().len(),
        ),
{
    reveal(rates_of);
    let step = net_step(a, st, codes, tuples);
    let j = a.len() - step.rest().len();
    let ra = a.skip(1);
    let rb = b.skip(1);
    lemma_net_step_shortens(a, st, codes, tuples);
    lemma_agree_skip(a, b, k, 1);
    lemma_agree_less(ra, rb, k - 1, j - 1);
    lemma_agree_skip(a, b, j, 1);
    assert(a[0] == b[0]);
    match a[0] {
        EventView::ObjectKey(key) => {
            if crate::network::net_field_of(key) is Some {
            } else if key == "negotiated_rates"@ {
                let start = rates_start(st.notices);
                match rates_walk(ra, start, tuples.dom()) {
                    Ok(((rates, notices), after)) => {
                        lemma_rates_walk_shorter(ra, start, tuples.dom());
                        let taken = ra.len() - after.len();
                        if rates is None {
                            lemma_object_end_shorter(after, st.cb, st.sq);
                        }
                        assert(taken <= j - 1);
                        lemma_agree_less(ra, rb, j - 1, taken);
                        lemma_rates_walk_frame(ra, rb, start, tuples.dom(), taken);
                        lemma_agree_skip(ra, rb, j - 1, taken);
                        assert(after == ra.skip(taken));
                        assert(ra.skip(taken) =~= a.skip(1 + taken));
                        assert(rb.skip(taken) =~= b.skip(1 + taken));
                        if rates is None {
                            lemma_object_end_frame(
                                after,
                                rb.skip(taken),
                                st.cb,
                                st.sq,
                                j - 1 - taken,
                            );
                            assert(after.skip(j - 1 - taken) =~= a.skip(j));
                            assert(rb.skip(taken).skip(j - 1 - taken) =~= b.skip(j));
                        }
                    },
                    Err(_) => {},
                }
            } else {
                lemma_bypassed_frame(ra, rb, j - 1);
            }
        },
        EventView::String(s) => {
            if st.field is BillingCode && !crate::network::code_wanted(
                codes,
                crate::network::net_with_string(st.network, st.field, s).billing_code,
            ) {
                lemma_object_end_frame(ra, rb, st.cb, st.sq, j - 1);
            }
        },
        _ => {},
    }
}

/// The walk over the `in_network` array looks only at the events that it
/// takes.
pub proof fn lemma_net_walk_frame(
    a: Seq<EventView>,
    b: Seq<EventView>,
    st: NetState,
    codes: Set<Seq<char>>,
    tuples: Map<u64, Seq<Seq<char>>>,
    k: int,
)
    requires
        net_walk(a, st, codes, tuples) matches Ok((_, rest)) && rest.len() + k == a.len(),
        agree(a, b, k),
    ensures
        net_walk(a, st, codes, tuples) matches Ok((r, rest)) && rest == a.skip(k) && net_walk(
            b,
            st,
            codes,
            tuples,
        ) == Ok::<(NetResult, Seq<EventView>), (crate::error::Fatal, NetResult)>((r, b.skip(k))),
    decreases a.len(),
{
    lemma_net_walk_shorter(a, st, codes, tuples);
    lemma_net_step_shortens(a, st, codes, tuples);
    let step = net_step(a, st, codes, tuples);
    let j = a.len() - step.rest().len();
    match step {
        Step::Next(rest, next) => {
            lemma_net_walk_shorter(rest, next, codes, tuples);
            lemma_net_step_frame(a, b, st, codes, tuples, k);
            lemma_agree_skip(a, b, k, j);
            lemma_net_walk_frame(a.skip(j), b.skip(j), next, codes, tuples, k - j);
        },
        Step::Done(_, _) => {
            lemma_net_step_frame(a, b, st, codes, tuples, k);
        },
        Step::Fail(_, _) => {},
    }
}

/// Whether two states of the walk over prices differ in the notices at most.
pub open spec fn prices_same(s: PricesState, t: PricesState) -> bool {
    s.field == t.field && s.cb == t.cb && s.sq == t.sq && s.price == t.price && s.prices
        == t.prices
}

/// A step of the walk over prices does not look at the notices.
pub proof fn lemma_prices_step_same(ev: Seq<EventView>, s: PricesState, t: PricesState)
    requires
        ev.len() > 0,
        prices_same(s, t),
    ensures
        match prices_step(ev, s) {
            Step::Next(rest, next) => prices_step(ev, t) matches Step::Next(r, n) && r == rest
                && prices_same(next, n),
            Step::Done((prices, _), rest) => prices_step(ev, t) matches Step::Done((p, _), r)
                && p == prices && r == rest,
            Step::Fail(f, _) => prices_step(ev, t) matches Step::Fail(g, _) && g == f,
        },
{
}

/// The prices that the walk over prices returns, and the events that it
/// takes, do not depend on the notices.
pub proof fn lemma_prices_walk_same(ev: Seq<EventView>, s: PricesState, t: PricesState)
    requires
        prices_same(s, t),
    ensures
        match prices_walk(ev, s) {
            Ok(((prices, _), rest)) => prices_walk(ev, t) matches Ok(((p, _), r)) && p == prices
                && r == rest,
            Err((f, _)) => prices_walk(ev, t) matches Err((g, _)) && g == f,
        },
    decreases ev.len(),
{
    if ev.len() > 0 {
        lemma_prices_step_shortens(ev, s);
        lemma_prices_step_same(ev, s, t);
        match prices_step(ev, s) {
            Step::Next(rest, next) => {
                let n = prices_step(ev, t)->Next_1;
                lemma_prices_walk_same(rest, next, n);
            },
            _ => {},
        }
    }
}

/// Whether two states of the walk over rates differ in the notices at most.
pub open spec fn rates_same(s: RatesState, t: RatesState) -> bool {
    s.cb == t.cb && s.sq == t.sq && s.rate == t.rate && s.rates == t.rates
}

/// A step of the walk over rates does not look at the notices.
pub proof fn lemma_rates_step_same(
    ev: Seq<EventView>,
    s: RatesState,
    t: RatesState,
    groups: Set<u64>,
)
    requires
        ev.len() > 0,
        rates_same(s, t),
    ensures
        match rates_step(ev, s, groups) {
            Step::Next(rest, next) => rates_step(ev, t, groups) matches Step::Next(r, n) && r
                == rest && rates_same(next, n),
            Step::Done((rates, _), rest) => rates_step(ev, t, groups) matches Step::Done(
                (p, _),
                r,
            ) && p == rates && r == rest,
            Step::Fail(f, _) => rates_step(ev, t, groups) matches Step::Fail(g, _) && g == f,
        },
{
    reveal(prices_of);
    lemma_prices_walk_same(ev.skip(1), prices_start(s.notices), prices_start(t.notices));
}

/// The rates that the walk over rates returns, and the events that it takes,
/// do not depend on the notices.
pub proof fn lemma_rates_walk_same(
    ev: Seq<EventView>,
    s: RatesState,
    t: RatesState,
    groups: Set<u64>,
)
    requires
        rates_same(s, t),
    ensures
        match rates_walk(ev, s, groups) {
            Ok(((rates, _), rest)) => rates_walk(ev, t, groups) matches Ok(((p, _), r)) && p
                == rates && r == rest,
            Err((f, _)) => rates_walk(ev, t, groups) matches Err((g, _)) && g == f,
        },
    decreases ev.len(),
{
    if ev.len() > 0 {
        lemma_rates_step_shortens(ev, s, groups);
        lemma_rates_step_same(ev, s, t, groups);
        match rates_step(ev, s, groups) {
            Step::Next(rest, next) => {
                let n = rates_step(ev, t, groups)->Next_1;
                lemma_rates_walk_same(rest, next, n, groups);
            },
            _ => {},
        }
    }
}

/// Whether two states of the walk over the `in_network` array differ in the
/// notices at most.
pub open spec fn net_same(s: NetState, t: NetState) -> bool {
    s.field == t.field && s.cb == t.cb && s.sq == t.sq && s.header_written == t.header_written
        && s.network == t.network && s.query == t.query && s.out == t.out
}

/// A step of the walk over the `in_network` array does not look at the
/// notices.
pub proof fn lemma_net_step_same(
    ev: Seq<EventView>,
    s: NetState,
    t: NetState,
    codes: Set<Seq<char>>,
    tuples: Map<u64, Seq<Seq<char>>>,
)
    requires
        ev.len() > 0,
        net_same(s, t),
    ensures
        match net_step(ev, s, codes, tuples) {
            Step::Next(rest, next) => net_step(ev, t, codes, tuples) matches Step::Next(r, n)
                && r == rest && net_same(next, n),
            Step::Done((q, out, _), rest) => net_step(ev, t, codes, tuples) matches Step::Done(
                (p, o, _),
                r,
            ) && p == q && o == out && r == rest,
            Step::Fail(f, (q, out, _)) => net_step(ev, t, codes, tuples) matches Step::Fail(
                g,
                (p, o, _),
            ) && g == f && p == q && o == out,
        },
{
    reveal(rates_of);
    lemma_rates_walk_same(
        ev.skip(1),
        rates_start(s.notices),
        rates_start(t.notices),
        tuples.dom(),
    );
}

/// The query and the output that the walk over the `in_network` array
/// leaves, and the events that it takes, do not depend on the notices.
pub proof fn lemma_net_walk_same(
    ev: Seq<EventView>,
    s: NetState,
    t: NetState,
    codes: Set<Seq<char>>,
    tuples: Map<u64, Seq<Seq<char>>>,
)
    requires
        net_same(s, t),
    ensures
        match net_walk(ev, s, codes, tuples) {
            Ok(((q, out, _), rest)) => net_walk(ev, t, codes, tuples) matches Ok(((p, o, _), r))
                && p == q && o == out && r == rest,
            Err((f, (q, out, _))) => net_walk(ev, t, codes, tuples) matches Err((g, (p, o, _)))
                && g == f && p == q && o == out,
        },
    decreases ev.len(),
{
    if ev.len() > 0 {
        lemma_net_step_shortens(ev, s, codes, tuples);
        lemma_net_step_same(ev, s, t, codes, tuples);
        match net_step(ev, s, codes, tuples) {
            Step::Next(rest, next) => {
                let n = net_step(ev, t, codes, tuples)->Next_1;
                lemma_net_walk_same(rest, next, n, codes, tuples);
            },
            _ => {},
        }
    }
}

/// Whether two states of the walk over provider groups differ in the notices
/// at most.
pub open spec fn groups_same(s: GroupsState, t: GroupsState) -> bool {
    s.capture == t.capture && s.cb == t.cb && s.sq == t.sq && s.t_type == t.t_type && s.t_value
        == t.t_value && s.providers == t.providers
}

/// A step of the walk over provider groups does not look at the notices.
pub proof fn lemma_groups_step_same(
    ev: Seq<EventView>,
    s: GroupsState,
    t: GroupsState,
    wanted: Set<u64>,
)
    requires
        ev.len() > 0,
        groups_same(s, t),
    ensures
        match groups_step(ev, s, wanted) {
            Step::Next(rest, next) => groups_step(ev, t, wanted) matches Step::Next(r, n) && r
                == rest && groups_same(next, n),
            Step::Done((known, _), rest) => groups_step(ev, t, wanted) matches Step::Done(
                (p, _),
                r,
            ) && p == known && r == rest,
            Step::Fail(f, (known, _)) => groups_step(ev, t, wanted) matches Step::Fail(
                g,
                (p, _),
            ) && g == f && p == known,
        },
{
}

/// The providers that the walk over provider groups leaves, and the events
/// that it takes, do not depend on the notices.
pub proof fn lemma_groups_walk_same(
    ev: Seq<EventView>,
    s: GroupsState,
    t: GroupsState,
    wanted: Set<u64>,
)
    requires
        groups_same(s, t),
    ensures
        match groups_walk(ev, s, wanted) {
            Ok(((known, _), rest)) => groups_walk(ev, t, wanted) matches Ok(((p, _), r)) && p
                == known && r == rest,
            Err((f, (known, _))) => groups_walk(ev, t, wanted) matches Err((g, (p, _))) && g
                == f && p == known,
        },
    decreases ev.len(),
{
    if ev.len() > 0 {
        lemma_groups_step_shortens(ev, s, wanted);
        lemma_groups_step_same(ev, s, t, wanted);
        match groups_step(ev, s, wanted) {
            Step::Next(rest, next) => {
                let n = groups_step(ev, t, wanted)->Next_1;
                lemma_groups_walk_same(rest, next, n, wanted);
            },
            _ => {},
        }
    }
}

/// Whether two states of the walk over provider references differ in the
/// notices at most.
pub open spec fn refs_same(s: RefsState, t: RefsState) -> bool {
    s.cb == t.cb && s.sq == t.sq && s.pg_id == t.pg_id && s.non_fatal == t.non_fatal
        && s.providers == t.providers
}

/// A step of the walk over provider references does not look at the
/// notices.
pub proof fn lemma_refs_step_same(ev: Seq<EventView>, s: RefsState, t: RefsState)
    requires
        ev.len() > 0,
        refs_same(s, t),
    ensures
        match refs_step(ev, s) {
            Step::Next(rest, next) => refs_step(ev, t) matches Step::Next(r, n) && r == rest
                && refs_same(next, n),
            Step::Done((known, non_fatal, _), rest) => refs_step(ev, t) matches Step::Done(
                (p, e, _),
                r,
            ) && p == known && e == non_fatal && r == rest,
            Step::Fail(f, (known, _)) => refs_step(ev, t) matches Step::Fail(g, (p, _)) && g == f
                && p == known,
        },
{
    reveal(groups_of);
    lemma_groups_walk_same(
        ev.skip(1),
        groups_start(s.providers, s.notices),
        groups_start(t.providers, t.notices),
        npis(s.providers),
    );
}

/// The providers that the walk over provider references leaves, whether it
/// met an element without a group id, and the events that it takes, do not
/// depend on the notices.
pub proof fn lemma_refs_walk_same(ev: Seq<EventView>, s: RefsState, t: RefsState)
    requires
        refs_same(s, t),
    ensures
        match refs_walk(ev, s) {
            Ok(((known, non_fatal, _), rest)) => refs_walk(ev, t) matches Ok(((p, e, _), r)) && p
                == known && e == non_fatal && r == rest,
            Err((f, (known, _))) => refs_walk(ev, t) matches Err((g, (p, _))) && g == f && p
                == known,
        },
    decreases ev.len(),
{
    if ev.len() > 0 {
        lemma_refs_step_shortens(ev, s);
        lemma_refs_step_same(ev, s, t);
        match refs_step(ev, s) {
            Step::Next(rest, next) => {
                let n = refs_step(ev, t)->Next_1;
                lemma_refs_walk_same(rest, next, n);
            },
            _ => {},
        }
    }
}

} // verus!
