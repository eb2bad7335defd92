//! The walker of the `in_network` array.

use crate::emit::{
    concat,
    header_text,
    logged_rates,
    print_header,
    print_record,
    rate_rows,
    tuples_of,
};
use crate::error::Fatal;
use crate::event::{Event, EventSource, EventView};
use crate::notices::{Notices, NoticesView};
use crate::query::{
    is_ref_map,
    logged_code,
    tuples_for,
    upper_codes,
    ProviderView,
    Query,
    QueryView,
};
use crate::rates::{
    lemma_rates_walk_shorter,
    lemma_rates_walk_within,
    process_negotiated_rates,
    rates_of,
    rates_start,
    rates_within,
};
use crate::records::{Network, NetworkView};
use crate::skip::{
    bypass_key,
    bypassed,
    ff_to_next_obj,
    lemma_bypassed_shorter,
    lemma_object_end_shorter,
    object_end,
};
use crate::text::{ascii_upper, same_text, to_upper};
use crate::walk::Step;
use std::collections::HashMap;
use vstd::prelude::*;

verus! {

/// The field of a network that the next string goes to.
#[derive(Debug, Clone, Copy, PartialEq, Eq, Structural)]
pub enum NetField {
    NegotiationArrangement,
    Name,
    BillingCodeType,
    BillingCodeTypeVersion,
    BillingCode,
    Description,
    Undefined,
}

/// The field that a key of an `in_network` object announces, if it is the key
/// of a text field.
pub open spec fn net_field_of(key: Seq<char>) -> Option<NetField> {
    if key == "negotiation_arrangement"@ {
        Some(NetField::NegotiationArrangement)
    } else if key == "name"@ {
        Some(NetField::Name)
    } else if key == "billing_code_type"@ {
        Some(NetField::BillingCodeType)
    } else if key == "billing_code_type_version"@ {
        Some(NetField::BillingCodeTypeVersion)
    } else if key == "billing_code"@ {
        Some(NetField::BillingCode)
    } else if key == "description"@ {
        Some(NetField::Description)
    } else {
        None
    }
}

/// The network after a string for `field`: the string is added to what the
/// field holds, and the billing code is put in upper case.
pub open spec fn net_with_string(net: NetworkView, field: NetField, s: Seq<char>) -> NetworkView {
    match field {
        NetField::NegotiationArrangement => NetworkView {
            negotiation_arrangement: net.negotiation_arrangement + s,
            ..net
        },
        NetField::Name => NetworkView { name: net.name + s, ..net },
        NetField::BillingCodeType => NetworkView {
            billing_code_type: net.billing_code_type + s,
            ..net
        },
        NetField::BillingCodeTypeVersion => NetworkView {
            billing_code_type_version: net.billing_code_type_version + s,
            ..net
        },
        NetField::BillingCode => NetworkView {
            billing_code: ascii_upper(net.billing_code + s),
            ..net
        },
        NetField::Description => NetworkView { description: net.description + s, ..net },
        NetField::Undefined => net,
    }
}

/// Whether a billing code in upper case passes the filter of the code set:
/// the set holds the code, or the wildcard `*`.
pub open spec fn code_wanted(codes: Set<Seq<char>>, code: Seq<char>) -> bool {
    codes.contains(code) || codes.contains("*"@)
}

/// The provider tuples of each group that has a complete provider.
pub open spec fn ref_tuples(providers: Seq<ProviderView>) -> Map<u64, Seq<Seq<char>>> {
    Map::new(
        |g: u64| tuples_for(providers, g).len() > 0,
        |g: u64| tuples_for(providers, g),
    )
}

/// A reference map holds the provider tuples of the providers it was made
/// from.
pub proof fn lemma_ref_map_tuples(m: Map<u64, Vec<String>>, providers: Seq<ProviderView>)
    requires
        is_ref_map(m, providers),
    ensures
        tuples_of(m) == ref_tuples(providers),
        tuples_of(m).dom() == m.dom(),
{
    assert forall|g: u64| tuples_of(m).contains_key(g) == ref_tuples(providers).contains_key(
        g,
    ) by {
        let _ = tuples_for(providers, g);
    }
    assert forall|g: u64| tuples_of(m).contains_key(g) implies tuples_of(m)[g] == ref_tuples(
        providers,
    )[g] by {
        let _ = tuples_for(providers, g);
    }
    assert(tuples_of(m) =~= ref_tuples(providers));
    assert(tuples_of(m).dom() =~= m.dom());
}

/// Whether the element that a network stands for is written out when its
/// object ends: it has a billing code and rates.
pub open spec fn is_emitted(net: NetworkView) -> bool {
    net.billing_code.len() != 0 && net.rates is Some
}

/// The rows of a network that is written out, with `null` for what it lacks.
pub open spec fn element_rows(net: NetworkView, tuples: Map<u64, Seq<Seq<char>>>) -> Seq<
    Seq<char>,
>
    recommends
        net.rates is Some,
{
    rate_rows(net.rates->0, tuples, net.with_defaults())
}

/// The state of a walk over the `in_network` array.
pub struct NetState {
    pub field: NetField,
    pub cb: nat,
    pub sq: nat,
    pub header_written: bool,
    pub network: NetworkView,
    pub query: QueryView,
    pub out: Seq<char>,
    pub notices: NoticesView,
}

/// The state at the start of a walk over the `in_network` array.
pub open spec fn net_start(query: QueryView, out: Seq<char>, notices: NoticesView) -> NetState {
    NetState {
        field: NetField::Undefined,
        cb: 0,
        sq: 0,
        header_written: false,
        network: NetworkView::empty(),
        query,
        out,
        notices,
    }
}

/// The output after an element was written out: its rows, and before them
/// the header if they are the first rows to be written. An element without
/// a row leaves the output as it is.
pub open spec fn emitted_out(
    out: Seq<char>,
    header_written: bool,
    net: NetworkView,
    tuples: Map<u64, Seq<Seq<char>>>,
) -> Seq<char>
    recommends
        net.rates is Some,
{
    out + (if header_written || element_rows(net, tuples).len() == 0 {
        Seq::empty()
    } else {
        header_text()
    }) + concat(element_rows(net, tuples))
}

/// The query after an element was written out: its references and its
/// billing code, with its code type or `null` for none, are recorded.
pub open spec fn emitted_query(query: QueryView, net: NetworkView) -> QueryView
    recommends
        net.rates is Some,
{
    QueryView {
        providers: logged_rates(query.providers, net.rates->0),
        codes: logged_code(
            query.codes,
            net.billing_code,
            net.with_defaults().billing_code_type,
        ),
    }
}

/// The state after the element of `st.network` was written out.
pub open spec fn emitted(st: NetState, tuples: Map<u64, Seq<Seq<char>>>) -> NetState
    recommends
        st.network.rates is Some,
{
    NetState {
        header_written: st.header_written || element_rows(st.network, tuples).len() > 0,
        out: emitted_out(st.out, st.header_written, st.network, tuples),
        query: emitted_query(st.query, st.network),
        ..st
    }
}

/// What a walk over the `in_network` array returns: the query, the output and
/// the notices.
pub type NetResult = (QueryView, Seq<char>, NoticesView);

/// One step of the walk over the `in_network` array, on the first of the
/// events `ev`, with the code set `codes` and the provider tuples `tuples`
/// of the query.
pub open spec fn net_step(
    ev: Seq<EventView>,
    st: NetState,
    codes: Set<Seq<char>>,
    tuples: Map<u64, Seq<Seq<char>>>,
) -> Step<NetState, NetResult, NetResult>
    recommends
        ev.len() > 0,
{
    let rest = ev.skip(1);
    match ev[0] {
        EventView::StartObject => Step::Next(rest, NetState { cb: st.cb + 1, ..st }),
        EventView::EndObject => if st.cb == 0 {
            Step::Fail(Fatal::MalformedInput, (st.query, st.out, st.notices))
        } else {
            let after = if st.cb == 1 && is_emitted(st.network) {
                emitted(st, tuples)
            } else {
                st
            };
            Step::Next(
                rest,
                NetState { cb: (st.cb - 1) as nat, network: NetworkView::empty(), ..after },
            )
        },
        EventView::StartArray => Step::Next(rest, NetState { sq: st.sq + 1, ..st }),
        EventView::EndArray => if st.sq == 0 {
            Step::Fail(Fatal::MalformedInput, (st.query, st.out, st.notices))
        } else if st.sq == 1 {
            Step::Done((st.query, st.out, st.notices), rest)
        } else {
            Step::Next(rest, NetState { sq: (st.sq - 1) as nat, ..st })
        },
        EventView::ObjectKey(key) => match net_field_of(key) {
            Some(field) => Step::Next(rest, NetState { field, ..st }),
            None => if key == "negotiated_rates"@ {
                match rates_of(rest, tuples.dom(), st.notices) {
                    Ok(((Some(rates), notices), after)) => Step::Next(
                        after,
                        NetState {
                            field: NetField::Undefined,
                            network: NetworkView { rates: Some(rates), ..st.network },
                            notices,
                            ..st
                        },
                    ),
                    // No rate of the element is asked for: the rest of it is passed over.
                    Ok(((None, notices), after)) => match object_end(after, st.cb, st.sq) {
                        Ok((sq, end)) => Step::Next(
                            end,
                            NetState {
                                field: NetField::Undefined,
                                cb: 0,
                                sq,
                                network: NetworkView::empty(),
                                notices,
                                ..st
                            },
                        ),
                        Err(f) => Step::Fail(f, (st.query, st.out, notices)),
                    },
                    Err((f, notices)) => Step::Fail(f, (st.query, st.out, notices)),
                }
            } else {
                match bypassed(rest) {
                    Ok(after) => Step::Next(
                        after,
                        NetState { notices: st.notices.unsupported(key, "Network"@), ..st },
                    ),
                    Err(f) => Step::Fail(
                        f,
                        (st.query, st.out, st.notices.unsupported(key, "Network"@)),
                    ),
                }
            },
        },
        EventView::String(s) => match st.field {
            NetField::Undefined => Step::Fail(Fatal::UndefinedState, (st.query, st.out, st.notices)),
            NetField::BillingCode => {
                let net = net_with_string(st.network, st.field, s);
                if code_wanted(codes, net.billing_code) {
                    Step::Next(rest, NetState { field: NetField::Undefined, network: net, ..st })
                } else {
                    // The code is not asked for: the rest of the element is passed over.
                    match object_end(rest, st.cb, st.sq) {
                        Ok((sq, end)) => Step::Next(
                            end,
                            NetState {
                                field: NetField::Undefined,
                                cb: 0,
                                sq,
                                network: NetworkView::empty(),
                                ..st
                            },
                        ),
                        Err(f) => Step::Fail(f, (st.query, st.out, st.notices)),
                    }
                }
            },
            _ => Step::Next(
                rest,
                NetState {
                    field: NetField::Undefined,
                    network: net_with_string(st.network, st.field, s),
                    ..st
                },
            ),
        },
        EventView::Eof => Step::Fail(Fatal::MalformedInput, (st.query, st.out, st.notices)),
        _ => Step::Next(rest, st),
    }
}

/// Every step of the walk over the `in_network` array uses up at least one
/// event.
pub proof fn lemma_net_step_shortens(
    ev: Seq<EventView>,
    st: NetState,
    codes: Set<Seq<char>>,
    tuples: Map<u64, Seq<Seq<char>>>,
)
    requires
        ev.len() > 0,
    ensures
        net_step(ev, st, codes, tuples).shortens(ev.len()),
{
    let rest = ev.skip(1);
    reveal(rates_of);
    lemma_bypassed_shorter(rest);
    lemma_object_end_shorter(rest, st.cb, st.sq);
    lemma_rates_walk_shorter(rest, rates_start(st.notices), tuples.dom());
    match rates_of(rest, tuples.dom(), st.notices) {
        Ok((_, after)) => lemma_object_end_shorter(after, st.cb, st.sq),
        _ => {},
    }
}

/// The walk over the `in_network` array from state `st`: step by step to the
/// end of the array. The input ending before that is malformed.
pub open spec fn net_walk(
    ev: Seq<EventView>,
    st: NetState,
    codes: Set<Seq<char>>,
    tuples: Map<u64, Seq<Seq<char>>>,
) -> Result<(NetResult, Seq<EventView>), (Fatal, NetResult)>
    decreases ev.len(),
{
    if ev.len() == 0 {
        Err((Fatal::MalformedInput, (st.query, st.out, st.notices)))
    } else {
        match net_step(ev, st, codes, tuples) {
            Step::Next(rest, next) => {
                proof {
                    lemma_net_step_shortens(ev, st, codes, tuples);
                }
                net_walk(rest, next, codes, tuples)
            },
            Step::Done(r, rest) => Ok((r, rest)),
            Step::Fail(f, e) => Err((f, e)),
        }
    }
}

/// The query, the output and the notices after the `in_network` array that
/// `ev` starts with, and the events behind it. The code set and the provider
/// tuples are those of the query at the start.
#[verifier::opaque]
pub open spec fn network_of(
    ev: Seq<EventView>,
    query: QueryView,
    out: Seq<char>,
    notices: NoticesView,
) -> Result<(NetResult, Seq<EventView>), (Fatal, NetResult)> {
    net_walk(
        ev,
        net_start(query, out, notices),
        upper_codes(query.codes),
        ref_tuples(query.providers),
    )
}

/// A walk over the `in_network` array that ends well leaves fewer events
/// than it found.
pub proof fn lemma_net_walk_shorter(
    ev: Seq<EventView>,
    st: NetState,
    codes: Set<Seq<char>>,
    tuples: Map<u64, Seq<Seq<char>>>,
)
    ensures
        net_walk(ev, st, codes, tuples) matches Ok((_, rest)) ==> rest.len() < ev.len(),
    decreases ev.len(),
{
    if ev.len() > 0 {
        lemma_net_step_shortens(ev, st, codes, tuples);
        match net_step(ev, st, codes, tuples) {
            Step::Next(rest, next) => lemma_net_walk_shorter(rest, next, codes, tuples),
            _ => {},
        }
    }
}

/// The field that a key of an `in_network` object announces.
fn net_field(key: &str) -> (r: Option<NetField>)
    ensures
        r == net_field_of(key@),
{
    if same_text(key, "negotiation_arrangement") {
        Some(NetField::NegotiationArrangement)
    } else if same_text(key, "name") {
        Some(NetField::Name)
    } else if same_text(key, "billing_code_type") {
        Some(NetField::BillingCodeType)
    } else if same_text(key, "billing_code_type_version") {
        Some(NetField::BillingCodeTypeVersion)
    } else if same_text(key, "billing_code") {
        Some(NetField::BillingCode)
    } else if same_text(key, "description") {
        Some(NetField::Description)
    } else {
        None
    }
}

/// Adds a string to the field of `network` that `field` names.
fn push_net_string(network: &mut Network, field: NetField, s: &str)
    ensures
        final(network)@ == net_with_string(old(network)@, field, s@),
{
    match field {
        NetField::NegotiationArrangement => network.negotiation_arrangement.append(s),
        NetField::Name => network.name.append(s),
        NetField::BillingCodeType => network.billing_code_type.append(s),
        NetField::BillingCodeTypeVersion => network.billing_code_type_version.append(s),
        NetField::BillingCode => {
            network.billing_code.append(s);
            network.billing_code = to_upper(network.billing_code.as_str());
        },
        NetField::Description => network.description.append(s),
        NetField::Undefined => {},
    }
}

/// Rows that each hold a character have no text only where there is no row.
pub proof fn lemma_rows_have_text(rows: Seq<Seq<char>>)
    requires
        forall|i: int| 0 <= i < rows.len() ==> (#[trigger] rows[i]).len() > 0,
    ensures
        (concat(rows).len() == 0) == (rows.len() == 0),
{
    if rows.len() > 0 {
        assert(rows.last() == rows[rows.len() - 1]);
    }
}

/// Every row ends with a line end, so the rows of an element have no text
/// only where the element has no row.
pub proof fn lemma_element_rows_have_text(net: NetworkView, tuples: Map<u64, Seq<Seq<char>>>)
    requires
        net.rates is Some,
    ensures
        (concat(element_rows(net, tuples)).len() == 0) == (element_rows(net, tuples).len() == 0),
{
    let rows = element_rows(net, tuples);
    assert forall|k: int| 0 <= k < rows.len() implies (#[trigger] rows[k]).len() > 0 by {
        let src = crate::laws::lemma_rate_row_source(net.rates->0, tuples, net.with_defaults(), k);
        reveal_strlit("\n");
    }
    lemma_rows_have_text(rows);
}

/// Writes out the element that `network` holds: its rows, and before them
/// the header if they are the first rows to be written. Records what matched
/// in the query. Returns whether a row has been written by now.
fn emit_element(
    network: &mut Network,
    query: &mut Query,
    ref_map: &HashMap<u64, Vec<String>>,
    out: &mut String,
    header_written: bool,
) -> (written: bool)
    requires
        old(network)@.rates is Some,
        rates_within(old(network)@.rates->0, ref_map@.dom()),
    ensures
        written == (header_written || element_rows(old(network)@, tuples_of(ref_map@)).len() > 0),
        final(out)@ == emitted_out(old(out)@, header_written, old(network)@, tuples_of(ref_map@)),
        final(query)@ == emitted_query(old(query)@, old(network)@),
{
    network.push_defaults();
    proof {
        let rates = network@.rates->0;
        assert forall|i: int, j: int|
            0 <= i < rates.len() && 0 <= j < rates[i].refs.len() implies ref_map@.contains_key(
            #[trigger] rates[i].refs[j],
        ) by {
            assert(ref_map@.dom().contains(rates[i].refs[j]));
        }
        lemma_element_rows_have_text(old(network)@, tuples_of(ref_map@));
    }
    let mut rows = String::new();
    print_record(network, query, ref_map, &mut rows);
    assert(rows@ =~= concat(element_rows(old(network)@, tuples_of(ref_map@))));
    if rows.as_str().is_empty() {
        assert(out@ =~= emitted_out(
            old(out)@,
            header_written,
            old(network)@,
            tuples_of(ref_map@),
        ));
        header_written
    } else {
        if !header_written {
            print_header(out);
        }
        out.append(rows.as_str());
        assert(out@ =~= emitted_out(
            old(out)@,
            header_written,
            old(network)@,
            tuples_of(ref_map@),
        ));
        true
    }
}

/// Whether every reference of the rates, if there are rates, is a group of
/// `groups`.
pub open spec fn net_within(net: NetworkView, groups: Set<u64>) -> bool {
    net.rates is Some ==> rates_within(net.rates->0, groups)
}

/// Handles the data in the `in_network` array: writes to `out` the rows of
/// each element whose billing code is in the code set of the query and of
/// whose provider references one is a group of the query, and records in the
/// query what had a match.
#[verifier::loop_isolation(false)]
#[verifier::rlimit(30)]
pub fn process_in_network(
    source: &mut EventSource<'_>,
    query: &mut Query,
    out: &mut String,
    notices: &mut Notices,
) -> (r: Result<(), Fatal>)
    requires
        old(source).wf(),
    ensures
        final(source).wf(),
        match network_of(old(source).pending(), old(query)@, old(out)@, old(notices)@) {
            Ok(((q, text, n), rest)) => {
                &&& r is Ok
                &&& final(query)@ == q
                &&& final(out)@ == text
                &&& final(notices)@ == n
                &&& final(source).pending() == rest
                &&& rest.len() < old(source).pending().len()
            },
            Err((f, (q, text, n))) => {
                &&& r == Err::<(), Fatal>(f)
                &&& final(query)@ == q
                &&& final(out)@ == text
                &&& final(notices)@ == n
            },
        },
{
    let ghost start = source.pending();
    let ghost first = net_start(query@, out@, notices@);
    let ghost codes = upper_codes(query@.codes);
    let ghost tuples = ref_tuples(query@.providers);
    proof {
        reveal(network_of);
        lemma_net_walk_shorter(start, first, codes, tuples);
    }
    let mut header_written: bool = false;
    let mut network = Network::new();
    let mut state = NetField::Undefined;
    let codeset = query.make_code_set();
    let ref_map = query.make_ref_map();
    proof {
        lemma_ref_map_tuples(ref_map@, query@.providers);
    }
    let mut sq: u64 = 0;
    let mut cb: u64 = 0;
    loop
        invariant
            source.wf(),
            cb + source.pending().len() <= start.len(),
            sq + source.pending().len() <= start.len(),
            codeset@ == codes,
            tuples_of(ref_map@) == tuples,
            tuples.dom() == ref_map@.dom(),
            net_within(network@, tuples.dom()),
            net_walk(start, first, codes, tuples) == net_walk(
                source.pending(),
                NetState {
                    field: state,
                    cb: cb as nat,
                    sq: sq as nat,
                    header_written,
                    network: network@,
                    query: query@,
                    out: out@,
                    notices: notices@,
                },
                codes,
                tuples,
            ),
        decreases source.pending().len(),
    {
        let ghost ev = source.pending();
        let ghost rest = ev.skip(1);
        proof {
            reveal(rates_of);
            lemma_bypassed_shorter(rest);
            lemma_object_end_shorter(rest, cb as nat, sq as nat);
            lemma_rates_walk_shorter(rest, rates_start(notices@), tuples.dom());
            lemma_rates_walk_within(rest, rates_start(notices@), tuples.dom());
        }
        let e = match source.next_event() {
            Some(e) => e,
            None => {
                return Err(Fatal::MalformedInput);
            },
        };
        match e {
            Event::StartObject => {
                cb = cb + 1;
            },
            Event::EndObject => {
                if cb == 0 {
                    return Err(Fatal::MalformedInput);
                }
                cb = cb - 1;
                if cb == 0 && !network.billing_code.as_str().is_empty()
                    && network.negotiated_rates.is_some() {
                    header_written =
                    emit_element(&mut network, query, &ref_map, out, header_written);
                }
                network.clear_entries();
            },
            Event::StartArray => {
                sq = sq + 1;
            },
            Event::EndArray => {
                if sq == 0 {
                    return Err(Fatal::MalformedInput);
                }
                sq = sq - 1;
                if sq == 0 {
                    return Ok(());
                }
            },
            Event::ObjectKey(key) => {
                match net_field(key.as_str()) {
                    Some(field) => {
                        state = field;
                    },
                    None => {
                        if same_text(key.as_str(), "negotiated_rates") {
                            state = NetField::Undefined;
                            match process_negotiated_rates(source, &ref_map, notices) {
                                Ok(Some(rates)) => {
                                    network.negotiated_rates = Some(rates);
                                },
                                Ok(None) => {
                                    network.clear_entries();
                                    proof {
                                        lemma_object_end_shorter(
                                            source.pending(),
                                            cb as nat,
                                            sq as nat,
                                        );
                                    }
                                    match ff_to_next_obj(source, &mut cb, &mut sq) {
                                        Ok(()) => {},
                                        Err(f) => {
                                            return Err(f);
                                        },
                                    }
                                },
                                Err(f) => {
                                    return Err(f);
                                },
                            }
                        } else {
                            notices.unsupported(key.as_str(), "Network");
                            match bypass_key(source) {
                                Ok(()) => {},
                                Err(f) => {
                                    return Err(f);
                                },
                            }
                        }
                    },
                }
            },
            Event::String(s) => {
                if state == NetField::Undefined {
                    return Err(Fatal::UndefinedState);
                }
                push_net_string(&mut network, state, s.as_str());
                if state == NetField::BillingCode {
                    if !codeset.contains(network.billing_code.as_str()) && !codeset.contains("*") {
                        network.clear_entries();
                        match ff_to_next_obj(source, &mut cb, &mut sq) {
                            Ok(()) => {},
                            Err(f) => {
                                return Err(f);
                            },
                        }
                    }
                }
                state = NetField::Undefined;
            },
            Event::Eof => {
                return Err(Fatal::MalformedInput);
            },
            _ => {},
        }
    }
}

} // verus!
