//! The walkers of the `provider_references` array and of the
//! `provider_groups` arrays in it.

use crate::error::{Failure, Fatal, NonFatalError};
use crate::event::{Event, EventSource, EventView};
use crate::notices::{Notices, NoticesView};
use crate::query::{fresh_provider, npis, provider_views, Provider, ProviderView, Query};
use crate::skip::{bypass_key, bypassed, lemma_bypassed_shorter};
use crate::text::{parse_u64, parsed_u64, same_text};
use crate::walk::Step;
use std::collections::HashSet;
use vstd::prelude::*;

verus! {

broadcast use vstd::std_specs::hash::group_hash_axioms;

/// What the next scalar of a provider group is taken for.
#[derive(Debug, Clone, Copy, PartialEq, Eq, Structural)]
pub enum Capture {
    Ttype,
    Value,
    Npi,
    Undefined,
}

/// The index of the last provider with `npi`, or -1 if there is none.
pub open spec fn last_of_npi(providers: Seq<ProviderView>, npi: u64) -> int
    decreases providers.len(),
{
    if providers.len() == 0 {
        -1
    } else if providers.last().npi == npi {
        providers.len() - 1
    } else {
        last_of_npi(providers.drop_last(), npi)
    }
}

/// A provider that waits for the group and the tin of the group object that
/// is being read.
pub open spec fn waiting(p: ProviderView) -> ProviderView {
    ProviderView { needs_gid: true, needs_tin: true, ..p }
}

/// The providers after `npi` was met in a provider group. The last record of
/// the npi takes the group if it has neither group nor tin value yet;
/// otherwise a fresh record of the npi is added for it.
pub open spec fn slotted(providers: Seq<ProviderView>, npi: u64) -> Seq<ProviderView> {
    let i = last_of_npi(providers, npi);
    if i < 0 {
        providers
    } else if providers[i].group_id is None && providers[i].tin_value is None {
        providers.update(i, waiting(providers[i]))
    } else {
        providers.push(waiting(fresh_provider(npi)))
    }
}

/// The providers after the end of a group object: those that wait for a tin
/// have the tin of the group.
pub open spec fn with_tin(providers: Seq<ProviderView>, t_type: Seq<char>, t_value: Seq<char>) -> Seq<
    ProviderView,
> {
    Seq::new(
        providers.len(),
        |i: int|
            if providers[i].needs_tin {
                ProviderView {
                    tin_type: Some(t_type),
                    tin_value: Some(t_value),
                    needs_tin: false,
                    ..providers[i]
                }
            } else {
                providers[i]
            },
    )
}

/// The providers after the end of an element of `provider_references`: those
/// that wait for a group have the group of the element.
pub open spec fn with_gid(providers: Seq<ProviderView>, gid: Option<u64>) -> Seq<ProviderView> {
    Seq::new(
        providers.len(),
        |i: int|
            if providers[i].needs_gid {
                ProviderView { group_id: gid, needs_gid: false, ..providers[i] }
            } else {
                providers[i]
            },
    )
}

/// A tin field as it is kept: the word `null` in place of a missing one.
pub open spec fn tin_or_null(t: Option<Seq<char>>) -> Seq<char> {
    match t {
        Some(s) => s,
        None => "null"@,
    }
}

/// The state of a walk over provider groups.
pub struct GroupsState {
    pub capture: Capture,
    pub cb: nat,
    pub sq: nat,
    pub t_type: Option<Seq<char>>,
    pub t_value: Option<Seq<char>>,
    pub providers: Seq<ProviderView>,
    pub notices: NoticesView,
}

/// The state at the start of a walk over provider groups.
pub open spec fn groups_start(providers: Seq<ProviderView>, notices: NoticesView) -> GroupsState {
    GroupsState {
        capture: Capture::Undefined,
        cb: 0,
        sq: 0,
        t_type: None,
        t_value: None,
        providers,
        notices,
    }
}

/// What a walk over provider groups returns: the providers and the notices.
pub type GroupsResult = (Seq<ProviderView>, NoticesView);

/// One step of the walk over provider groups, on the first of the events
/// `ev`. Only the npis in `wanted` are looked at.
pub open spec fn groups_step(ev: Seq<EventView>, st: GroupsState, wanted: Set<u64>) -> Step<
    GroupsState,
    GroupsResult,
    GroupsResult,
>
    recommends
        ev.len() > 0,
{
    let rest = ev.skip(1);
    match ev[0] {
        EventView::StartObject => Step::Next(rest, GroupsState { cb: st.cb + 1, ..st }),
        EventView::EndObject => if st.cb == 0 {
            Step::Fail(Fatal::MalformedInput, (st.providers, st.notices))
        } else if st.cb == 1 {
            Step::Next(
                rest,
                GroupsState {
                    cb: 0,
                    t_type: None,
                    t_value: None,
                    providers: with_tin(
                        st.providers,
                        tin_or_null(st.t_type),
                        tin_or_null(st.t_value),
                    ),
                    ..st
                },
            )
        } else {
            Step::Next(rest, GroupsState { cb: (st.cb - 1) as nat, ..st })
        },
        EventView::StartArray => Step::Next(rest, GroupsState { sq: st.sq + 1, ..st }),
        EventView::EndArray => if st.sq == 0 {
            Step::Fail(Fatal::MalformedInput, (st.providers, st.notices))
        } else if st.sq == 1 {
            Step::Done((st.providers, st.notices), rest)
        } else {
            Step::Next(rest, GroupsState { sq: (st.sq - 1) as nat, ..st })
        },
        EventView::ObjectKey(key) => if key == "npi"@ {
            Step::Next(rest, GroupsState { capture: Capture::Npi, ..st })
        } else if key == "type"@ {
            Step::Next(rest, GroupsState { capture: Capture::Ttype, ..st })
        } else if key == "value"@ {
            Step::Next(rest, GroupsState { capture: Capture::Value, ..st })
        } else if key == "tin"@ {
            Step::Next(rest, st)
        } else {
            match bypassed(rest) {
                Ok(after) => Step::Next(
                    after,
                    GroupsState { notices: st.notices.unsupported(key, "provider_groups"@), ..st },
                ),
                Err(f) => Step::Fail(
                    f,
                    (st.providers, st.notices.unsupported(key, "provider_groups"@)),
                ),
            }
        },
        EventView::String(s) => match st.capture {
            Capture::Ttype => Step::Next(
                rest,
                GroupsState { t_type: Some(s), capture: Capture::Undefined, ..st },
            ),
            Capture::Value => Step::Next(
                rest,
                GroupsState { t_value: Some(s), capture: Capture::Undefined, ..st },
            ),
            _ => Step::Fail(Fatal::UndefinedState, (st.providers, st.notices)),
        },
        EventView::Number(n) => match parsed_u64(n) {
            None => Step::Fail(Fatal::BadNumber, (st.providers, st.notices)),
            Some(npi) => if !(st.capture is Npi) {
                Step::Fail(Fatal::UndefinedState, (st.providers, st.notices))
            } else if wanted.contains(npi) {
                Step::Next(rest, GroupsState { providers: slotted(st.providers, npi), ..st })
            } else {
                Step::Next(rest, st)
            },
        },
        EventView::Eof => Step::Fail(Fatal::MalformedInput, (st.providers, st.notices)),
        _ => Step::Next(rest, st),
    }
}

/// Every step of the walk over provider groups uses up at least one event.
pub proof fn lemma_groups_step_shortens(ev: Seq<EventView>, st: GroupsState, wanted: Set<u64>)
    requires
        ev.len() > 0,
    ensures
        groups_step(ev, st, wanted).shortens(ev.len()),
{
    lemma_bypassed_shorter(ev.skip(1));
}

/// The walk over provider groups from state `st`: step by step to the end of
/// the array. The input ending before that is malformed.
pub open spec fn groups_walk(ev: Seq<EventView>, st: GroupsState, wanted: Set<u64>) -> Result<
    (GroupsResult, Seq<EventView>),
    (Fatal, GroupsResult),
>
    decreases ev.len(),
{
    if ev.len() == 0 {
        Err((Fatal::MalformedInput, (st.providers, st.notices)))
    } else {
        match groups_step(ev, st, wanted) {
            Step::Next(rest, next) => {
                proof {
                    lemma_groups_step_shortens(ev, st, wanted);
                }
                groups_walk(rest, next, wanted)
            },
            Step::Done(r, rest) => Ok((r, rest)),
            Step::Fail(f, e) => Err((f, e)),
        }
    }
}

/// The providers after the `provider_groups` array that `ev` starts with, the
/// notices after it, and the events behind it. The npis that are looked at
/// are those of the providers at the start.
#[verifier::opaque]
pub open spec fn groups_of(
    ev: Seq<EventView>,
    providers: Seq<ProviderView>,
    notices: NoticesView,
) -> Result<(GroupsResult, Seq<EventView>), (Fatal, GroupsResult)> {
    groups_walk(ev, groups_start(providers, notices), npis(providers))
}

/// A walk over provider groups that ends well leaves fewer events than it
/// found.
pub proof fn lemma_groups_walk_shorter(ev: Seq<EventView>, st: GroupsState, wanted: Set<u64>)
    ensures
        groups_walk(ev, st, wanted) matches Ok((_, rest)) ==> rest.len() < ev.len(),
    decreases ev.len(),
{
    if ev.len() > 0 {
        lemma_groups_step_shortens(ev, st, wanted);
        match groups_step(ev, st, wanted) {
            Step::Next(rest, next) => lemma_groups_walk_shorter(rest, next, wanted),
            _ => {},
        }
    }
}

/// Gives `npi` its slot for the group object that is being read.
fn slot_provider(providers: &mut Vec<Provider>, npi: u64)
    ensures
        provider_views(final(providers)@) == slotted(provider_views(old(providers)@), npi),
{
    let ghost ps = provider_views(providers@);
    let mut i: usize = providers.len();
    assert(ps.take(i as int) =~= ps);
    while i > 0
        invariant
            i <= providers.len(),
            *providers == *old(providers),
            ps == provider_views(providers@),
            last_of_npi(ps, npi) == last_of_npi(ps.take(i as int), npi),
        decreases i,
    {
        i = i - 1;
        proof {
            assert(ps.take(i + 1).drop_last() =~= ps.take(i as int));
            assert(ps.take(i + 1).last() == ps[i as int]);
        }
        if providers[i].npi == npi {
            assert(last_of_npi(ps, npi) == i);
            if providers[i].group_id.is_none() && providers[i].tin_value.is_none() {
                providers[i].needs_gid = true;
                providers[i].needs_tin = true;
                assert(provider_views(providers@) =~= ps.update(i as int, waiting(ps[i as int])));
            } else {
                let mut p = Provider::new(npi);
                p.needs_gid = true;
                p.needs_tin = true;
                providers.push(p);
                assert(provider_views(providers@) =~= ps.push(waiting(fresh_provider(npi))));
            }
            return;
        }
    }
    assert(last_of_npi(ps, npi) == -1);
}

/// Gives the tin of a group object to the providers that wait for one.
fn fill_tins(providers: &mut Vec<Provider>, t_type: &String, t_value: &String)
    ensures
        provider_views(final(providers)@) == with_tin(
            provider_views(old(providers)@),
            t_type@,
            t_value@,
        ),
{
    let ghost ps = provider_views(providers@);
    let mut i: usize = 0;
    while i < providers.len()
        invariant
            i <= providers.len(),
            providers.len() == ps.len(),
            ps == provider_views(old(providers)@),
            forall|j: int|
                0 <= j < i ==> (#[trigger] providers[j])@ == with_tin(ps, t_type@, t_value@)[j],
            forall|j: int| i <= j < providers.len() ==> (#[trigger] providers[j])@ == ps[j],
        decreases providers.len() - i,
    {
        if providers[i].needs_tin {
            providers[i].tin_value = Some(t_value.clone());
            providers[i].tin_type = Some(t_type.clone());
            providers[i].needs_tin = false;
        }
        i = i + 1;
    }
    assert(provider_views(providers@) =~= with_tin(ps, t_type@, t_value@));
}

/// Gives the group of an element to the providers that wait for one.
fn fill_gids(providers: &mut Vec<Provider>, gid: Option<u64>)
    ensures
        provider_views(final(providers)@) == with_gid(provider_views(old(providers)@), gid),
{
    let ghost ps = provider_views(providers@);
    let mut i: usize = 0;
    while i < providers.len()
        invariant
            i <= providers.len(),
            providers.len() == ps.len(),
            ps == provider_views(old(providers)@),
            forall|j: int| 0 <= j < i ==> (#[trigger] providers[j])@ == with_gid(ps, gid)[j],
            forall|j: int| i <= j < providers.len() ==> (#[trigger] providers[j])@ == ps[j],
        decreases providers.len() - i,
    {
        if providers[i].needs_gid {
            providers[i].group_id = gid;
            providers[i].needs_gid = false;
        }
        i = i + 1;
    }
    assert(provider_views(providers@) =~= with_gid(ps, gid));
}

/// A tin field as it is kept.
fn tin_text(t: Option<String>) -> (r: String)
    ensures
        r@ == tin_or_null(crate::query::text_of(t)),
{
    match t {
        Some(s) => s,
        None => String::from_str("null"),
    }
}

/// Works on a `provider_groups` array: marks the providers whose npi it
/// names, adding a record where an npi comes under a further group or tin,
/// and gives them the tin of their group object.
#[verifier::loop_isolation(false)]
pub fn process_provider_groups(
    source: &mut EventSource<'_>,
    query: &mut Query,
    notices: &mut Notices,
) -> (r: Result<(), Fatal>)
    requires
        old(source).wf(),
    ensures
        final(source).wf(),
        match groups_of(old(source).pending(), old(query)@.providers, old(notices)@) {
            Ok(((providers, n), rest)) => {
                &&& r is Ok
                &&& final(query)@.providers == providers
                &&& final(query).codes == old(query).codes
                &&& final(notices)@ == n
                &&& final(source).pending() == rest
                &&& rest.len() < old(source).pending().len()
            },
            Err((f, (providers, n))) => {
                &&& r == Err::<(), Fatal>(f)
                &&& final(query)@.providers == providers
                &&& final(query).codes == old(query).codes
                &&& final(notices)@ == n
            },
        },
{
    let ghost start = source.pending();
    let ghost wanted = npis(query@.providers);
    let ghost first = groups_start(query@.providers, notices@);
    proof {
        reveal(groups_of);
        lemma_groups_walk_shorter(start, first, wanted);
    }
    let mut t_type: Option<String> = None;
    let mut t_value: Option<String> = None;
    let mut state = Capture::Undefined;
    let mut sq: u64 = 0;
    let mut cb: u64 = 0;
    let npi_set: HashSet<u64> = query.make_npi_set();
    loop
        invariant
            source.wf(),
            cb + source.pending().len() <= start.len(),
            sq + source.pending().len() <= start.len(),
            npi_set@ == wanted,
            query.codes == old(query).codes,
            groups_walk(start, first, wanted) == groups_walk(
                source.pending(),
                GroupsState {
                    capture: state,
                    cb: cb as nat,
                    sq: sq as nat,
                    t_type: crate::query::text_of(t_type),
                    t_value: crate::query::text_of(t_value),
                    providers: query@.providers,
                    notices: notices@,
                },
                wanted,
            ),
        decreases source.pending().len(),
    {
        let ghost ev = source.pending();
        proof {
            lemma_bypassed_shorter(ev.skip(1));
        }
        let e = match source.next_event() {
            Some(e) => e,
            None => {
                return Err(Fatal::MalformedInput);
            },
        };
        match e {
            Event::StartObject => {
                cb = cb + 1;
            },
            Event::EndObject => {
                if cb == 0 {
                    return Err(Fatal::MalformedInput);
                }
                cb = cb - 1;
                if cb == 0 {
                    let ty = tin_text(t_type);
                    let val = tin_text(t_value);
                    fill_tins(&mut query.providers, &ty, &val);
                    t_type = None;
                    t_value = None;
                }
            },
            Event::StartArray => {
                sq = sq + 1;
            },
            Event::EndArray => {
                if sq == 0 {
                    return Err(Fatal::MalformedInput);
                }
                sq = sq - 1;
                if sq == 0 {
                    return Ok(());
                }
            },
            Event::ObjectKey(key) => {
                if same_text(key.as_str(), "npi") {
                    state = Capture::Npi;
                } else if same_text(key.as_str(), "type") {
                    state = Capture::Ttype;
                } else if same_text(key.as_str(), "value") {
                    state = Capture::Value;
                } else if same_text(key.as_str(), "tin") {
                } else {
                    notices.unsupported(key.as_str(), "provider_groups");
                    match bypass_key(source) {
                        Ok(()) => {},
                        Err(f) => {
                            return Err(f);
                        },
                    }
                }
            },
            Event::String(value) => {
                if state == Capture::Ttype {
                    t_type = Some(value);
                    state = Capture::Undefined;
                } else if state == Capture::Value {
                    t_value = Some(value);
                    state = Capture::Undefined;
                } else {
                    return Err(Fatal::UndefinedState);
                }
            },
            Event::Number(num) => {
                let curr_npi = match parse_u64(num.as_str()) {
                    Some(n) => n,
                    None => {
                        return Err(Fatal::BadNumber);
                    },
                };
                if state != Capture::Npi {
                    return Err(Fatal::UndefinedState);
                }
                if npi_set.contains(&curr_npi) {
                    slot_provider(&mut query.providers, curr_npi);
                }
            },
            Event::Eof => {
                return Err(Fatal::MalformedInput);
            },
            _ => {},
        }
    }
}

/// The state of a walk over provider references.
pub struct RefsState {
    pub cb: nat,
    pub sq: nat,
    pub pg_id: Option<u64>,
    pub non_fatal: bool,
    pub providers: Seq<ProviderView>,
    pub notices: NoticesView,
}

/// The state at the start of a walk over provider references.
pub open spec fn refs_start(providers: Seq<ProviderView>, notices: NoticesView) -> RefsState {
    RefsState { cb: 0, sq: 0, pg_id: None, non_fatal: false, providers, notices }
}

/// What a walk over provider references returns: the providers, whether an
/// element had no group id, and the notices.
pub type RefsResult = (Seq<ProviderView>, bool, NoticesView);

/// The line that tells of an element without a group id.
pub open spec fn missing_gid_line() -> Seq<char> {
    "Error: provider group id not specified in datafile!"@
}

/// One step of the walk over provider references, on the first of the
/// events `ev`.
pub open spec fn refs_step(ev: Seq<EventView>, st: RefsState) -> Step<
    RefsState,
    RefsResult,
    GroupsResult,
>
    recommends
        ev.len() > 0,
{
    let rest = ev.skip(1);
    match ev[0] {
        EventView::StartObject => Step::Next(rest, RefsState { cb: st.cb + 1, ..st }),
        EventView::EndObject => if st.cb == 0 {
            Step::Fail(Fatal::MalformedInput, (st.providers, st.notices))
        } else if st.cb == 1 {
            Step::Next(
                rest,
                RefsState {
                    cb: 0,
                    pg_id: None,
                    non_fatal: st.non_fatal || st.pg_id is None,
                    providers: with_gid(st.providers, st.pg_id),
                    notices: if st.pg_id is None {
                        st.notices.noted(missing_gid_line())
                    } else {
                        st.notices
                    },
                    ..st
                },
            )
        } else {
            Step::Next(rest, RefsState { cb: (st.cb - 1) as nat, ..st })
        },
        EventView::StartArray => Step::Next(rest, RefsState { sq: st.sq + 1, ..st }),
        EventView::EndArray => if st.sq == 0 {
            Step::Fail(Fatal::MalformedInput, (st.providers, st.notices))
        } else if st.sq == 1 {
            Step::Done((st.providers, st.non_fatal, st.notices), rest)
        } else {
            Step::Next(rest, RefsState { sq: (st.sq - 1) as nat, ..st })
        },
        EventView::ObjectKey(key) => if key == "provider_group_id"@ {
            Step::Next(rest, st)
        } else if key == "provider_groups"@ {
            match groups_of(rest, st.providers, st.notices) {
                Ok(((providers, notices), after)) => Step::Next(
                    after,
                    RefsState { providers, notices, ..st },
                ),
                Err((f, e)) => Step::Fail(f, e),
            }
        } else {
            match bypassed(rest) {
                Ok(after) => Step::Next(
                    after,
                    RefsState {
                        notices: st.notices.unsupported(key, "provider_references"@),
                        ..st
                    },
                ),
                Err(f) => Step::Fail(
                    f,
                    (st.providers, st.notices.unsupported(key, "provider_references"@)),
                ),
            }
        },
        EventView::Number(n) => match parsed_u64(n) {
            Some(gid) => Step::Next(rest, RefsState { pg_id: Some(gid), ..st }),
            None => Step::Fail(Fatal::BadNumber, (st.providers, st.notices)),
        },
        EventView::Eof => Step::Fail(Fatal::MalformedInput, (st.providers, st.notices)),
        _ => Step::Next(rest, st),
    }
}

/// Every step of the walk over provider references uses up at least one
/// event.
pub proof fn lemma_refs_step_shortens(ev: Seq<EventView>, st: RefsState)
    requires
        ev.len() > 0,
    ensures
        refs_step(ev, st).shortens(ev.len()),
{
    reveal(groups_of);
    lemma_bypassed_shorter(ev.skip(1));
    lemma_groups_walk_shorter(
        ev.skip(1),
        groups_start(st.providers, st.notices),
        npis(st.providers),
    );
}

/// The walk over provider references from state `st`: step by step to the
/// end of the array. The input ending before that is malformed.
pub open spec fn refs_walk(ev: Seq<EventView>, st: RefsState) -> Result<
    (RefsResult, Seq<EventView>),
    (Fatal, GroupsResult),
>
    decreases ev.len(),
{
    if ev.len() == 0 {
        Err((Fatal::MalformedInput, (st.providers, st.notices)))
    } else {
        match refs_step(ev, st) {
            Step::Next(rest, next) => {
                proof {
                    lemma_refs_step_shortens(ev, st);
                }
                refs_walk(rest, next)
            },
            Step::Done(r, rest) => Ok((r, rest)),
            Step::Fail(f, e) => Err((f, e)),
        }
    }
}

/// The providers after the `provider_references` array that `ev` starts
/// with, whether an element of it had no group id, the notices after it, and
/// the events behind it.
#[verifier::opaque]
pub open spec fn refs_of(
    ev: Seq<EventView>,
    providers: Seq<ProviderView>,
    notices: NoticesView,
) -> Result<(RefsResult, Seq<EventView>), (Fatal, GroupsResult)> {
    refs_walk(ev, refs_start(providers, notices))
}

/// A walk over provider references that ends well leaves fewer events than
/// it found.
pub proof fn lemma_refs_walk_shorter(ev: Seq<EventView>, st: RefsState)
    ensures
        refs_walk(ev, st) matches Ok((_, rest)) ==> rest.len() < ev.len(),
    decreases ev.len(),
{
    if ev.len() > 0 {
        lemma_refs_step_shortens(ev, st);
        match refs_step(ev, st) {
            Step::Next(rest, next) => lemma_refs_walk_shorter(rest, next),
            _ => {},
        }
    }
}

/// The message of the error that a missing group id leads to.
pub open spec fn missing_gid_message() -> Seq<char> {
    "Non fatal error in asa::process_provider_refs"@
}

/// Processes the `provider_references` array: finds the group, the tin type
/// and the tin value of the providers of the query, with a record for each
/// group and tin of an npi. An element without a group id does not stop the
/// walk, and leads to a non-fatal error at its end.
#[verifier::loop_isolation(false)]
pub fn process_provider_refs(
    source: &mut EventSource<'_>,
    query: &mut Query,
    notices: &mut Notices,
) -> (r: Result<(), Failure>)
    requires
        old(source).wf(),
    ensures
        final(source).wf(),
        match refs_of(old(source).pending(), old(query)@.providers, old(notices)@) {
            Ok(((providers, non_fatal, n), rest)) => {
                &&& final(query)@.providers == providers
                &&& final(query).codes == old(query).codes
                &&& final(notices)@ == n
                &&& final(source).pending() == rest
                &&& rest.len() < old(source).pending().len()
                &&& if non_fatal {
                    r matches Err(Failure::NonFatal(e)) && e.0@ == missing_gid_message()
                } else {
                    r is Ok
                }
            },
            Err((f, (providers, n))) => {
                &&& r matches Err(Failure::Fatal(g)) && g == f
                &&& final(query)@.providers == providers
                &&& final(query).codes == old(query).codes
                &&& final(notices)@ == n
            },
        },
{
    let ghost start = source.pending();
    let ghost first = refs_start(query@.providers, notices@);
    proof {
        reveal(refs_of);
        lemma_refs_walk_shorter(start, first);
    }
    let mut non_fatal_err_seen: bool = false;
    let mut pg_id: Option<u64> = None;
    let mut cb: u64 = 0;
    let mut sq: u64 = 0;
    loop
        invariant
            source.wf(),
            cb + source.pending().len() <= start.len(),
            sq + source.pending().len() <= start.len(),
            query.codes == old(query).codes,
            refs_walk(start, first) == refs_walk(
                source.pending(),
                RefsState {
                    cb: cb as nat,
                    sq: sq as nat,
                    pg_id,
                    non_fatal: non_fatal_err_seen,
                    providers: query@.providers,
                    notices: notices@,
                },
            ),
        decreases source.pending().len(),
    {
        let ghost ev = source.pending();
        proof {
            reveal(groups_of);
            lemma_bypassed_shorter(ev.skip(1));
            lemma_groups_walk_shorter(
                ev.skip(1),
                groups_start(query@.providers, notices@),
                npis(query@.providers),
            );
        }
        let e = match source.next_event() {
            Some(e) => e,
            None => {
                return Err(Failure::Fatal(Fatal::MalformedInput));
            },
        };
        match e {
            Event::StartObject => {
                cb = cb + 1;
            },
            Event::EndObject => {
                if cb == 0 {
                    return Err(Failure::Fatal(Fatal::MalformedInput));
                }
                cb = cb - 1;
                if cb == 0 {
                    if pg_id.is_none() {
                        notices.note(
                            String::from_str("Error: provider group id not specified in datafile!"),
                        );
                        non_fatal_err_seen = true;
                    }
                    fill_gids(&mut query.providers, pg_id);
                    pg_id = None;
                }
            },
            Event::StartArray => {
                sq = sq + 1;
            },
            Event::EndArray => {
                if sq == 0 {
                    return Err(Failure::Fatal(Fatal::MalformedInput));
                }
                sq = sq - 1;
                if sq == 0 {
                    if non_fatal_err_seen {
                        return Err(
                            Failure::NonFatal(
                                NonFatalError(
                                    String::from_str(
                                        "Non fatal error in asa::process_provider_refs",
                                    ),
                                ),
                            ),
                        );
                    }
                    return Ok(());
                }
            },
            Event::ObjectKey(key) => {
                if same_text(key.as_str(), "provider_group_id") {
                } else if same_text(key.as_str(), "provider_groups") {
                    match process_provider_groups(source, query, notices) {
                        Ok(()) => {},
                        Err(f) => {
                            return Err(Failure::Fatal(f));
                        },
                    }
                } else {
                    notices.unsupported(key.as_str(), "provider_references");
                    match bypass_key(source) {
                        Ok(()) => {},
                        Err(f) => {
                            return Err(Failure::Fatal(f));
                        },
                    }
                }
            },
            Event::Number(num) => {
                match parse_u64(num.as_str()) {
                    Some(gid) => {
                        pg_id = Some(gid);
                    },
                    None => {
                        return Err(Failure::Fatal(Fatal::BadNumber));
                    },
                }
            },
            Event::Eof => {
                return Err(Failure::Fatal(Fatal::MalformedInput));
            },
            _ => {},
        }
    }
}

} // verus!
