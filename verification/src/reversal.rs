//! Order reversal: a document gives the same output whether its
//! `provider_references` array or its `in_network` array comes first.

use crate::asa::{
    is_meta_key,
    meta_noted,
    run_of,
    run_result,
    run_start,
    run_step,
    run_walk,
    RunState,
    Turn,
};
use crate::event::EventView;
use crate::frame::{
    agree,
    lemma_array_end_frame,
    lemma_bypassed_frame,
    lemma_net_walk_frame,
    lemma_net_walk_same,
    lemma_refs_walk_frame,
    lemma_refs_walk_same,
};
use crate::network::{net_start, network_of, ref_tuples, NetResult};
use crate::notices::NoticesView;
use crate::providers::{refs_of, refs_start, refs_walk, RefsResult};
use crate::query::{some_group_known, upper_codes, QueryView};
use crate::skip::{array_end, bypassed, lemma_bypassed_shorter};
use vstd::prelude::*;

verus! {

/// The key of the array of the providers.
pub open spec fn providers_key() -> EventView {
    EventView::ObjectKey("provider_references"@)
}

/// The key of the array of the billing records.
pub open spec fn network_key() -> EventView {
    EventView::ObjectKey("in_network"@)
}

/// The end of a document.
pub open spec fn closing() -> Seq<EventView> {
    seq![EventView::EndObject]
}

/// The keys of the two arrays differ from each other and from the four keys
/// of the metadata.
pub proof fn lemma_keys_differ()
    ensures
        !is_meta_key("provider_references"@),
        !is_meta_key("in_network"@),
        "in_network"@ != "provider_references"@,
{
    reveal_strlit("provider_references");
    reveal_strlit("in_network");
    reveal_strlit("reporting_entity_name");
    reveal_strlit("reporting_entity_type");
    reveal_strlit("last_updated_on");
    reveal_strlit("version");
    assert("provider_references"@.len() == 19);
    assert("in_network"@.len() == 10);
    assert("reporting_entity_name"@.len() == 21);
    assert("reporting_entity_type"@.len() == 21);
    assert("last_updated_on"@.len() == 15);
    assert("version"@.len() == 7);
}

/// What is left of `ev` behind its first member, where that is a member
/// beside the two arrays: a string of the metadata, or an unsupported key
/// with its value.
pub open spec fn member_end(ev: Seq<EventView>) -> Option<Seq<EventView>> {
    if ev.len() == 0 {
        None
    } else {
        match ev[0] {
            EventView::ObjectKey(key) => if is_meta_key(key) {
                if ev.len() >= 2 && ev[1] is String {
                    Some(ev.skip(2))
                } else {
                    None
                }
            } else if key == "provider_references"@ || key == "in_network"@ {
                None
            } else {
                match bypassed(ev.skip(1)) {
                    Ok(after) => Some(after),
                    Err(_) => None,
                }
            },
            _ => None,
        }
    }
}

/// Whether `m` is a sequence of members beside the two arrays.
pub open spec fn plain(m: Seq<EventView>) -> bool
    decreases m.len(),
{
    m.len() == 0 || (member_end(m) matches Some(rest) && rest.len() < m.len() && plain(rest))
}

/// The state of the run behind the first member of `ev`.
pub open spec fn after_member(ev: Seq<EventView>, st: RunState) -> RunState
    recommends
        member_end(ev) is Some,
{
    match ev[0] {
        EventView::ObjectKey(key) => if is_meta_key(key) {
            RunState {
                meta: st.meta.added(key, ev[1]->String_0),
                meta_key: None,
                notices: meta_noted(st.notices, st.meta, st.meta.added(key, ev[1]->String_0)),
                ..st
            }
        } else {
            RunState { notices: st.notices.unsupported(key, "top level"@), ..st }
        },
        _ => st,
    }
}

/// The state of the run behind the members `m`.
pub open spec fn after_plain(m: Seq<EventView>, st: RunState) -> RunState
    decreases m.len(),
{
    if m.len() > 0 && (member_end(m) matches Some(rest) && rest.len() < m.len()) {
        after_plain(member_end(m)->0, after_member(m, st))
    } else {
        st
    }
}

/// Whether two states of the run differ at most in the metadata and the
/// notices.
pub open spec fn run_same(s: RunState, t: RunState) -> bool {
    &&& s.depth == t.depth
    &&& s.providers_seen == t.providers_seen
    &&& s.network_seen == t.network_seen
    &&& s.needs_reset == t.needs_reset
    &&& s.non_fatal == t.non_fatal
    &&& s.query == t.query
    &&& s.out == t.out
}

/// Members beside the two arrays change the metadata and the notices, and
/// nothing else.
pub proof fn lemma_after_plain_same(m: Seq<EventView>, st: RunState)
    ensures
        run_same(after_plain(m, st), st),
    decreases m.len(),
{
    if m.len() > 0 && (member_end(m) matches Some(rest) && rest.len() < m.len()) {
        lemma_after_plain_same(member_end(m)->0, after_member(m, st));
    }
}

/// The run walks over members beside the two arrays, whatever follows them.
pub proof fn lemma_run_over_plain(
    doc: Seq<EventView>,
    m: Seq<EventView>,
    tail: Seq<EventView>,
    st: RunState,
)
    requires
        plain(m),
        st.depth == 1,
    ensures
        run_walk(doc, m + tail, st) == run_walk(doc, tail, after_plain(m, st)),
    decreases m.len(),
{
    if m.len() == 0 {
        assert(m + tail =~= tail);
    } else {
        let ev = m + tail;
        let rest = member_end(m)->0;
        let key = m[0]->ObjectKey_0;
        assert(ev[0] == m[0]);
        lemma_keys_differ();
        if is_meta_key(key) {
            assert(ev[1] == m[1]);
            let value = m[1]->String_0;
            let s1 = RunState { meta_key: Some(key), ..st };
            assert(run_step(ev, st) == Turn::Next(ev.skip(1), s1));
            assert(run_walk(doc, ev, st) == run_walk(doc, ev.skip(1), s1));
            assert(ev.skip(1)[0] == m[1]);
            assert(ev.skip(1).skip(1) =~= rest + tail);
            assert(run_step(ev.skip(1), s1) == Turn::Next(rest + tail, after_member(m, st)));
            assert(run_walk(doc, ev.skip(1), s1) == run_walk(
                doc,
                rest + tail,
                after_member(m, st),
            ));
        } else {
            lemma_bypassed_shorter(m.skip(1));
            let k = m.skip(1).len() - rest.len();
            assert(ev.skip(1) =~= m.skip(1) + tail);
            assert(agree(m.skip(1), ev.skip(1), k));
            lemma_bypassed_frame(m.skip(1), ev.skip(1), k);
            assert(ev.skip(1).skip(k) =~= m.skip(1).skip(k) + tail);
            assert(run_step(ev, st) == Turn::Next(rest + tail, after_member(m, st)));
            assert(run_walk(doc, ev, st) == run_walk(doc, rest + tail, after_member(m, st)));
        }
        lemma_run_over_plain(doc, rest, tail, after_member(m, st));
    }
}

/// The state of the run behind a `provider_references` array that was read.
pub open spec fn provided(st: RunState, read: RefsResult) -> RunState {
    RunState {
        providers_seen: true,
        non_fatal: st.non_fatal || read.1,
        query: QueryView { providers: read.0, ..st.query },
        notices: read.2,
        ..st
    }
}

/// The run reads a `provider_references` array that is one value to the
/// walker, whatever follows it. It goes on behind the array, or ends there
/// if none of the providers is known.
pub proof fn lemma_run_reads_providers(
    doc: Seq<EventView>,
    a: Seq<EventView>,
    tail: Seq<EventView>,
    st: RunState,
)
    requires
        st.depth == 1,
        !st.providers_seen,
        refs_walk(a + closing(), refs_start(st.query.providers, st.notices)) matches Ok(
            (_, rest),
        ) && rest == closing(),
    ensures
        ({
            let read = refs_walk(a + closing(), refs_start(st.query.providers, st.notices))->Ok_0.0;
            if some_group_known(read.0) {
                run_walk(doc, seq![providers_key()] + (a + tail), st) == run_walk(
                    doc,
                    tail,
                    provided(st, read),
                )
            } else {
                run_walk(doc, seq![providers_key()] + (a + tail), st) matches Ok((q, o, _, f))
                    && q == provided(st, read).query && o == st.out && f == provided(
                    st,
                    read,
                ).non_fatal
            }
        }),
{
    reveal(refs_of);
    lemma_keys_differ();
    let ev = seq![providers_key()] + (a + tail);
    let start = refs_start(st.query.providers, st.notices);
    assert(ev.skip(1) =~= a + tail);
    assert(agree(a + closing(), a + tail, a.len() as int));
    assert((a + closing()).skip(a.len() as int) =~= closing());
    lemma_refs_walk_frame(a + closing(), a + tail, start, a.len() as int);
    assert((a + tail).skip(a.len() as int) =~= tail);
    let read = refs_walk(a + closing(), start)->Ok_0.0;
    if some_group_known(read.0) {
        assert(run_step(ev, st) == Turn::Next(tail, provided(st, read)));
    } else {
        assert(run_step(ev, st) matches Turn::Done(r) && r.0 == provided(st, read).query && r.1
            == st.out && r.3 == provided(st, read).non_fatal);
    }
}

/// The run passes over a `provider_references` array that is one value to
/// the bypass, once the providers are known: nothing changes.
pub proof fn lemma_run_passes_providers(
    doc: Seq<EventView>,
    a: Seq<EventView>,
    tail: Seq<EventView>,
    st: RunState,
)
    requires
        st.depth == 1,
        st.providers_seen,
        bypassed(a + closing()) == Ok::<Seq<EventView>, crate::error::Fatal>(closing()),
    ensures
        run_walk(doc, seq![providers_key()] + (a + tail), st) == run_walk(doc, tail, st),
{
    lemma_keys_differ();
    let ev = seq![providers_key()] + (a + tail);
    assert(ev.skip(1) =~= a + tail);
    assert(agree(a + closing(), a + tail, a.len() as int));
    assert((a + closing()).skip(a.len() as int) =~= closing());
    lemma_bypassed_frame(a + closing(), a + tail, a.len() as int);
    assert((a + tail).skip(a.len() as int) =~= tail);
    assert(run_step(ev, st) == Turn::Next(tail, st));
}

/// The state of the run behind an `in_network` array that was skipped.
pub open spec fn skipped(st: RunState) -> RunState {
    RunState { network_seen: true, needs_reset: true, ..st }
}

/// The run skips an `in_network` array that is one value to the skip and
/// comes before the providers, whatever follows it.
pub proof fn lemma_run_skips_network(
    doc: Seq<EventView>,
    b: Seq<EventView>,
    tail: Seq<EventView>,
    st: RunState,
)
    requires
        st.depth == 1,
        !st.providers_seen,
        array_end(b + closing(), 0) == Ok::<Seq<EventView>, crate::error::Fatal>(closing()),
    ensures
        run_walk(doc, seq![network_key()] + (b + tail), st) == run_walk(doc, tail, skipped(st)),
{
    lemma_keys_differ();
    let ev = seq![network_key()] + (b + tail);
    assert(ev.skip(1) =~= b + tail);
    assert(agree(b + closing(), b + tail, b.len() as int));
    assert((b + closing()).skip(b.len() as int) =~= closing());
    lemma_array_end_frame(b + closing(), b + tail, 0, b.len() as int);
    assert((b + tail).skip(b.len() as int) =~= tail);
    assert(run_step(ev, st) == Turn::Next(tail, skipped(st)));
}

/// The state of the run behind an `in_network` array that was walked.
pub open spec fn walked(st: RunState, done: NetResult) -> RunState {
    RunState { network_seen: true, query: done.0, out: done.1, notices: done.2, ..st }
}

/// The run walks an `in_network` array that is one value to the walker and
/// comes behind the providers, whatever follows it.
pub proof fn lemma_run_walks_network(
    doc: Seq<EventView>,
    b: Seq<EventView>,
    tail: Seq<EventView>,
    st: RunState,
)
    requires
        st.depth == 1,
        st.providers_seen,
        network_of(b + closing(), st.query, st.out, st.notices) matches Ok((_, rest)) && rest
            == closing(),
    ensures
        run_walk(doc, seq![network_key()] + (b + tail), st) == run_walk(
            doc,
            tail,
            walked(st, network_of(b + closing(), st.query, st.out, st.notices)->Ok_0.0),
        ),
{
    reveal(network_of);
    lemma_keys_differ();
    let ev = seq![network_key()] + (b + tail);
    assert(ev.skip(1) =~= b + tail);
    assert(agree(b + closing(), b + tail, b.len() as int));
    assert((b + closing()).skip(b.len() as int) =~= closing());
    lemma_net_walk_frame(
        b + closing(),
        b + tail,
        net_start(st.query, st.out, st.notices),
        upper_codes(st.query.codes),
        ref_tuples(st.query.providers),
        b.len() as int,
    );
    assert((b + tail).skip(b.len() as int) =~= tail);
    let done = network_of(b + closing(), st.query, st.out, st.notices)->Ok_0.0;
    assert(run_step(ev, st) == Turn::Next(tail, walked(st, done)));
}

/// The run enters the document.
pub proof fn lemma_run_opens(doc: Seq<EventView>, body: Seq<EventView>, st: RunState)
    ensures
        run_walk(doc, seq![EventView::StartObject] + body, st) == run_walk(
            doc,
            body,
            RunState { depth: st.depth + 1, ..st },
        ),
{
    let ev = seq![EventView::StartObject] + body;
    assert(ev.skip(1) =~= body);
    assert(run_step(ev, st) == Turn::Next(body, RunState { depth: st.depth + 1, ..st }));
}

/// At the end of the document, with both arrays seen, the run is over, or it
/// walks the document once more if the `in_network` array was skipped.
pub proof fn lemma_run_closes(doc: Seq<EventView>, st: RunState)
    requires
        st.depth == 1,
        st.providers_seen,
        st.network_seen,
    ensures
        run_walk(doc, closing(), st) == if st.needs_reset {
            run_walk(doc, doc, RunState { depth: 0, needs_reset: false, ..st })
        } else {
            Ok::<crate::asa::RunResult, (crate::error::Fatal, NetResult)>(run_result(st))
        },
{
    if st.needs_reset {
        assert(run_step(closing(), st) == Turn::Restart(
            RunState { depth: 0, needs_reset: false, ..st },
        ));
    } else {
        assert(run_step(closing(), st) == Turn::Done(run_result(st)));
    }
}

/// The events of a document that holds the array `a` under the key
/// `provider_references` and, behind it, the array `b` under the key
/// `in_network`, with the other members `m1` before them, `m2` between them
/// and `m3` behind them.
pub open spec fn providers_first(
    m1: Seq<EventView>,
    a: Seq<EventView>,
    m2: Seq<EventView>,
    b: Seq<EventView>,
    m3: Seq<EventView>,
) -> Seq<EventView> {
    seq![EventView::StartObject] + (m1 + (seq![providers_key()] + (a + (m2 + (seq![
        network_key(),
    ] + (b + (m3 + closing())))))))
}

/// The events of the document that holds the same members with the two
/// arrays in each other's place.
pub open spec fn network_first(
    m1: Seq<EventView>,
    a: Seq<EventView>,
    m2: Seq<EventView>,
    b: Seq<EventView>,
    m3: Seq<EventView>,
) -> Seq<EventView> {
    seq![EventView::StartObject] + (m1 + (seq![network_key()] + (b + (m2 + (seq![
        providers_key(),
    ] + (a + (m3 + closing())))))))
}

/// Whether each of the two arrays is one value to what takes it: the walk
/// over provider references takes `a` and nothing more, and so does the
/// bypass; the skip takes `b` and nothing more, and so does the walk over
/// the `in_network` array once the providers are known.
pub open spec fn taken_whole(
    a: Seq<EventView>,
    b: Seq<EventView>,
    query: QueryView,
    out: Seq<char>,
    notices: NoticesView,
) -> bool {
    &&& refs_of(a + closing(), query.providers, notices) matches Ok(((known, _, n), rest)) && rest
        == closing() && (network_of(b + closing(), QueryView { providers: known, ..query }, out, n)
        matches Ok((_, end)) && end == closing())
    &&& bypassed(a + closing()) == Ok::<Seq<EventView>, crate::error::Fatal>(closing())
    &&& array_end(b + closing(), 0) == Ok::<Seq<EventView>, crate::error::Fatal>(closing())
}

/// The providers that the `provider_references` array `a` gives to the
/// providers of `query`.
pub open spec fn known_of(a: Seq<EventView>, query: QueryView, notices: NoticesView) -> QueryView {
    QueryView {
        providers: refs_of(a + closing(), query.providers, notices)->Ok_0.0.0,
        ..query
    }
}

/// What both orders of the two arrays come to: the query and the output
/// that the walk over the `in_network` array leaves with the providers
/// known, or the providers alone if none of them is known, and whether an
/// element of the providers had no group id.
pub open spec fn outcome_of_either(
    a: Seq<EventView>,
    b: Seq<EventView>,
    query: QueryView,
    out: Seq<char>,
    notices: NoticesView,
) -> (QueryView, Seq<char>, bool) {
    let read = refs_of(a + closing(), query.providers, notices)->Ok_0.0;
    let known = known_of(a, query, notices);
    if some_group_known(known.providers) {
        let done = network_of(b + closing(), known, out, read.2)->Ok_0.0;
        (done.0, done.1, read.1)
    } else {
        (known, out, read.1)
    }
}

/// Whether a run ends well, with the query `q`, the output `o` and the
/// non-fatal error `f`.
pub open spec fn ends_with(
    run: Result<crate::asa::RunResult, (crate::error::Fatal, NetResult)>,
    end: (QueryView, Seq<char>, bool),
) -> bool {
    run matches Ok((q, o, _, f)) && q == end.0 && o == end.1 && f == end.2
}

/// The run reads the providers as the walk over `a` alone does, whatever the
/// notices hold by then.
proof fn lemma_reads_as_alone(
    doc: Seq<EventView>,
    a: Seq<EventView>,
    tail: Seq<EventView>,
    st: RunState,
    query: QueryView,
    notices: NoticesView,
)
    requires
        st.depth == 1,
        !st.providers_seen,
        !st.non_fatal,
        st.query == query,
        refs_of(a + closing(), query.providers, notices) matches Ok((_, rest)) && rest
            == closing(),
    ensures
        ({
            let next = provided(
                st,
                refs_walk(a + closing(), refs_start(st.query.providers, st.notices))->Ok_0.0,
            );
            let non_fatal = refs_of(a + closing(), query.providers, notices)->Ok_0.0.1;
            if some_group_known(known_of(a, query, notices).providers) {
                &&& run_walk(doc, seq![providers_key()] + (a + tail), st) == run_walk(
                    doc,
                    tail,
                    next,
                )
                &&& next.query == known_of(a, query, notices)
                &&& next.out == st.out
                &&& next.non_fatal == non_fatal
                &&& next.depth == 1
                &&& next.providers_seen
                &&& next.network_seen == st.network_seen
                &&& next.needs_reset == st.needs_reset
            } else {
                ends_with(
                    run_walk(doc, seq![providers_key()] + (a + tail), st),
                    (known_of(a, query, notices), st.out, non_fatal),
                )
            }
        }),
{
    reveal(refs_of);
    lemma_refs_walk_same(
        a + closing(),
        refs_start(query.providers, notices),
        refs_start(st.query.providers, st.notices),
    );
    lemma_run_reads_providers(doc, a, tail, st);
}

/// The run walks the `in_network` array as the walk over `b` alone does,
/// whatever the notices hold by then.
proof fn lemma_walks_as_alone(
    doc: Seq<EventView>,
    b: Seq<EventView>,
    tail: Seq<EventView>,
    st: RunState,
    notices: NoticesView,
)
    requires
        st.depth == 1,
        st.providers_seen,
        network_of(b + closing(), st.query, st.out, notices) matches Ok((_, rest)) && rest
            == closing(),
    ensures
        ({
            let next = walked(
                st,
                network_of(b + closing(), st.query, st.out, st.notices)->Ok_0.0,
            );
            let done = network_of(b + closing(), st.query, st.out, notices)->Ok_0.0;
            &&& run_walk(doc, seq![network_key()] + (b + tail), st) == run_walk(doc, tail, next)
            &&& next.out == done.1
            &&& next.query == done.0
            &&& next.non_fatal == st.non_fatal
            &&& next.depth == 1
            &&& next.providers_seen
            &&& next.network_seen
            &&& next.needs_reset == st.needs_reset
        }),
{
    reveal(network_of);
    lemma_net_walk_same(
        b + closing(),
        net_start(st.query, st.out, notices),
        net_start(st.query, st.out, st.notices),
        upper_codes(st.query.codes),
        ref_tuples(st.query.providers),
    );
    lemma_run_walks_network(doc, b, tail, st);
}

/// The run over the document with `provider_references` first ends well,
/// with the outcome of either order.
pub proof fn lemma_run_providers_first(
    m1: Seq<EventView>,
    a: Seq<EventView>,
    m2: Seq<EventView>,
    b: Seq<EventView>,
    m3: Seq<EventView>,
    query: QueryView,
    out: Seq<char>,
    notices: NoticesView,
)
    requires
        plain(m1),
        plain(m2),
        plain(m3),
        taken_whole(a, b, query, out, notices),
    ensures
        ends_with(
            run_of(providers_first(m1, a, m2, b, m3), query, out, notices),
            outcome_of_either(a, b, query, out, notices),
        ),
{
    let doc = providers_first(m1, a, m2, b, m3);
    let t4 = m3 + closing();
    let t3 = seq![network_key()] + (b + t4);
    let t2 = m2 + t3;
    let t1 = seq![providers_key()] + (a + t2);
    let s0 = run_start(query, out, notices);
    let s1 = RunState { depth: 1, ..s0 };
    lemma_run_opens(doc, m1 + t1, s0);
    lemma_run_over_plain(doc, m1, t1, s1);
    let w1 = after_plain(m1, s1);
    lemma_after_plain_same(m1, s1);
    lemma_reads_as_alone(doc, a, t2, w1, query, notices);
    let known = known_of(a, query, notices);
    if some_group_known(known.providers) {
        let s2 = provided(
            w1,
            refs_walk(a + closing(), refs_start(w1.query.providers, w1.notices))->Ok_0.0,
        );
        lemma_run_over_plain(doc, m2, t3, s2);
        let w2 = after_plain(m2, s2);
        lemma_after_plain_same(m2, s2);
        let n = refs_of(a + closing(), query.providers, notices)->Ok_0.0.2;
        lemma_walks_as_alone(doc, b, t4, w2, n);
        let s3 = walked(w2, network_of(b + closing(), w2.query, w2.out, w2.notices)->Ok_0.0);
        lemma_run_over_plain(doc, m3, closing(), s3);
        let w3 = after_plain(m3, s3);
        lemma_after_plain_same(m3, s3);
        lemma_run_closes(doc, w3);
    }
}

/// The state in which the second walk over a document starts.
pub open spec fn restarted(st: RunState) -> RunState {
    RunState { depth: 0, needs_reset: false, ..st }
}

/// The first walk over the document with `in_network` first: the array is
/// skipped and the providers are read. Then the run ends, if none of the
/// providers is known, or the document is walked again from a state that
/// holds the providers and the output as it was.
proof fn lemma_network_first_first_walk(
    m1: Seq<EventView>,
    a: Seq<EventView>,
    m2: Seq<EventView>,
    b: Seq<EventView>,
    m3: Seq<EventView>,
    query: QueryView,
    out: Seq<char>,
    notices: NoticesView,
) -> (st: RunState)
    requires
        plain(m1),
        plain(m2),
        plain(m3),
        taken_whole(a, b, query, out, notices),
    ensures
        ({
            let doc = network_first(m1, a, m2, b, m3);
            if some_group_known(known_of(a, query, notices).providers) {
                &&& run_of(doc, query, out, notices) == run_walk(doc, doc, st)
                &&& st.depth == 0
                &&& st.providers_seen
                &&& st.network_seen
                &&& !st.needs_reset
                &&& st.query == known_of(a, query, notices)
                &&& st.out == out
                &&& st.non_fatal == refs_of(a + closing(), query.providers, notices)->Ok_0.0.1
            } else {
                ends_with(
                    run_of(doc, query, out, notices),
                    outcome_of_either(a, b, query, out, notices),
                )
            }
        }),
{
    let doc = network_first(m1, a, m2, b, m3);
    let t4 = m3 + closing();
    let t3 = seq![providers_key()] + (a + t4);
    let t2 = m2 + t3;
    let t1 = seq![network_key()] + (b + t2);
    let s0 = run_start(query, out, notices);
    let s1 = RunState { depth: 1, ..s0 };
    lemma_run_opens(doc, m1 + t1, s0);
    lemma_run_over_plain(doc, m1, t1, s1);
    let w1 = after_plain(m1, s1);
    lemma_after_plain_same(m1, s1);
    lemma_run_skips_network(doc, b, t2, w1);
    let s2 = skipped(w1);
    lemma_run_over_plain(doc, m2, t3, s2);
    let w2 = after_plain(m2, s2);
    lemma_after_plain_same(m2, s2);
    lemma_reads_as_alone(doc, a, t4, w2, query, notices);
    if some_group_known(known_of(a, query, notices).providers) {
        let s3 = provided(
            w2,
            refs_walk(a + closing(), refs_start(w2.query.providers, w2.notices))->Ok_0.0,
        );
        lemma_run_over_plain(doc, m3, closing(), s3);
        let w3 = after_plain(m3, s3);
        lemma_after_plain_same(m3, s3);
        lemma_run_closes(doc, w3);
        restarted(w3)
    } else {
        s0
    }
}

/// The second walk over the document with `in_network` first: the array is
/// walked with the providers known, and the providers are passed over. The
/// run ends well, with what the walk over the array left.
proof fn lemma_network_first_second_walk(
    m1: Seq<EventView>,
    a: Seq<EventView>,
    m2: Seq<EventView>,
    b: Seq<EventView>,
    m3: Seq<EventView>,
    st: RunState,
    notices: NoticesView,
)
    requires
        plain(m1),
        plain(m2),
        plain(m3),
        st.depth == 0,
        st.providers_seen,
        st.network_seen,
        !st.needs_reset,
        network_of(b + closing(), st.query, st.out, notices) matches Ok((_, rest)) && rest
            == closing(),
        bypassed(a + closing()) == Ok::<Seq<EventView>, crate::error::Fatal>(closing()),
    ensures
        ({
            let doc = network_first(m1, a, m2, b, m3);
            let done = network_of(b + closing(), st.query, st.out, notices)->Ok_0.0;
            ends_with(run_walk(doc, doc, st), (done.0, done.1, st.non_fatal))
        }),
{
    let doc = network_first(m1, a, m2, b, m3);
    let t4 = m3 + closing();
    let t3 = seq![providers_key()] + (a + t4);
    let t2 = m2 + t3;
    let t1 = seq![network_key()] + (b + t2);
    let s1 = RunState { depth: 1, ..st };
    lemma_run_opens(doc, m1 + t1, st);
    lemma_run_over_plain(doc, m1, t1, s1);
    let w1 = after_plain(m1, s1);
    lemma_after_plain_same(m1, s1);
    lemma_walks_as_alone(doc, b, t2, w1, notices);
    let s2 = walked(w1, network_of(b + closing(), w1.query, w1.out, w1.notices)->Ok_0.0);
    lemma_run_over_plain(doc, m2, t3, s2);
    let w2 = after_plain(m2, s2);
    lemma_after_plain_same(m2, s2);
    lemma_run_passes_providers(doc, a, t4, w2);
    lemma_run_over_plain(doc, m3, closing(), w2);
    let w3 = after_plain(m3, w2);
    lemma_after_plain_same(m3, w2);
    lemma_run_closes(doc, w3);
}

/// The run over the document with `in_network` first ends well, with the
/// outcome of either order.
pub proof fn lemma_run_network_first(
    m1: Seq<EventView>,
    a: Seq<EventView>,
    m2: Seq<EventView>,
    b: Seq<EventView>,
    m3: Seq<EventView>,
    query: QueryView,
    out: Seq<char>,
    notices: NoticesView,
)
    requires
        plain(m1),
        plain(m2),
        plain(m3),
        taken_whole(a, b, query, out, notices),
    ensures
        ends_with(
            run_of(network_first(m1, a, m2, b, m3), query, out, notices),
            outcome_of_either(a, b, query, out, notices),
        ),
{
    let st = lemma_network_first_first_walk(m1, a, m2, b, m3, query, out, notices);
    if some_group_known(known_of(a, query, notices).providers) {
        let n = refs_of(a + closing(), query.providers, notices)->Ok_0.0.2;
        lemma_network_first_second_walk(m1, a, m2, b, m3, st, n);
    }
}

/// Order reversal equivalence. A document holds the two arrays, each of
/// them one value to what takes it, and beside them strings of the metadata
/// and unsupported keys with their values. With `provider_references` before
/// `in_network`, or with the two in each other's place, the run ends well
/// and leaves the same output, the same query and the same non-fatal error.
pub proof fn lemma_order_reversal(
    m1: Seq<EventView>,
    a: Seq<EventView>,
    m2: Seq<EventView>,
    b: Seq<EventView>,
    m3: Seq<EventView>,
    query: QueryView,
    out: Seq<char>,
    notices: NoticesView,
)
    requires
        plain(m1),
        plain(m2),
        plain(m3),
        taken_whole(a, b, query, out, notices),
    ensures
        run_of(providers_first(m1, a, m2, b, m3), query, out, notices) matches Ok((q, o, _, f))
            && ends_with(
            run_of(network_first(m1, a, m2, b, m3), query, out, notices),
            (q, o, f),
        ),
{
    lemma_run_providers_first(m1, a, m2, b, m3, query, out, notices);
    lemma_run_network_first(m1, a, m2, b, m3, query, out, notices);
}

/// Order reversal equivalence of `run`: where the data of two runs decode to
/// documents whose events are the two orders of one set of members, the
/// contract of `run` gives both runs the same result, the same output and
/// the same query.
pub proof fn lemma_order_reversal_of_run(
    first: Seq<u8>,
    second: Seq<u8>,
    m1: Seq<EventView>,
    a: Seq<EventView>,
    m2: Seq<EventView>,
    b: Seq<EventView>,
    m3: Seq<EventView>,
    query: QueryView,
    out: Seq<char>,
    notices: NoticesView,
)
    requires
        plain(m1),
        plain(m2),
        plain(m3),
        taken_whole(a, b, query, out, notices),
    ensures
        ({
            &&& crate::asa::inflated(first) matches Some(doc) && crate::event::json_events(doc)
                == providers_first(m1, a, m2, b, m3)
            &&& crate::asa::inflated(second) matches Some(doc) && crate::event::json_events(doc)
                == network_first(m1, a, m2, b, m3)
        }) ==> (crate::asa::run_of_gzip(first, query, out, notices) matches Ok((q, o, _, f))
            && ends_with(crate::asa::run_of_gzip(second, query, out, notices), (q, o, f))),
{
    lemma_order_reversal(m1, a, m2, b, m3, query, out, notices);
}

} // verus!
