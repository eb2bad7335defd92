//! The driver: the walk over the top level of the document.
//!
//! The document is an object that holds, in either order, the array
//! `provider_references`, which tells the group and the tin of each provider,
//! and the array `in_network`, whose elements are matched against the query.
//! Where `in_network` comes first it is skipped, and the document is walked a
//! second time once the providers are known; on that walk the providers are
//! passed over.

use crate::error::{Failure, Fatal, NonFatalError};
use crate::event::{json_events, Event, EventSource, EventView};
use crate::network::{
    lemma_net_walk_shorter, net_start, network_of, process_in_network, ref_tuples, NetResult,
};
use crate::notices::{texts, Notices, NoticesView};
use crate::providers::{
    lemma_refs_walk_shorter, missing_gid_message, process_provider_refs, refs_of, refs_start,
};
use crate::query::{some_group_known, text_of, upper_codes, Query, QueryView};
use crate::skip::{
    array_end, bypass_key, bypassed, lemma_array_end_shorter, lemma_bypassed_shorter, skip_array,
};
use crate::text::same_text;
use flate2::read::GzDecoder;
use vstd::prelude::*;

verus! {

/// Tracks the metadata of the file: four optional strings.
#[derive(Debug)]
pub struct Meta {
    pub reporting_entity_name: Option<String>,
    pub reporting_entity_type: Option<String>,
    pub last_updated_on: Option<String>,
    pub version: Option<String>,
}

/// What a [`Meta`] stands for in contracts.
pub struct MetaView {
    pub reporting_entity_name: Option<Seq<char>>,
    pub reporting_entity_type: Option<Seq<char>>,
    pub last_updated_on: Option<Seq<char>>,
    pub version: Option<Seq<char>>,
}

/// Whether `key` is one of the four keys of the metadata.
pub open spec fn is_meta_key(key: Seq<char>) -> bool {
    key == "reporting_entity_name"@ || key == "reporting_entity_type"@ || key
        == "last_updated_on"@ || key == "version"@
}

/// The line of one field of the metadata, if the field is filled.
pub open spec fn meta_line(label: Seq<char>, field: Option<Seq<char>>) -> Seq<Seq<char>> {
    match field {
        Some(s) => seq![label + s],
        None => Seq::empty(),
    }
}

impl MetaView {
    /// The metadata with no field filled.
    pub open spec fn empty() -> MetaView {
        MetaView {
            reporting_entity_name: None,
            reporting_entity_type: None,
            last_updated_on: None,
            version: None,
        }
    }

    /// The metadata after `value` was met under `key`.
    pub open spec fn added(self, key: Seq<char>, value: Seq<char>) -> MetaView {
        if key == "reporting_entity_name"@ {
            MetaView { reporting_entity_name: Some(value), ..self }
        } else if key == "reporting_entity_type"@ {
            MetaView { reporting_entity_type: Some(value), ..self }
        } else if key == "last_updated_on"@ {
            MetaView { last_updated_on: Some(value), ..self }
        } else if key == "version"@ {
            MetaView { version: Some(value), ..self }
        } else {
            self
        }
    }

    /// The number of fields that are filled.
    pub open spec fn filled(self) -> nat {
        (if self.reporting_entity_name is Some {
            1nat
        } else {
            0nat
        }) + (if self.reporting_entity_type is Some {
            1nat
        } else {
            0nat
        }) + (if self.last_updated_on is Some {
            1nat
        } else {
            0nat
        }) + (if self.version is Some {
            1nat
        } else {
            0nat
        })
    }

    /// The lines that show the metadata: one for each field that is filled.
    pub open spec fn lines(self) -> Seq<Seq<char>> {
        meta_line("reporting_entity_name: "@, self.reporting_entity_name) + meta_line(
            "reporting_entity_type: "@,
            self.reporting_entity_type,
        ) + meta_line("last_updated_on: "@, self.last_updated_on) + meta_line(
            "version: "@,
            self.version,
        )
    }
}

/// The notices after a field of the metadata was met: the metadata is shown
/// when that field was the last of the four to be filled.
pub open spec fn meta_noted(notices: NoticesView, before: MetaView, after: MetaView) -> NoticesView {
    if before.filled() < 4 && after.filled() == 4 {
        NoticesView { lines: notices.lines + after.lines(), ..notices }
    } else {
        notices
    }
}

impl View for Meta {
    type V = MetaView;

    open spec fn view(&self) -> MetaView {
        MetaView {
            reporting_entity_name: text_of(self.reporting_entity_name),
            reporting_entity_type: text_of(self.reporting_entity_type),
            last_updated_on: text_of(self.last_updated_on),
            version: text_of(self.version),
        }
    }
}

/// Adds the line of one field to `lines`, if the field is filled.
fn push_meta_line(lines: &mut Vec<String>, label: &str, field: &Option<String>)
    ensures
        texts(final(lines)@) == texts(old(lines)@) + meta_line(label@, text_of(*field)),
{
    match field {
        Some(s) => {
            let mut line = String::from_str(label);
            line.append(s.as_str());
            lines.push(line);
            assert(texts(lines@) =~= texts(old(lines)@) + meta_line(label@, text_of(*field)));
        },
        None => {
            assert(texts(lines@) =~= texts(old(lines)@) + meta_line(label@, text_of(*field)));
        },
    }
}

impl Meta {
    /// Creates a Meta with no field filled.
    pub fn new() -> (r: Self)
        ensures
            r@ == MetaView::empty(),
    {
        Meta {
            reporting_entity_name: None,
            reporting_entity_type: None,
            last_updated_on: None,
            version: None,
        }
    }

    /// The number of fields that are filled.
    pub fn count(&self) -> (r: u8)
        ensures
            r == self@.filled(),
    {
        let mut n: u8 = 0;
        if self.reporting_entity_name.is_some() {
            n = n + 1;
        }
        if self.reporting_entity_type.is_some() {
            n = n + 1;
        }
        if self.last_updated_on.is_some() {
            n = n + 1;
        }
        if self.version.is_some() {
            n = n + 1;
        }
        n
    }

    /// The lines that show the metadata.
    pub fn e_print(&self) -> (r: Vec<String>)
        ensures
            texts(r@) == self@.lines(),
    {
        let mut lines: Vec<String> = Vec::new();
        assert(texts(lines@) =~= Seq::empty());
        push_meta_line(&mut lines, "reporting_entity_name: ", &self.reporting_entity_name);
        push_meta_line(&mut lines, "reporting_entity_type: ", &self.reporting_entity_type);
        push_meta_line(&mut lines, "last_updated_on: ", &self.last_updated_on);
        push_meta_line(&mut lines, "version: ", &self.version);
        assert(texts(lines@) =~= self@.lines());
        lines
    }

    /// Stores `value` in the field that `key` names, and shows the metadata in
    /// `notices` when all its fields have been filled.
    pub fn add(&mut self, key: &str, value: &str, notices: &mut Notices)
        requires
            is_meta_key(key@),
        ensures
            final(self)@ == old(self)@.added(key@, value@),
            final(notices)@ == meta_noted(old(notices)@, old(self)@, final(self)@),
    {
        let before = self.count();
        if same_text(key, "reporting_entity_name") {
            self.reporting_entity_name = Some(String::from_str(value));
        } else if same_text(key, "reporting_entity_type") {
            self.reporting_entity_type = Some(String::from_str(value));
        } else if same_text(key, "last_updated_on") {
            self.last_updated_on = Some(String::from_str(value));
        } else {
            self.version = Some(String::from_str(value));
        }
        if before < 4 && self.count() == 4 {
            let mut lines = self.e_print();
            let ghost held = texts(notices.lines@);
            let ghost added = texts(lines@);
            notices.lines.append(&mut lines);
            assert(texts(notices.lines@) =~= held + added);
        }
    }
}

/// The state of the walk over the top level of the document.
pub struct RunState {
    pub depth: nat,
    pub meta: MetaView,
    pub meta_key: Option<Seq<char>>,
    pub providers_seen: bool,
    pub network_seen: bool,
    pub needs_reset: bool,
    pub non_fatal: bool,
    pub query: QueryView,
    pub out: Seq<char>,
    pub notices: NoticesView,
}

/// The state at the start of a run.
pub open spec fn run_start(query: QueryView, out: Seq<char>, notices: NoticesView) -> RunState {
    RunState {
        depth: 0,
        meta: MetaView::empty(),
        meta_key: None,
        providers_seen: false,
        network_seen: false,
        needs_reset: false,
        non_fatal: false,
        query,
        out,
        notices,
    }
}

/// What a run comes to: the query, the output, the notices, and whether a
/// non-fatal error was met.
pub type RunResult = (QueryView, Seq<char>, NoticesView, bool);

/// The result of a run that ends in state `st`.
pub open spec fn run_result(st: RunState) -> RunResult {
    (st.query, st.out, st.notices, st.non_fatal)
}

/// What a run that fails in state `st` leaves behind.
pub open spec fn run_left(st: RunState) -> NetResult {
    (st.query, st.out, st.notices)
}

/// What one step of the run comes to.
pub enum Turn {
    /// The run goes on over the events that are left.
    Next(Seq<EventView>, RunState),
    /// The run goes on at the start of the document.
    Restart(RunState),
    /// The run is over.
    Done(RunResult),
    /// The run fails, and leaves behind what it had changed.
    Fail(Fatal, NetResult),
}

/// The line that tells that the file holds none of the providers.
pub open spec fn no_providers_line() -> Seq<char> {
    "No providers from query found in file."@
}

/// One step of the run, on the first of the events `ev`.
pub open spec fn run_step(ev: Seq<EventView>, st: RunState) -> Turn
    recommends
        ev.len() > 0,
{
    let rest = ev.skip(1);
    match ev[0] {
        EventView::StartObject => Turn::Next(rest, RunState { depth: st.depth + 1, ..st }),
        EventView::EndObject => if st.depth == 0 {
            Turn::Fail(Fatal::MalformedInput, run_left(st))
        } else if !st.providers_seen || !st.network_seen {
            Turn::Fail(Fatal::MissingArray, run_left(st))
        } else if st.depth > 1 {
            Turn::Next(rest, RunState { depth: (st.depth - 1) as nat, ..st })
        } else if st.needs_reset {
            Turn::Restart(RunState { depth: 0, needs_reset: false, ..st })
        } else {
            Turn::Done(run_result(st))
        },
        EventView::ObjectKey(key) => if st.depth != 1 {
            Turn::Next(rest, st)
        } else if is_meta_key(key) {
            Turn::Next(rest, RunState { meta_key: Some(key), ..st })
        } else if key == "provider_references"@ {
            if st.providers_seen {
                // The providers are known: the array is passed over.
                match bypassed(rest) {
                    Ok(after) => Turn::Next(after, st),
                    Err(f) => Turn::Fail(f, run_left(st)),
                }
            } else {
                match refs_of(rest, st.query.providers, st.notices) {
                    Ok(((providers, non_fatal, notices), after)) => {
                        let next = RunState {
                            providers_seen: true,
                            non_fatal: st.non_fatal || non_fatal,
                            query: QueryView { providers, ..st.query },
                            notices,
                            ..st
                        };
                        if some_group_known(providers) {
                            Turn::Next(after, next)
                        } else {
                            // Nothing is left to look for.
                            Turn::Done(
                                run_result(
                                    RunState {
                                        notices: notices.noted(no_providers_line()),
                                        ..next
                                    },
                                ),
                            )
                        }
                    },
                    Err((f, (providers, notices))) => Turn::Fail(
                        f,
                        (QueryView { providers, ..st.query }, st.out, notices),
                    ),
                }
            }
        } else if key == "in_network"@ {
            if !st.providers_seen {
                match array_end(rest, 0) {
                    Ok(after) => Turn::Next(
                        after,
                        RunState { network_seen: true, needs_reset: true, ..st },
                    ),
                    Err(f) => Turn::Fail(f, run_left(st)),
                }
            } else {
                match network_of(rest, st.query, st.out, st.notices) {
                    Ok(((query, out, notices), after)) => Turn::Next(
                        after,
                        RunState { network_seen: true, query, out, notices, ..st },
                    ),
                    Err((f, e)) => Turn::Fail(f, e),
                }
            }
        } else {
            match bypassed(rest) {
                Ok(after) => Turn::Next(
                    after,
                    RunState { notices: st.notices.unsupported(key, "top level"@), ..st },
                ),
                Err(f) => Turn::Fail(
                    f,
                    (st.query, st.out, st.notices.unsupported(key, "top level"@)),
                ),
            }
        },
        EventView::String(value) => if st.depth != 1 {
            Turn::Next(rest, st)
        } else {
            match st.meta_key {
                Some(key) => Turn::Next(
                    rest,
                    RunState {
                        meta: st.meta.added(key, value),
                        meta_key: None,
                        notices: meta_noted(st.notices, st.meta, st.meta.added(key, value)),
                        ..st
                    },
                ),
                None => Turn::Fail(Fatal::UndefinedState, run_left(st)),
            }
        },
        EventView::Eof => Turn::Fail(Fatal::MalformedInput, run_left(st)),
        _ => Turn::Next(rest, st),
    }
}

/// The number of times that the run may still go back to the start of the
/// document: once, as long as the providers have not been seen or the
/// `in_network` array was skipped; then never.
pub open spec fn restarts_left(st: RunState) -> nat {
    if st.needs_reset || !st.providers_seen {
        1
    } else {
        0
    }
}

/// Every step of the run uses up an event or a restart, and no step gives a
/// restart back: the document is walked twice at most.
pub proof fn lemma_run_step_decreases(ev: Seq<EventView>, st: RunState)
    requires
        ev.len() > 0,
    ensures
        match run_step(ev, st) {
            Turn::Next(rest, next) => rest.len() < ev.len() && restarts_left(next)
                <= restarts_left(st),
            Turn::Restart(next) => restarts_left(next) < restarts_left(st),
            _ => true,
        },
{
    let rest = ev.skip(1);
    reveal(refs_of);
    reveal(network_of);
    lemma_bypassed_shorter(rest);
    lemma_array_end_shorter(rest, 0);
    lemma_refs_walk_shorter(rest, refs_start(st.query.providers, st.notices));
    lemma_net_walk_shorter(
        rest,
        net_start(st.query, st.out, st.notices),
        upper_codes(st.query.codes),
        ref_tuples(st.query.providers),
    );
}

/// The run from state `st` over the events `ev` of the document `doc`: step
/// by step to the end of the document. The input ending before that is
/// malformed.
pub open spec fn run_walk(doc: Seq<EventView>, ev: Seq<EventView>, st: RunState) -> Result<
    RunResult,
    (Fatal, NetResult),
>
    decreases restarts_left(st), ev.len(),
{
    if ev.len() == 0 {
        Err((Fatal::MalformedInput, run_left(st)))
    } else {
        match run_step(ev, st) {
            Turn::Next(rest, next) => {
                proof {
                    lemma_run_step_decreases(ev, st);
                }
                run_walk(doc, rest, next)
            },
            Turn::Restart(next) => {
                proof {
                    lemma_run_step_decreases(ev, st);
                }
                run_walk(doc, doc, next)
            },
            Turn::Done(r) => Ok(r),
            Turn::Fail(f, e) => Err((f, e)),
        }
    }
}

/// What the run over a document of the events `doc` comes to.
pub open spec fn run_of(
    doc: Seq<EventView>,
    query: QueryView,
    out: Seq<char>,
    notices: NoticesView,
) -> Result<RunResult, (Fatal, NetResult)> {
    run_walk(doc, doc, run_start(query, out, notices))
}

/// Whether `r` is the result that a run owes for the outcome `run`: the
/// fatal error, or the non-fatal error if one was met, or success.
pub open spec fn is_outcome(r: Result<(), Failure>, run: Result<RunResult, (Fatal, NetResult)>) -> bool {
    match run {
        Ok((_, _, _, non_fatal)) => if non_fatal {
            r matches Err(Failure::NonFatal(e)) && e.0@ == missing_gid_message()
        } else {
            r is Ok
        },
        Err((f, _)) => r matches Err(Failure::Fatal(g)) && g == f,
    }
}

/// What a run leaves behind, whether it ends well or not: the query, the
/// output and the notices.
pub open spec fn left_by(run: Result<RunResult, (Fatal, NetResult)>) -> NetResult {
    match run {
        Ok((q, text, n, _)) => (q, text, n),
        Err((_, e)) => e,
    }
}

/// Whether a key is one of the four keys of the metadata.
fn meta_key_known(key: &str) -> (r: bool)
    ensures
        r == is_meta_key(key@),
{
    same_text(key, "reporting_entity_name") || same_text(key, "reporting_entity_type")
        || same_text(key, "last_updated_on") || same_text(key, "version")
}

/// The result of a run that came to its end.
fn finish(non_fatal: bool) -> (r: Result<(), Failure>)
    ensures
        if non_fatal {
            r matches Err(Failure::NonFatal(e)) && e.0@ == missing_gid_message()
        } else {
            r is Ok
        },
{
    if non_fatal {
        Err(
            Failure::NonFatal(
                NonFatalError(String::from_str("Non fatal error in asa::process_provider_refs")),
            ),
        )
    } else {
        Ok(())
    }
}

/// Processes the query over the JSON document `doc`: looks for matching
/// records, writes them as rows of text to `out`, records in the query what
/// had a match, and keeps the diagnostics in `notices`.
#[verifier::loop_isolation(false)]
#[verifier::rlimit(60)]
pub fn process_document(
    query: &mut Query,
    doc: &[u8],
    out: &mut String,
    notices: &mut Notices,
) -> (r: Result<(), Failure>)
    ensures
        is_outcome(r, run_of(json_events(doc@), old(query)@, old(out)@, old(notices)@)),
        (final(query)@, final(out)@, final(notices)@) == left_by(
            run_of(json_events(doc@), old(query)@, old(out)@, old(notices)@),
        ),
{
    let ghost events = json_events(doc@);
    let ghost first = run_start(query@, out@, notices@);
    let mut source = EventSource::new(doc);
    let mut depth: u64 = 0;
    let mut metadata = Meta::new();
    let mut meta_key: Option<String> = None;
    let mut providers_seen: bool = false;
    let mut network_seen: bool = false;
    let mut needs_reset: bool = false;
    let mut non_fatal: bool = false;
    loop
        invariant
            source.wf(),
            events.len() <= usize::MAX,
            depth + source.pending().len() <= events.len(),
            meta_key matches Some(k) ==> is_meta_key(k@),
            run_walk(events, events, first) == run_walk(
                events,
                source.pending(),
                RunState {
                    depth: depth as nat,
                    meta: metadata@,
                    meta_key: text_of(meta_key),
                    providers_seen,
                    network_seen,
                    needs_reset,
                    non_fatal,
                    query: query@,
                    out: out@,
                    notices: notices@,
                },
            ),
        decreases
                (if needs_reset || !providers_seen {
                    1nat
                } else {
                    0nat
                }),
                source.pending().len(),
    {
        let ghost ev = source.pending();
        let ghost st = RunState {
            depth: depth as nat,
            meta: metadata@,
            meta_key: text_of(meta_key),
            providers_seen,
            network_seen,
            needs_reset,
            non_fatal,
            query: query@,
            out: out@,
            notices: notices@,
        };
        let e = match source.next_event() {
            Some(e) => e,
            None => {
                return Err(Failure::Fatal(Fatal::MalformedInput));
            },
        };
        proof {
            lemma_run_step_decreases(ev, st);
        }
        match e {
            Event::StartObject => {
                depth = depth + 1;
            },
            Event::EndObject => {
                if depth == 0 {
                    return Err(Failure::Fatal(Fatal::MalformedInput));
                }
                if !providers_seen || !network_seen {
                    return Err(Failure::Fatal(Fatal::MissingArray));
                }
                depth = depth - 1;
                if depth == 0 {
                    if !needs_reset {
                        return finish(non_fatal);
                    }
                    source = EventSource::new(doc);
                    needs_reset = false;
                }
            },
            Event::ObjectKey(key) => {
                if depth != 1 {
                } else if meta_key_known(key.as_str()) {
                    meta_key = Some(key);
                } else if same_text(key.as_str(), "provider_references") {
                    if providers_seen {
                        match bypass_key(&mut source) {
                            Ok(()) => {},
                            Err(f) => {
                                return Err(Failure::Fatal(f));
                            },
                        }
                    } else {
                        providers_seen = true;
                        match process_provider_refs(&mut source, query, notices) {
                            Ok(()) => {},
                            Err(Failure::NonFatal(_)) => {
                                non_fatal = true;
                            },
                            Err(Failure::Fatal(f)) => {
                                return Err(Failure::Fatal(f));
                            },
                        }
                        if !query.stat_providers() {
                            notices.note(
                                String::from_str("No providers from query found in file."),
                            );
                            return finish(non_fatal);
                        }
                    }
                } else if same_text(key.as_str(), "in_network") {
                    network_seen = true;
                    if !providers_seen {
                        match skip_array(&mut source, 0) {
                            Ok(()) => {},
                            Err(f) => {
                                return Err(Failure::Fatal(f));
                            },
                        }
                        needs_reset = true;
                    } else {
                        match process_in_network(&mut source, query, out, notices) {
                            Ok(()) => {},
                            Err(f) => {
                                return Err(Failure::Fatal(f));
                            },
                        }
                    }
                } else {
                    notices.unsupported(key.as_str(), "top level");
                    match bypass_key(&mut source) {
                        Ok(()) => {},
                        Err(f) => {
                            return Err(Failure::Fatal(f));
                        },
                    }
                }
            },
            Event::String(value) => {
                if depth == 1 {
                    match meta_key {
                        Some(key) => {
                            metadata.add(key.as_str(), value.as_str(), notices);
                            meta_key = None;
                        },
                        None => {
                            return Err(Failure::Fatal(Fatal::UndefinedState));
                        },
                    }
                }
            },
            Event::Eof => {
                return Err(Failure::Fatal(Fatal::MalformedInput));
            },
            _ => {},
        }
    }
}

/// What a gzip member holds once it is decoded, or `None` where the data is
/// no gzip member or does not decode.
pub uninterp spec fn inflated(data: Seq<u8>) -> Option<Seq<u8>>;

#[verifier::external_type_specification]
#[verifier::external_body]
pub struct ExIoError(std::io::Error);

/// `GzDecoder::new` and the `read_to_end` of the decoder: all the bytes that
/// the gzip data decode to, or the error of the decoder.
#[verifier::external_body]
fn gunzip(data: &[u8]) -> (r: Result<Vec<u8>, std::io::Error>)
    ensures
        match r {
            Ok(doc) => inflated(data@) == Some(doc@),
            Err(_) => inflated(data@) is None,
        },
{
    let mut doc = Vec::new();
    match std::io::Read::read_to_end(&mut GzDecoder::new(data), &mut doc) {
        Ok(_) => Ok(doc),
        Err(e) => Err(e),
    }
}

/// What the run over gzip data comes to: the run over the document that the
/// data decode to, or the failure to decode them.
pub open spec fn run_of_gzip(
    data: Seq<u8>,
    query: QueryView,
    out: Seq<char>,
    notices: NoticesView,
) -> Result<RunResult, (Fatal, NetResult)> {
    match inflated(data) {
        Some(doc) => run_of(json_events(doc), query, out, notices),
        None => Err((Fatal::BadCompression, (query, out, notices))),
    }
}

/// Processes the query by looking for matching records in the gzip
/// compressed JSON document `data`. Writes the results as rows of text to
/// `out` and the diagnostics to `notices`.
pub fn run(query: &mut Query, data: &[u8], out: &mut String, notices: &mut Notices) -> (r: Result<
    (),
    Failure,
>)
    ensures
        is_outcome(r, run_of_gzip(data@, old(query)@, old(out)@, old(notices)@)),
        (final(query)@, final(out)@, final(notices)@) == left_by(
            run_of_gzip(data@, old(query)@, old(out)@, old(notices)@),
        ),
{
    match gunzip(data) {
        Ok(doc) => process_document(query, doc.as_slice(), out, notices),
        Err(_) => Err(Failure::Fatal(Fatal::BadCompression)),
    }
}

} // verus!
