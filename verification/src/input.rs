//! The query file: headers that name a mode, and indented items under them.

use crate::query::{fresh_provider, Code, CodeView, Provider, Query, QueryView};
use crate::text::{parse_u64, parsed_u64, same_text};
use vstd::prelude::*;

verus! {

/// Whether `c` is white space, as Unicode defines it.
pub open spec fn is_space(c: char) -> bool {
    ||| '\u{9}' <= c <= '\u{d}'
    ||| c == ' '
    ||| c == '\u{85}'
    ||| c == '\u{a0}'
    ||| c == '\u{1680}'
    ||| '\u{2000}' <= c <= '\u{200a}'
    ||| c == '\u{2028}'
    ||| c == '\u{2029}'
    ||| c == '\u{202f}'
    ||| c == '\u{205f}'
    ||| c == '\u{3000}'
}

/// Whether `c` is white space.
pub fn is_white_space(c: char) -> (r: bool)
    ensures
        r == is_space(c),
{
    ('\u{9}' <= c && c <= '\u{d}') || c == ' ' || c == '\u{85}' || c == '\u{a0}' || c
        == '\u{1680}' || ('\u{2000}' <= c && c <= '\u{200a}') || c == '\u{2028}' || c
        == '\u{2029}' || c == '\u{202f}' || c == '\u{205f}' || c == '\u{3000}'
}

/// `s` without the white space that it starts with.
pub open spec fn trimmed_start(s: Seq<char>) -> Seq<char>
    decreases s.len(),
{
    if s.len() > 0 && is_space(s[0]) {
        trimmed_start(s.skip(1))
    } else {
        s
    }
}

/// `s` without the white space that it ends with.
pub open spec fn trimmed_end(s: Seq<char>) -> Seq<char>
    decreases s.len(),
{
    if s.len() > 0 && is_space(s.last()) {
        trimmed_end(s.drop_last())
    } else {
        s
    }
}

/// `s` without the white space around it.
pub open spec fn trimmed(s: Seq<char>) -> Seq<char> {
    trimmed_end(trimmed_start(s))
}

/// `str::trim`: the text with leading and trailing white space removed.
#[verifier::external_body]
fn trim(s: &str) -> (r: &str)
    ensures
        r@ == trimmed(s@),
{
    s.trim()
}

/// What the items under the last header are.
#[derive(Debug, Clone, Copy, PartialEq, Eq, Structural)]
pub enum Mode {
    BillingCode,
    Npi,
    Undefined,
}

/// Why a query file is refused.
#[derive(Debug, Clone, Copy, PartialEq, Eq, Structural)]
pub enum InputError {
    /// An item came before either a code type or the npi specifier.
    ItemBeforeHeader,
    /// An item under the npi specifier is no unsigned 64-bit number.
    BadNpi,
}

/// The state of reading a query file.
pub struct InputState {
    pub mode: Mode,
    pub c_type: Seq<char>,
    pub query: QueryView,
}

/// The state before the first line: no mode, and an empty query.
pub open spec fn input_start() -> InputState {
    InputState {
        mode: Mode::Undefined,
        c_type: Seq::empty(),
        query: QueryView { providers: Seq::empty(), codes: Seq::empty() },
    }
}

/// A code of the query as it is read: neither seen nor recorded.
pub open spec fn fresh_code(c_type: Seq<char>, value: Seq<char>) -> CodeView {
    CodeView { code_type: c_type, value, seen: false, recorded: false }
}

/// The state after one line. An empty line changes nothing. A line that
/// starts with white space is an item of the current mode: a code value, or
/// an npi. Any other line is a header: `npi`, or a code type.
pub open spec fn input_step(line: Seq<char>, st: InputState) -> Result<InputState, InputError> {
    if line.len() == 0 {
        Ok(st)
    } else if is_space(line[0]) {
        match st.mode {
            Mode::BillingCode => Ok(
                InputState {
                    query: QueryView {
                        codes: st.query.codes.push(fresh_code(st.c_type, trimmed(line))),
                        ..st.query
                    },
                    ..st
                },
            ),
            Mode::Npi => match parsed_u64(trimmed(line)) {
                Some(npi) => Ok(
                    InputState {
                        query: QueryView {
                            providers: st.query.providers.push(fresh_provider(npi)),
                            ..st.query
                        },
                        ..st
                    },
                ),
                None => Err(InputError::BadNpi),
            },
            Mode::Undefined => Err(InputError::ItemBeforeHeader),
        }
    } else if trimmed(line) == "npi"@ {
        Ok(InputState { mode: Mode::Npi, ..st })
    } else {
        Ok(InputState { mode: Mode::BillingCode, c_type: trimmed(line), ..st })
    }
}

/// The query that the lines give from state `st`, or the first error.
pub open spec fn input_walk(lines: Seq<Seq<char>>, st: InputState) -> Result<QueryView, InputError>
    decreases lines.len(),
{
    if lines.len() == 0 {
        Ok(st.query)
    } else {
        match input_step(lines[0], st) {
            Ok(next) => input_walk(lines.skip(1), next),
            Err(e) => Err(e),
        }
    }
}

/// The query that the lines of a query file give.
pub open spec fn query_of(lines: Seq<Seq<char>>) -> Result<QueryView, InputError> {
    input_walk(lines, input_start())
}

/// Reads the user supplied input, line by line, and returns the query.
pub fn read_input(lines: &Vec<String>) -> (r: Result<Query, InputError>)
    ensures
        match query_of(crate::notices::texts(lines@)) {
            Ok(q) => r is Ok && r->Ok_0@ == q,
            Err(e) => r == Err::<Query, InputError>(e),
        },
{
    let ghost all = crate::notices::texts(lines@);
    let mut state = Mode::Undefined;
    let mut c_type = String::new();
    let mut query = Query::new();
    let mut i: usize = 0;
    assert(all.skip(0) =~= all);
    assert(query@.providers =~= Seq::empty() && query@.codes =~= Seq::empty());
    while i < lines.len()
        invariant
            i <= lines.len(),
            all == crate::notices::texts(lines@),
            input_walk(all, input_start()) == input_walk(
                all.skip(i as int),
                InputState { mode: state, c_type: c_type@, query: query@ },
            ),
        decreases lines.len() - i,
    {
        let line = lines[i].as_str();
        proof {
            assert(all.skip(i as int)[0] == line@);
            assert(all.skip(i as int).skip(1) =~= all.skip(i + 1));
        }
        if !line.is_empty() {
            let first = line.get_char(0);
            if is_white_space(first) {
                let item = trim(line);
                match state {
                    Mode::BillingCode => {
                        let ghost held = query@.codes;
                        let code = Code::new(&c_type, &String::from_str(item));
                        query.codes.push(code);
                        assert(query@.codes =~= held.push(fresh_code(c_type@, item@)));
                    },
                    Mode::Npi => {
                        match parse_u64(item) {
                            Some(npi_val) => {
                                let ghost held = query@.providers;
                                query.providers.push(Provider::new(npi_val));
                                assert(query@.providers =~= held.push(fresh_provider(npi_val)));
                            },
                            None => {
                                return Err(InputError::BadNpi);
                            },
                        }
                    },
                    Mode::Undefined => {
                        return Err(InputError::ItemBeforeHeader);
                    },
                }
            } else {
                let header = trim(line);
                if same_text(header, "npi") {
                    state = Mode::Npi;
                } else {
                    c_type = String::from_str(header);
                    state = Mode::BillingCode;
                }
            }
        }
        i = i + 1;
    }
    Ok(query)
}

} // verus!
