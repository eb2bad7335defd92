//! The query: the providers and billing codes that the user asks for, and the
//! lookup structures built from them.

use crate::notices::texts;
use crate::text::{
    ascii_upper, decimal_string, decimal_text, same_ignoring_case, same_text,
    same_text_ignoring_case, to_upper,
};
use std::collections::{HashMap, HashSet};

pub use crate::input::read_input;
use vstd::prelude::*;

verus! {

broadcast use vstd::std_specs::hash::group_hash_axioms;

/// Used to hold billing code information specified in the query.
#[derive(Clone, Debug, PartialEq)]
pub struct Code {
    pub code_type: String,
    pub value: String,
    pub seen: bool,
    pub recorded: bool,
}

/// What a [`Code`] stands for in contracts.
pub struct CodeView {
    pub code_type: Seq<char>,
    pub value: Seq<char>,
    pub seen: bool,
    pub recorded: bool,
}

impl View for Code {
    type V = CodeView;

    open spec fn view(&self) -> CodeView {
        CodeView {
            code_type: self.code_type@,
            value: self.value@,
            seen: self.seen,
            recorded: self.recorded,
        }
    }
}

/// The warning for a code that had no match in the data.
pub open spec fn code_warning(c: CodeView) -> Seq<char> {
    "\nWARNING: No match found for Code\n  Type: "@ + c.code_type + "   Value: "@ + c.value
}

impl Code {
    /// Creates a new Code with the given code type and code value, neither
    /// seen nor recorded.
    pub fn new(c_type: &String, c_value: &String) -> (r: Self)
        ensures
            r@ == (CodeView { code_type: c_type@, value: c_value@, seen: false, recorded: false }),
    {
        Code { code_type: c_type.clone(), value: c_value.clone(), seen: false, recorded: false }
    }

    /// The warning about a code that did not have a match in the data.
    pub fn eprint_no_match(&self) -> (r: String)
        ensures
            r@ == code_warning(self@),
    {
        let mut r = String::from_str("\nWARNING: No match found for Code\n  Type: ");
        r.append(self.code_type.as_str());
        r.append("   Value: ");
        r.append(self.value.as_str());
        r
    }
}

/// Used to hold a medical provider's npi specified in the input, with the
/// group and the tin that the data gave for it.
#[derive(Clone, Debug, PartialEq)]
pub struct Provider {
    pub npi: u64,
    pub group_id: Option<u64>,
    pub tin_type: Option<String>,
    pub tin_value: Option<String>,
    pub needs_tin: bool,
    pub needs_gid: bool,
    pub recorded: bool,
}

/// What a [`Provider`] stands for in contracts.
pub struct ProviderView {
    pub npi: u64,
    pub group_id: Option<u64>,
    pub tin_type: Option<Seq<char>>,
    pub tin_value: Option<Seq<char>>,
    pub needs_tin: bool,
    pub needs_gid: bool,
    pub recorded: bool,
}

/// The text of an optional string.
pub open spec fn text_of(s: Option<String>) -> Option<Seq<char>> {
    match s {
        Some(t) => Some(t@),
        None => None,
    }
}

impl View for Provider {
    type V = ProviderView;

    open spec fn view(&self) -> ProviderView {
        ProviderView {
            npi: self.npi,
            group_id: self.group_id,
            tin_type: text_of(self.tin_type),
            tin_value: text_of(self.tin_value),
            needs_tin: self.needs_tin,
            needs_gid: self.needs_gid,
            recorded: self.recorded,
        }
    }
}

/// A provider of which only the npi is known.
pub open spec fn fresh_provider(npi: u64) -> ProviderView {
    ProviderView {
        npi,
        group_id: None,
        tin_type: None,
        tin_value: None,
        needs_tin: false,
        needs_gid: false,
        recorded: false,
    }
}

/// The text that `Debug` writes for an optional string.
pub uninterp spec fn debug_text(s: Option<Seq<char>>) -> Seq<char>;

/// `format!` with `{:?}`: the `Debug` text of an optional string. The text
/// depends on the string alone.
#[verifier::external_body]
fn format_debug(s: &Option<String>) -> (r: String)
    ensures
        r@ == debug_text(text_of(*s)),
{
    format!("{:?}", s)
}

/// The text of an optional group: `Some` with the number in brackets, or
/// `None`.
pub open spec fn group_text(group_id: Option<u64>) -> Seq<char> {
    match group_id {
        Some(g) => "Some("@ + decimal_text(g as nat) + ")"@,
        None => "None"@,
    }
}

/// The warning for a provider record that had no match in the data: the
/// npi, the group, and the tin type and tin value as `Debug` writes them.
pub open spec fn provider_warning(
    npi: u64,
    group_id: Option<u64>,
    tin_type: Option<Seq<char>>,
    tin_value: Option<Seq<char>>,
) -> Seq<char> {
    "\nWARNING: No match found for Provider\n  npi: "@ + decimal_text(npi as nat)
        + "\n  group_id: "@ + group_text(group_id) + "\n  tin_type: "@ + debug_text(tin_type)
        + "\n  tin_value: "@ + debug_text(tin_value) + "\n"@
}

impl Provider {
    /// Creates a new Provider with the given npi, nothing else known of it.
    pub fn new(npi_val: u64) -> (r: Self)
        ensures
            r@ == fresh_provider(npi_val),
    {
        Provider {
            npi: npi_val,
            group_id: None,
            tin_type: None,
            tin_value: None,
            needs_tin: false,
            needs_gid: false,
            recorded: false,
        }
    }

    /// The warning that there were no matches for this npi, group id, tin type
    /// and tin value.
    pub fn eprint_no_match(&self) -> (r: String)
        ensures
            r@ == provider_warning(
                self@.npi,
                self@.group_id,
                self@.tin_type,
                self@.tin_value,
            ),
    {
        let mut r = String::from_str("\nWARNING: No match found for Provider\n  npi: ");
        r.append(decimal_string(self.npi).as_str());
        r.append("\n  group_id: ");
        match self.group_id {
            Some(g) => {
                r.append("Some(");
                r.append(decimal_string(g).as_str());
                r.append(")");
            },
            None => {
                r.append("None");
            },
        }
        r.append("\n  tin_type: ");
        r.append(format_debug(&self.tin_type).as_str());
        r.append("\n  tin_value: ");
        r.append(format_debug(&self.tin_value).as_str());
        r.append("\n");
        assert(r@ =~= provider_warning(
            self@.npi,
            self@.group_id,
            self@.tin_type,
            self@.tin_value,
        ));
        r
    }
}

/// What a sequence of providers stands for in contracts.
pub open spec fn provider_views(v: Seq<Provider>) -> Seq<ProviderView> {
    v.map_values(|p: Provider| p@)
}

/// What a sequence of codes stands for in contracts.
pub open spec fn code_views(v: Seq<Code>) -> Seq<CodeView> {
    v.map_values(|c: Code| c@)
}

/// Holds the providers and the codes of the user query.
#[derive(Clone, Debug, PartialEq)]
pub struct Query {
    pub providers: Vec<Provider>,
    pub codes: Vec<Code>,
}

/// What a [`Query`] stands for in contracts.
pub struct QueryView {
    pub providers: Seq<ProviderView>,
    pub codes: Seq<CodeView>,
}

impl View for Query {
    type V = QueryView;

    open spec fn view(&self) -> QueryView {
        QueryView { providers: provider_views(self.providers@), codes: code_views(self.codes@) }
    }
}

/// The npis of a sequence of providers.
pub open spec fn npis(providers: Seq<ProviderView>) -> Set<u64> {
    Set::new(|n: u64| exists|i: int| 0 <= i < providers.len() && #[trigger] providers[i].npi == n)
}

/// The code values of a sequence of codes, in ASCII upper case.
pub open spec fn upper_codes(codes: Seq<CodeView>) -> Set<Seq<char>> {
    Set::new(
        |c: Seq<char>|
            exists|i: int| 0 <= i < codes.len() && ascii_upper(#[trigger] codes[i].value) == c,
    )
}

/// Whether group, tin type and tin value of a provider are all known.
pub open spec fn is_complete(p: ProviderView) -> bool {
    p.group_id is Some && p.tin_type is Some && p.tin_value is Some
}

/// The provider tuple of a complete provider: `npi,tin_type,tin_value`.
pub open spec fn tuple_text(p: ProviderView) -> Seq<char>
    recommends
        is_complete(p),
{
    decimal_text(p.npi as nat) + ","@ + p.tin_type->0 + ","@ + p.tin_value->0
}

/// The provider tuples of the complete providers of group `gid`, in the order
/// of the providers.
pub open spec fn tuples_for(providers: Seq<ProviderView>, gid: u64) -> Seq<Seq<char>>
    decreases providers.len(),
{
    if providers.len() == 0 {
        Seq::empty()
    } else {
        let before = tuples_for(providers.drop_last(), gid);
        let p = providers.last();
        if is_complete(p) && p.group_id == Some(gid) {
            before.push(tuple_text(p))
        } else {
            before
        }
    }
}

/// Whether `m` maps each group that has a complete provider, and no other, to
/// the provider tuples of that group.
pub open spec fn is_ref_map(m: Map<u64, Vec<String>>, providers: Seq<ProviderView>) -> bool {
    forall|gid: u64|
        {
            &&& m.contains_key(gid) <==> (#[trigger] tuples_for(providers, gid)).len() > 0
            &&& m.contains_key(gid) ==> texts(m[gid]@) == tuples_for(providers, gid)
        }
}

/// The providers after a match of group `gid`: each provider of that group is
/// recorded.
pub open spec fn logged_ref(providers: Seq<ProviderView>, gid: u64) -> Seq<ProviderView> {
    Seq::new(
        providers.len(),
        |i: int|
            if providers[i].group_id == Some(gid) {
                ProviderView { recorded: true, ..providers[i] }
            } else {
                providers[i]
            },
    )
}

/// Whether a code of the query counts as matched by billing code `c` of type
/// `c_type`. Letters compare without regard to ASCII case; `*` in the query
/// stands for any value, or any type.
pub open spec fn code_matches(code: CodeView, c: Seq<char>, c_type: Seq<char>) -> bool {
    ||| same_ignoring_case(code.value, c) && same_ignoring_case(code.code_type, c_type)
    ||| same_ignoring_case(code.value, c) && code.code_type == "*"@
    ||| code.value == "*"@ && code.code_type == "*"@
    ||| code.value == "*"@ && same_ignoring_case(code.code_type, c_type)
}

/// The codes after a match of billing code `c` of type `c_type`: each code
/// that it matches is recorded.
pub open spec fn logged_code(codes: Seq<CodeView>, c: Seq<char>, c_type: Seq<char>) -> Seq<
    CodeView,
> {
    Seq::new(
        codes.len(),
        |i: int|
            if code_matches(codes[i], c, c_type) {
                CodeView { recorded: true, ..codes[i] }
            } else {
                codes[i]
            },
    )
}

/// Whether some provider has a group.
pub open spec fn some_group_known(providers: Seq<ProviderView>) -> bool {
    exists|i: int| 0 <= i < providers.len() && (#[trigger] providers[i]).group_id is Some
}

/// The warnings for the provider records that were never recorded, in the
/// order of the providers.
pub open spec fn provider_warnings(providers: Seq<ProviderView>) -> Seq<Seq<char>>
    decreases providers.len(),
{
    if providers.len() == 0 {
        Seq::empty()
    } else {
        let before = provider_warnings(providers.drop_last());
        let p = providers.last();
        if p.recorded {
            before
        } else {
            before.push(provider_warning(p.npi, p.group_id, p.tin_type, p.tin_value))
        }
    }
}

/// Whether some record of `npi` was recorded.
pub open spec fn npi_recorded(providers: Seq<ProviderView>, npi: u64) -> bool {
    exists|i: int|
        0 <= i < providers.len() && (#[trigger] providers[i]).npi == npi && providers[i].recorded
}

/// Whether no provider before the one at `i` has its npi.
pub open spec fn first_of_npi(providers: Seq<ProviderView>, i: int) -> bool {
    forall|j: int| 0 <= j < i ==> (#[trigger] providers[j]).npi != providers[i].npi
}

/// The warning for an npi none of whose records was recorded.
pub open spec fn zero_match_line(npi: u64) -> Seq<char> {
    "WARNING: Zero matches found for npi: "@ + decimal_text(npi as nat)
}

/// The warnings for the npis, among those of the first `k` providers, that
/// had no match at all: one line for each such npi, where it first occurs.
pub open spec fn zero_match_lines(providers: Seq<ProviderView>, k: nat) -> Seq<Seq<char>>
    decreases k,
{
    if k == 0 || k > providers.len() {
        Seq::empty()
    } else {
        let before = zero_match_lines(providers, (k - 1) as nat);
        let i = k - 1;
        if first_of_npi(providers, i) && !npi_recorded(providers, providers[i].npi) {
            before.push(zero_match_line(providers[i].npi))
        } else {
            before
        }
    }
}

/// The warnings for the codes that were never recorded, in the order of the
/// codes.
pub open spec fn code_warnings(codes: Seq<CodeView>) -> Seq<Seq<char>>
    decreases codes.len(),
{
    if codes.len() == 0 {
        Seq::empty()
    } else {
        let before = code_warnings(codes.drop_last());
        if codes.last().recorded {
            before
        } else {
            before.push(code_warning(codes.last()))
        }
    }
}

/// All the warnings about the parts of a query without a match: first the
/// provider records, then the npis, then the codes.
pub open spec fn warnings(q: QueryView) -> Seq<Seq<char>> {
    provider_warnings(q.providers) + zero_match_lines(q.providers, q.providers.len())
        + code_warnings(q.codes)
}

/// The code values of a query in upper case, each held once.
pub struct CodeSet {
    items: Vec<String>,
}

impl View for CodeSet {
    type V = Set<Seq<char>>;

    closed spec fn view(&self) -> Set<Seq<char>> {
        texts(self.items@).to_set()
    }
}

impl CodeSet {
    /// Whether `code` is in the set.
    pub fn contains(&self, code: &str) -> (r: bool)
        ensures
            r == self@.contains(code@),
    {
        let mut i: usize = 0;
        while i < self.items.len()
            invariant
                i <= self.items.len(),
                forall|j: int| 0 <= j < i ==> texts(self.items@)[j] != code@,
            decreases self.items.len() - i,
        {
            if same_text(self.items[i].as_str(), code) {
                assert(texts(self.items@)[i as int] == code@);
                return true;
            }
            i = i + 1;
        }
        false
    }
}

impl Query {
    /// Creates a new Query without codes or providers.
    pub fn new() -> (r: Self)
        ensures
            r@.providers.len() == 0,
            r@.codes.len() == 0,
    {
        Query { codes: Vec::new(), providers: Vec::new() }
    }

    /// Creates the set of all npis of the providers.
    pub fn make_npi_set(&mut self) -> (r: HashSet<u64>)
        ensures
            *final(self) == *old(self),
            r@ == npis(old(self)@.providers),
    {
        let mut npi_set: HashSet<u64> = HashSet::new();
        let mut i: usize = 0;
        while i < self.providers.len()
            invariant
                i <= self.providers.len(),
                npi_set@ == npis(self@.providers.take(i as int)),
            decreases self.providers.len() - i,
        {
            npi_set.insert(self.providers[i].npi);
            proof {
                let ps = self@.providers;
                let before = npis(ps.take(i as int));
                let after = npis(ps.take(i + 1));
                assert forall|n: u64| before.insert(ps[i as int].npi).contains(n) == after.contains(
                    n,
                ) by {
                    if before.contains(n) {
                        let j = choose|j: int|
                            0 <= j < ps.take(i as int).len() && #[trigger] ps.take(i as int)[j].npi
                                == n;
                        assert(ps.take(i + 1)[j].npi == n);
                    }
                    if n == ps[i as int].npi {
                        assert(ps.take(i + 1)[i as int].npi == n);
                    }
                    if after.contains(n) {
                        let j = choose|j: int|
                            0 <= j < ps.take(i + 1).len() && #[trigger] ps.take(i + 1)[j].npi == n;
                        if j < i {
                            assert(ps.take(i as int)[j].npi == n);
                        }
                    }
                }
                assert(before.insert(ps[i as int].npi) =~= after);
            }
            i = i + 1;
        }
        proof {
            assert(self@.providers.take(i as int) =~= self@.providers);
            assert(npis(Seq::<ProviderView>::empty()) =~= Set::<u64>::empty());
        }
        npi_set
    }

    /// Creates the set of all the code values of the query, whatever their
    /// code type, in ASCII upper case.
    pub fn make_code_set(&mut self) -> (r: CodeSet)
        ensures
            *final(self) == *old(self),
            r@ == upper_codes(old(self)@.codes),
    {
        let mut set = CodeSet { items: Vec::new() };
        let mut i: usize = 0;
        assert(set@ =~= upper_codes(self@.codes.take(0)));
        while i < self.codes.len()
            invariant
                i <= self.codes.len(),
                set@ == upper_codes(self@.codes.take(i as int)),
            decreases self.codes.len() - i,
        {
            let code = to_upper(self.codes[i].value.as_str());
            let ghost before = set@;
            let ghost items = texts(set.items@);
            if !set.contains(code.as_str()) {
                set.items.push(code);
                assert(texts(set.items@) =~= items.push(code@));
            }
            proof {
                let cs = self@.codes;
                let after = upper_codes(cs.take(i + 1));
                assert(ascii_upper(cs[i as int].value) == code@);
                assert forall|c: Seq<char>| set@.contains(c) == after.contains(c) by {
                    if before.contains(c) {
                        let j = choose|j: int|
                            0 <= j < cs.take(i as int).len() && ascii_upper(
                                #[trigger] cs.take(i as int)[j].value,
                            ) == c;
                        assert(ascii_upper(cs.take(i + 1)[j].value) == c);
                    }
                    if c == code@ {
                        assert(ascii_upper(cs.take(i + 1)[i as int].value) == c);
                        if !before.contains(c) {
                            assert(texts(set.items@).last() == c);
                        }
                    }
                    if after.contains(c) {
                        let j = choose|j: int|
                            0 <= j < cs.take(i + 1).len() && ascii_upper(
                                #[trigger] cs.take(i + 1)[j].value,
                            ) == c;
                        if j < i {
                            assert(ascii_upper(cs.take(i as int)[j].value) == c);
                        }
                    }
                    if set@.contains(c) && !before.contains(c) {
                        let k = choose|k: int|
                            0 <= k < texts(set.items@).len() && texts(set.items@)[k] == c;
                        if k < items.len() {
                            assert(items[k] == c);
                        }
                    }
                    if before.contains(c) {
                        let k = choose|k: int| 0 <= k < items.len() && items[k] == c;
                        assert(texts(set.items@)[k] == c);
                    }
                }
                assert(set@ =~= after);
            }
            i = i + 1;
        }
        proof {
            assert(self@.codes.take(i as int) =~= self@.codes);
        }
        set
    }

    /// Returns the map from provider references (group ids) to the provider
    /// tuples of the group, in the order of the providers. Providers with
    /// missing data contribute nothing.
    pub fn make_ref_map(&mut self) -> (r: HashMap<u64, Vec<String>>)
        ensures
            *final(self) == *old(self),
            is_ref_map(r@, old(self)@.providers),
    {
        let mut ref_map: HashMap<u64, Vec<String>> = HashMap::new();
        let mut i: usize = 0;
        while i < self.providers.len()
            invariant
                i <= self.providers.len(),
                is_ref_map(ref_map@, self@.providers.take(i as int)),
            decreases self.providers.len() - i,
        {
            let ghost ps = self@.providers;
            let ghost before = ref_map@;
            proof {
                assert(ps.take(i + 1).drop_last() =~= ps.take(i as int));
                assert(ps.take(i + 1).last() == self.providers[i as int]@);
            }
            let p = &self.providers[i];
            if let Some(gid) = p.group_id {
                if let Some(tin_type) = &p.tin_type {
                    if let Some(tin_value) = &p.tin_value {
                        let mut val = decimal_string(p.npi);
                        val.append(",");
                        val.append(tin_type.as_str());
                        val.append(",");
                        val.append(tin_value.as_str());
                        assert(val@ == tuple_text(p@));
                        let mut v = match ref_map.remove(&gid) {
                            Some(v) => v,
                            None => Vec::new(),
                        };
                        let ghost held = texts(v@);
                        assert(held =~= tuples_for(ps.take(i as int), gid));
                        v.push(val);
                        assert(texts(v@) =~= held.push(val@));
                        ref_map.insert(gid, v);
                        assert forall|g: u64| g != gid implies ref_map@.contains_key(g)
                            == before.contains_key(g) && (before.contains_key(g)
                            ==> ref_map@[g] == before[g]) by {}
                    }
                }
            }
            assert(is_ref_map(ref_map@, ps.take(i + 1))) by {
                assert forall|g: u64|
                    {
                        &&& ref_map@.contains_key(g) <==> (#[trigger] tuples_for(
                            ps.take(i + 1),
                            g,
                        )).len() > 0
                        &&& ref_map@.contains_key(g) ==> texts(ref_map@[g]@) == tuples_for(
                            ps.take(i + 1),
                            g,
                        )
                    } by {
                    let _ = tuples_for(ps.take(i as int), g);
                }
            }
            i = i + 1;
        }
        proof {
            assert(self@.providers.take(i as int) =~= self@.providers);
        }
        ref_map
    }

    /// Sets recorded for all providers of group `gid`, to track the parts of
    /// the query that had a match in the data.
    pub fn log_ref(&mut self, gid: u64)
        ensures
            final(self)@.providers == logged_ref(old(self)@.providers, gid),
            final(self).codes == old(self).codes,
    {
        let mut i: usize = 0;
        while i < self.providers.len()
            invariant
                i <= self.providers.len(),
                self.providers.len() == old(self).providers.len(),
                self.codes == old(self).codes,
                forall|j: int|
                    0 <= j < i ==> (#[trigger] self.providers[j])@ == logged_ref(
                        old(self)@.providers,
                        gid,
                    )[j],
                forall|j: int|
                    i <= j < self.providers.len() ==> #[trigger] self.providers[j] == old(
                        self,
                    ).providers[j],
            decreases self.providers.len() - i,
        {
            let hit = match self.providers[i].group_id {
                Some(id) => id == gid,
                None => false,
            };
            if hit {
                self.providers[i].recorded = true;
            }
            i = i + 1;
        }
        assert(self@.providers =~= logged_ref(old(self)@.providers, gid));
    }

    /// Logs the codes of the query that had a record in the data: sets
    /// recorded for each code that billing code `c` of type `c_type` matches.
    pub fn log_code(&mut self, c: &String, c_type: &String)
        ensures
            final(self)@.codes == logged_code(old(self)@.codes, c@, c_type@),
            final(self).providers == old(self).providers,
    {
        let mut i: usize = 0;
        while i < self.codes.len()
            invariant
                i <= self.codes.len(),
                self.codes.len() == old(self).codes.len(),
                self.providers == old(self).providers,
                forall|j: int|
                    0 <= j < i ==> (#[trigger] self.codes[j])@ == logged_code(
                        old(self)@.codes,
                        c@,
                        c_type@,
                    )[j],
                forall|j: int|
                    i <= j < self.codes.len() ==> #[trigger] self.codes[j] == old(self).codes[j],
            decreases self.codes.len() - i,
        {
            let value_hit = same_text_ignoring_case(self.codes[i].value.as_str(), c.as_str());
            let type_hit = same_text_ignoring_case(
                self.codes[i].code_type.as_str(),
                c_type.as_str(),
            );
            let any_value = same_text(self.codes[i].value.as_str(), "*");
            let any_type = same_text(self.codes[i].code_type.as_str(), "*");
            if (value_hit && type_hit) || (value_hit && any_type) || (any_value && any_type) || (
            any_value && type_hit) {
                self.codes[i].recorded = true;
            }
            i = i + 1;
        }
        assert(self@.codes =~= logged_code(old(self)@.codes, c@, c_type@));
    }

    /// Whether no provider before the one at `i` has its npi.
    fn is_first_of_npi(&self, i: usize) -> (r: bool)
        requires
            i < self.providers.len(),
        ensures
            r == first_of_npi(self@.providers, i as int),
    {
        let mut j: usize = 0;
        while j < i
            invariant
                j <= i < self.providers.len(),
                forall|k: int|
                    0 <= k < j ==> (#[trigger] self@.providers[k]).npi != self@.providers[i as int].npi,
            decreases i - j,
        {
            if self.providers[j].npi == self.providers[i].npi {
                assert(self@.providers[j as int].npi == self@.providers[i as int].npi);
                return false;
            }
            j = j + 1;
        }
        true
    }

    /// Whether some record of `npi` was recorded.
    fn has_record(&self, npi: u64) -> (r: bool)
        ensures
            r == npi_recorded(self@.providers, npi),
    {
        let mut j: usize = 0;
        while j < self.providers.len()
            invariant
                j <= self.providers.len(),
                forall|k: int|
                    0 <= k < j ==> !((#[trigger] self@.providers[k]).npi == npi
                        && self@.providers[k].recorded),
            decreases self.providers.len() - j,
        {
            if self.providers[j].npi == npi && self.providers[j].recorded {
                assert(self@.providers[j as int].npi == npi && self@.providers[j as int].recorded);
                return true;
            }
            j = j + 1;
        }
        false
    }

    /// The warnings about each provider record that was not recorded, about
    /// each npi that had absolutely no match, and about each code that was not
    /// recorded.
    pub fn warn_not_recorded(&mut self) -> (r: Vec<String>)
        ensures
            *final(self) == *old(self),
            texts(r@) == warnings(old(self)@),
    {
        let mut lines: Vec<String> = Vec::new();
        let n = self.providers.len();
        let mut i: usize = 0;
        assert(texts(lines@) =~= provider_warnings(self@.providers.take(0)));
        while i < n
            invariant
                i <= n,
                n == self.providers.len(),
                texts(lines@) == provider_warnings(self@.providers.take(i as int)),
            decreases n - i,
        {
            let ghost ps = self@.providers;
            let ghost held = texts(lines@);
            proof {
                assert(ps.take(i + 1).drop_last() =~= ps.take(i as int));
                assert(ps.take(i + 1).last() == self.providers[i as int]@);
            }
            if !self.providers[i].recorded {
                let line = self.providers[i].eprint_no_match();
                lines.push(line);
                assert(texts(lines@) =~= held.push(line@));
            }
            i = i + 1;
        }
        assert(self@.providers.take(n as int) =~= self@.providers);
        let ghost first = texts(lines@);
        let mut i: usize = 0;
        assert(texts(lines@) =~= first + zero_match_lines(self@.providers, 0));
        while i < n
            invariant
                i <= n,
                n == self.providers.len(),
                texts(lines@) == first + zero_match_lines(self@.providers, i as nat),
            decreases n - i,
        {
            let ghost held = texts(lines@);
            let npi = self.providers[i].npi;
            let is_first = self.is_first_of_npi(i);
            if is_first {
                let recorded = self.has_record(npi);
                if !recorded {
                    let mut line = String::from_str("WARNING: Zero matches found for npi: ");
                    line.append(decimal_string(npi).as_str());
                    lines.push(line);
                    assert(texts(lines@) =~= held.push(line@));
                    assert(line@ == zero_match_line(npi));
                }
            }
            i = i + 1;
            assert(texts(lines@) =~= first + zero_match_lines(self@.providers, i as nat));
        }
        let ghost second = texts(lines@);
        let m = self.codes.len();
        let mut i: usize = 0;
        assert(texts(lines@) =~= second + code_warnings(self@.codes.take(0)));
        while i < m
            invariant
                i <= m,
                m == self.codes.len(),
                texts(lines@) == second + code_warnings(self@.codes.take(i as int)),
            decreases m - i,
        {
            let ghost cs = self@.codes;
            let ghost held = texts(lines@);
            proof {
                assert(cs.take(i + 1).drop_last() =~= cs.take(i as int));
                assert(cs.take(i + 1).last() == self.codes[i as int]@);
            }
            if !self.codes[i].recorded {
                let line = self.codes[i].eprint_no_match();
                lines.push(line);
                assert(texts(lines@) =~= held.push(line@));
            }
            i = i + 1;
            assert(texts(lines@) =~= second + code_warnings(cs.take(i as int)));
        }
        assert(self@.codes.take(m as int) =~= self@.codes);
        lines
    }

    /// Returns true if at least one provider has a group id, else false. Can
    /// be used to exit early.
    pub fn stat_providers(&self) -> (r: bool)
        ensures
            r == some_group_known(self@.providers),
    {
        let mut i: usize = 0;
        while i < self.providers.len()
            invariant
                i <= self.providers.len(),
                forall|j: int| 0 <= j < i ==> (#[trigger] self@.providers[j]).group_id is None,
            decreases self.providers.len() - i,
        {
            if self.providers[i].group_id.is_some() {
                assert(self@.providers[i as int].group_id is Some);
                return true;
            }
            i = i + 1;
        }
        false
    }
}

/// Logging a code a second time with the same arguments changes nothing.
pub proof fn lemma_log_code_idempotent(codes: Seq<CodeView>, c: Seq<char>, c_type: Seq<char>)
    ensures
        logged_code(logged_code(codes, c, c_type), c, c_type) == logged_code(codes, c, c_type),
{
    assert(logged_code(logged_code(codes, c, c_type), c, c_type) =~= logged_code(
        codes,
        c,
        c_type,
    ));
}

/// Logging a group a second time changes nothing.
pub proof fn lemma_log_ref_idempotent(providers: Seq<ProviderView>, gid: u64)
    ensures
        logged_ref(logged_ref(providers, gid), gid) == logged_ref(providers, gid),
{
    assert(logged_ref(logged_ref(providers, gid), gid) =~= logged_ref(providers, gid));
}

/// A code of the query with `*` for both type and value is matched by every
/// billing code of every type.
pub proof fn lemma_wildcard_code_matches(code: CodeView, c: Seq<char>, c_type: Seq<char>)
    requires
        code.value == "*"@,
        code.code_type == "*"@,
    ensures
        code_matches(code, c, c_type),
{
}

/// Every group of a reference map has at least one provider tuple, and each
/// of its tuples is the tuple of a complete provider of that group.
pub proof fn lemma_tuples_come_from_providers(providers: Seq<ProviderView>, gid: u64, k: int)
    requires
        0 <= k < tuples_for(providers, gid).len(),
    ensures
        exists|i: int|
            0 <= i < providers.len() && is_complete(#[trigger] providers[i])
                && providers[i].group_id == Some(gid) && tuples_for(providers, gid)[k]
                == tuple_text(providers[i]),
    decreases providers.len(),
{
    let before = tuples_for(providers.drop_last(), gid);
    let p = providers.last();
    if k < before.len() {
        lemma_tuples_come_from_providers(providers.drop_last(), gid, k);
        let i = choose|i: int|
            0 <= i < providers.drop_last().len() && is_complete(
                #[trigger] providers.drop_last()[i],
            ) && providers.drop_last()[i].group_id == Some(gid) && before[k] == tuple_text(
                providers.drop_last()[i],
            );
        assert(providers[i] == providers.drop_last()[i]);
    } else {
        assert(providers[providers.len() - 1] == p);
    }
}

/// The warnings for the npis hold every line that they held for fewer
/// providers.
pub proof fn lemma_zero_match_lines_grow(providers: Seq<ProviderView>, j: nat, k: nat, line: Seq<char>)
    requires
        j <= k <= providers.len(),
        zero_match_lines(providers, j).contains(line),
    ensures
        zero_match_lines(providers, k).contains(line),
    decreases k,
{
    if j < k {
        lemma_zero_match_lines_grow(providers, j, (k - 1) as nat, line);
        let before = zero_match_lines(providers, (k - 1) as nat);
        let i = choose|i: int| 0 <= i < before.len() && before[i] == line;
        let all = zero_match_lines(providers, k);
        assert(all[i] == line);
    }
}

/// The index at which the npi of the provider at `i` first occurs.
pub proof fn lemma_first_of_npi_exists(providers: Seq<ProviderView>, i: int) -> (j: int)
    requires
        0 <= i < providers.len(),
    ensures
        0 <= j <= i,
        providers[j].npi == providers[i].npi,
        first_of_npi(providers, j),
    decreases i,
{
    if first_of_npi(providers, i) {
        i
    } else {
        let k = choose|k: int| 0 <= k < i && (#[trigger] providers[k]).npi == providers[i].npi;
        lemma_first_of_npi_exists(providers, k)
    }
}

/// Unmatched query item: an npi of the query none of whose records was
/// recorded is warned about with the line of zero matches.
pub proof fn lemma_unmatched_npi_is_warned(q: QueryView, i: int)
    requires
        0 <= i < q.providers.len(),
        !npi_recorded(q.providers, q.providers[i].npi),
    ensures
        warnings(q).contains(zero_match_line(q.providers[i].npi)),
{
    let ps = q.providers;
    let line = zero_match_line(ps[i].npi);
    let j = lemma_first_of_npi_exists(ps, i);
    let upto = zero_match_lines(ps, (j + 1) as nat);
    assert(upto.last() == line);
    assert(upto[upto.len() - 1] == line);
    lemma_zero_match_lines_grow(ps, (j + 1) as nat, ps.len(), line);
    let lines = zero_match_lines(ps, ps.len());
    let k = choose|k: int| 0 <= k < lines.len() && lines[k] == line;
    let before = provider_warnings(ps);
    assert(warnings(q)[before.len() + k] == line);
}

/// The line of zero matches is no warning about a provider record and no
/// warning about a code: those start on a new line.
pub proof fn lemma_zero_match_line_stands_apart(
    npi: u64,
    p: ProviderView,
    c: CodeView,
)
    ensures
        zero_match_line(npi) != provider_warning(p.npi, p.group_id, p.tin_type, p.tin_value),
        zero_match_line(npi) != code_warning(c),
{
    reveal_strlit("WARNING: Zero matches found for npi: ");
    reveal_strlit("\nWARNING: No match found for Provider\n  npi: ");
    reveal_strlit("\nWARNING: No match found for Code\n  Type: ");
    let zero = zero_match_line(npi);
    let prov = provider_warning(p.npi, p.group_id, p.tin_type, p.tin_value);
    let code = code_warning(c);
    assert(zero[0] == 'W');
    assert(prov[0] == '\n');
    assert(code[0] == '\n');
}

} // verus!
