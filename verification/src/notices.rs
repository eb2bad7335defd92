//! Diagnostics: the lines meant for the operator, and the keys of the
//! document that were met without being understood.

use crate::text::same_text;
use vstd::prelude::*;

verus! {

/// The texts of a sequence of strings.
pub open spec fn texts(v: Seq<String>) -> Seq<Seq<char>> {
    v.map_values(|s: String| s@)
}

/// Diagnostics of a run. Each unsupported key is held once, in the order of
/// first sight, and was announced by one line when it was first seen.
pub struct Notices {
    pub keys: Vec<String>,
    pub lines: Vec<String>,
}

/// What [`Notices`] stand for in contracts.
pub struct NoticesView {
    pub keys: Seq<Seq<char>>,
    pub lines: Seq<Seq<char>>,
}

/// The line that announces an unsupported key and the place where it was seen.
pub open spec fn unsupported_line(key: Seq<char>, place: Seq<char>) -> Seq<char> {
    "Unsupported key "@ + key + " found in "@ + place
}

impl NoticesView {
    /// The notices after `key` was met in `place`: a key seen before changes
    /// nothing, a new one is kept and announced.
    pub open spec fn unsupported(self, key: Seq<char>, place: Seq<char>) -> NoticesView {
        if self.keys.contains(key) {
            self
        } else {
            NoticesView {
                keys: self.keys.push(key),
                lines: self.lines.push(unsupported_line(key, place)),
            }
        }
    }

    /// The notices after one more line.
    pub open spec fn noted(self, line: Seq<char>) -> NoticesView {
        NoticesView { keys: self.keys, lines: self.lines.push(line) }
    }
}

impl View for Notices {
    type V = NoticesView;

    open spec fn view(&self) -> NoticesView {
        NoticesView { keys: texts(self.keys@), lines: texts(self.lines@) }
    }
}

impl Notices {
    /// No key seen, no line written.
    pub fn new() -> (r: Self)
        ensures
            r@.keys.len() == 0,
            r@.lines.len() == 0,
    {
        Notices { keys: Vec::new(), lines: Vec::new() }
    }

    /// Whether `key` was met before.
    pub fn has_key(&self, key: &str) -> (r: bool)
        ensures
            r == self@.keys.contains(key@),
    {
        let mut i: usize = 0;
        while i < self.keys.len()
            invariant
                i <= self.keys.len(),
                forall|j: int| 0 <= j < i ==> texts(self.keys@)[j] != key@,
            decreases self.keys.len() - i,
        {
            if same_text(self.keys[i].as_str(), key) {
                assert(texts(self.keys@)[i as int] == key@);
                return true;
            }
            i = i + 1;
        }
        false
    }

    /// Records that `key` was met in `place`, and says so the first time.
    pub fn unsupported(&mut self, key: &str, place: &str)
        ensures
            final(self)@ == old(self)@.unsupported(key@, place@),
    {
        if !self.has_key(key) {
            let mut line = String::from_str("Unsupported key ");
            line.append(key);
            line.append(" found in ");
            line.append(place);
            self.keys.push(String::from_str(key));
            self.lines.push(line);
            assert(texts(self.keys@) =~= texts(old(self).keys@).push(key@));
            assert(texts(self.lines@) =~= texts(old(self).lines@).push(
                unsupported_line(key@, place@),
            ));
        }
    }

    /// Adds one line.
    pub fn note(&mut self, line: String)
        ensures
            final(self)@ == old(self)@.noted(line@),
    {
        self.lines.push(line);
        assert(texts(self.lines@) =~= texts(old(self).lines@).push(line@));
    }
}

/// Announcing keys never holds one key twice.
pub proof fn lemma_unsupported_keeps_keys_distinct(n: NoticesView, key: Seq<char>, place: Seq<char>)
    requires
        n.keys.no_duplicates(),
    ensures
        n.unsupported(key, place).keys.no_duplicates(),
        n.unsupported(key, place).keys.contains(key),
{
    let m = n.unsupported(key, place);
    if n.keys.contains(key) {
    } else {
        assert(m.keys.last() == key);
        assert(m.keys[m.keys.len() - 1] == key);
    }
}

/// A key that was met before is not announced again.
pub proof fn lemma_known_key_is_silent(n: NoticesView, key: Seq<char>, place: Seq<char>)
    ensures
        n.unsupported(key, place).unsupported(key, place) == n.unsupported(key, place),
        n.keys.contains(key) ==> n.unsupported(key, place) == n,
{
    let m = n.unsupported(key, place);
    if !n.keys.contains(key) {
        assert(m.keys.last() == key);
        assert(m.keys[m.keys.len() - 1] == key);
    }
}

} // verus!
