//! The table of named argument values that the parsers fill and the argument
//! readers drain: each name is present at most once, and maps to an optional
//! value (a flag given without a value maps to `None`).
use vstd::prelude::*;

use crate::text::{opt_view, text_eq};

verus! {

/// One stored name with its optional value.
pub type ArgEntry = (String, Option<String>);

/// The name stored at position `i`.
pub open spec fn name_at(s: Seq<ArgEntry>, i: int) -> Seq<char> {
    s[i].0@
}

/// No name occurs twice in `s`.
pub open spec fn names_distinct(s: Seq<ArgEntry>) -> bool {
    forall|i: int, j: int| 0 <= i < j < s.len() ==> #[trigger] name_at(s, i) != #[trigger] name_at(s, j)
}

/// Some entry of `s` is stored under `k`.
pub open spec fn holds_name(s: Seq<ArgEntry>, k: Seq<char>) -> bool {
    exists|i: int| 0 <= i < s.len() && #[trigger] name_at(s, i) == k
}

/// A position of `s` whose entry is stored under `k`.
pub open spec fn position_of(s: Seq<ArgEntry>, k: Seq<char>) -> int {
    choose|i: int| 0 <= i < s.len() && #[trigger] name_at(s, i) == k
}

/// The entries of `s` as a map from names to optional values.
pub open spec fn entries_map(s: Seq<ArgEntry>) -> Map<Seq<char>, Option<Seq<char>>> {
    Map::new(|k: Seq<char>| holds_name(s, k), |k: Seq<char>| opt_view(s[position_of(s, k)].1))
}

proof fn lemma_entry(s: Seq<ArgEntry>, i: int)
    requires
        names_distinct(s),
        0 <= i < s.len(),
    ensures
        entries_map(s).contains_key(name_at(s, i)),
        entries_map(s)[name_at(s, i)] == opt_view(s[i].1),
{
    let k = name_at(s, i);
    assert(holds_name(s, k));
    let w = position_of(s, k);
    if w < i {
        assert(name_at(s, w) != name_at(s, i));
    } else if w > i {
        assert(name_at(s, i) != name_at(s, w));
    }
}

proof fn lemma_update(s: Seq<ArgEntry>, i: int, e: ArgEntry)
    requires
        names_distinct(s),
        0 <= i < s.len(),
        e.0@ == name_at(s, i),
    ensures
        names_distinct(s.update(i, e)),
        entries_map(s.update(i, e)) == entries_map(s).insert(e.0@, opt_view(e.1)),
{
    let t = s.update(i, e);
    assert forall|a: int, b: int| 0 <= a < b < t.len() implies #[trigger] name_at(t, a) != #[trigger] name_at(t, b) by {
        assert(name_at(t, a) == name_at(s, a));
        assert(name_at(t, b) == name_at(s, b));
    }
    let m = entries_map(s).insert(e.0@, opt_view(e.1));
    assert forall|k: Seq<char>| holds_name(t, k) <==> m.contains_key(k) by {
        if holds_name(t, k) {
            let j = position_of(t, k);
            assert(name_at(s, j) == k);
        }
        if holds_name(s, k) {
            let j = position_of(s, k);
            assert(name_at(t, j) == k);
        }
        if k == e.0@ {
            assert(name_at(t, i) == k);
        }
    }
    assert forall|k: Seq<char>| #[trigger] holds_name(t, k) implies entries_map(t)[k] == m[k] by {
        let j = position_of(t, k);
        lemma_entry(t, j);
        if j != i {
            lemma_entry(s, j);
        }
    }
    assert(entries_map(t) =~= m);
}

proof fn lemma_push(s: Seq<ArgEntry>, e: ArgEntry)
    requires
        names_distinct(s),
        !holds_name(s, e.0@),
    ensures
        names_distinct(s.push(e)),
        entries_map(s.push(e)) == entries_map(s).insert(e.0@, opt_view(e.1)),
{
    let t = s.push(e);
    assert forall|a: int, b: int| 0 <= a < b < t.len() implies #[trigger] name_at(t, a) != #[trigger] name_at(t, b) by {
        assert(name_at(t, a) == name_at(s, a));
        if b < s.len() {
            assert(name_at(t, b) == name_at(s, b));
        } else {
            assert(name_at(s, a) != e.0@);
        }
    }
    let m = entries_map(s).insert(e.0@, opt_view(e.1));
    assert forall|k: Seq<char>| holds_name(t, k) <==> m.contains_key(k) by {
        if holds_name(t, k) {
            let j = position_of(t, k);
            if j < s.len() {
                assert(name_at(s, j) == k);
            }
        }
        if holds_name(s, k) {
            let j = position_of(s, k);
            assert(name_at(t, j) == k);
        }
        if k == e.0@ {
            assert(name_at(t, s.len() as int) == k);
        }
    }
    assert forall|k: Seq<char>| #[trigger] holds_name(t, k) implies entries_map(t)[k] == m[k] by {
        let j = position_of(t, k);
        lemma_entry(t, j);
        if j < s.len() {
            lemma_entry(s, j);
        }
    }
    assert(entries_map(t) =~= m);
}

proof fn lemma_remove(s: Seq<ArgEntry>, i: int)
    requires
        names_distinct(s),
        0 <= i < s.len(),
    ensures
        names_distinct(s.remove(i)),
        entries_map(s.remove(i)) == entries_map(s).remove(name_at(s, i)),
{
    let t = s.remove(i);
    let key = name_at(s, i);
    assert forall|a: int, b: int| 0 <= a < b < t.len() implies #[trigger] name_at(t, a) != #[trigger] name_at(t, b) by {
        if a < i {
            assert(name_at(t, a) == name_at(s, a));
            if b < i {
                assert(name_at(t, b) == name_at(s, b));
            } else {
                assert(name_at(t, b) == name_at(s, b + 1));
            }
        } else {
            assert(name_at(t, a) == name_at(s, a + 1));
            assert(name_at(t, b) == name_at(s, b + 1));
        }
    }
    let m = entries_map(s).remove(key);
    assert forall|k: Seq<char>| holds_name(t, k) <==> m.contains_key(k) by {
        if holds_name(t, k) {
            let j = position_of(t, k);
            if j < i {
                assert(name_at(s, j) == k);
                assert(name_at(s, j) != name_at(s, i));
            } else {
                assert(name_at(s, j + 1) == k);
                assert(name_at(s, i) != name_at(s, j + 1));
            }
        }
        if holds_name(s, k) && k != key {
            let j = position_of(s, k);
            if j < i {
                assert(name_at(t, j) == k);
            } else {
                assert(name_at(t, j - 1) == k);
            }
        }
    }
    assert forall|k: Seq<char>| #[trigger] holds_name(t, k) implies entries_map(t)[k] == m[k] by {
        let j = position_of(t, k);
        lemma_entry(t, j);
        if j < i {
            lemma_entry(s, j);
        } else {
            lemma_entry(s, j + 1);
        }
    }
    assert(entries_map(t) =~= m);
}

/// Two entries hold the same name and the same optional value.
pub open spec fn same_entry(a: ArgEntry, b: ArgEntry) -> bool {
    a.0@ == b.0@ && opt_view(a.1) == opt_view(b.1)
}

/// Named argument values, keyed by the name as it was written on the command
/// line (for example `--x` or `-x`).
#[derive(Debug)]
pub struct ArgMap {
    entries: Vec<ArgEntry>,
}

impl ArgMap {
    /// No name occurs twice.
    #[verifier::type_invariant]
    spec fn distinct_names(self) -> bool {
        names_distinct(self.entries@)
    }

    /// The table as a map from names to optional values.
    pub closed spec fn as_map(self) -> Map<Seq<char>, Option<Seq<char>>> {
        entries_map(self.entries@)
    }

    /// An empty table.
    pub fn new() -> (r: ArgMap)
        ensures
            r@ == Map::<Seq<char>, Option<Seq<char>>>::empty(),
    {
        let r = ArgMap { entries: Vec::new() };
        assert(r.as_map() =~= Map::<Seq<char>, Option<Seq<char>>>::empty());
        r
    }

    fn position(&self, key: &str) -> (r: Option<usize>)
        ensures
            r matches Some(i) ==> i < self.entries@.len() && name_at(self.entries@, i as int) == key@,
            r is None ==> !holds_name(self.entries@, key@),
    {
        let n = self.entries.len();
        for i in 0..n
            invariant
                n == self.entries@.len(),
                forall|j: int| 0 <= j < i ==> name_at(self.entries@, j) != key@,
        {
            if text_eq(self.entries[i].0.as_str(), key) {
                return Some(i);
            }
        }
        None
    }

    /// The value stored under `key`, if the name is present.
    pub fn get(&self, key: &str) -> (r: Option<&Option<String>>)
        ensures
            r matches Some(v) ==> self@.contains_key(key@) && self@[key@] == opt_view(*v),
            r is None ==> !self@.contains_key(key@),
    {
        proof {
            use_type_invariant(self);
        }
        match self.position(key) {
            Some(i) => {
                proof {
                    lemma_entry(self.entries@, i as int);
                }
                Some(&self.entries[i].1)
            },
            None => None,
        }
    }

    /// Whether `key` is present.
    pub fn contains_key(&self, key: &str) -> (r: bool)
        ensures
            r == self@.contains_key(key@),
    {
        self.get(key).is_some()
    }

    /// Stores `value` under `key`, replacing what was there.
    pub fn insert(&mut self, key: String, value: Option<String>)
        ensures
            final(self)@ == old(self)@.insert(key@, opt_view(value)),
    {
        proof {
            use_type_invariant(&*self);
        }
        let pos = self.position(key.as_str());
        let mut entries: Vec<ArgEntry> = Vec::new();
        std::mem::swap(&mut entries, &mut self.entries);
        let ghost before = entries@;
        let ghost e = (key, value);
        match pos {
            Some(i) => {
                entries.set(i, (key, value));
                proof {
                    lemma_update(before, i as int, e);
                }
            },
            None => {
                entries.push((key, value));
                proof {
                    lemma_push(before, e);
                }
            },
        }
        self.entries = entries;
    }

    /// Takes the value stored under `key` out of the table: `Some(value)` when
    /// the name was present, `None` when it was not.
    pub fn remove(&mut self, key: &str) -> (r: Option<Option<String>>)
        ensures
            final(self)@ == old(self)@.remove(key@),
            r matches Some(v) ==> old(self)@.contains_key(key@) && old(self)@[key@] == opt_view(v),
            r is None ==> !old(self)@.contains_key(key@),
    {
        proof {
            use_type_invariant(&*self);
        }
        match self.position(key) {
            Some(i) => {
                let mut entries: Vec<ArgEntry> = Vec::new();
                std::mem::swap(&mut entries, &mut self.entries);
                let ghost before = entries@;
                proof {
                    lemma_entry(before, i as int);
                    lemma_remove(before, i as int);
                }
                let (_name, v) = entries.remove(i);
                self.entries = entries;
                Some(v)
            },
            None => {
                proof {
                    assert(self.as_map() =~= self.as_map().remove(key@));
                }
                None
            },
        }
    }
}

impl Clone for ArgMap {
    fn clone(&self) -> (r: Self)
        ensures
            r@ == self@,
    {
        proof {
            use_type_invariant(self);
        }
        let mut entries: Vec<ArgEntry> = Vec::new();
        let n = self.entries.len();
        let mut i: usize = 0;
        while i < n
            invariant
                n == self.entries@.len(),
                i <= n,
                entries@.len() == i,
                forall|j: int| 0 <= j < i ==> same_entry(#[trigger] entries@[j], self.entries@[j]),
            decreases n - i,
        {
            let name = self.entries[i].0.clone();
            let value = match &self.entries[i].1 {
                Some(v) => Some(v.clone()),
                None => None,
            };
            let ghost prev = entries@;
            entries.push((name, value));
            assert(name@ == self.entries@[i as int].0@);
            assert(entries@[i as int].0@ == name@);
            assert(opt_view(value) == opt_view(self.entries@[i as int].1));
            assert forall|j: int| 0 <= j < i + 1 implies same_entry(#[trigger] entries@[j], self.entries@[j]) by {
                if j < i {
                    assert(entries@[j] == prev[j]);
                }
            }
            i = i + 1;
        }
        proof {
            let s = self.entries@;
            let t = entries@;
            assert forall|j: int| 0 <= j < t.len() implies name_at(t, j) == name_at(s, j) && opt_view(t[j].1) == opt_view(s[j].1) by {
                assert(same_entry(t[j], s[j]));
            }
            assert forall|a: int, b: int| 0 <= a < b < t.len() implies #[trigger] name_at(t, a) != #[trigger] name_at(t, b) by {
                assert(name_at(s, a) != name_at(s, b));
            }
            assert forall|k: Seq<char>| holds_name(t, k) <==> holds_name(s, k) by {
                if holds_name(t, k) {
                    let j = position_of(t, k);
                    assert(name_at(s, j) == k);
                }
                if holds_name(s, k) {
                    let j = position_of(s, k);
                    assert(name_at(t, j) == k);
                }
            }
            assert forall|k: Seq<char>| #[trigger] holds_name(t, k) implies entries_map(t)[k] == entries_map(s)[k] by {
                let j = position_of(t, k);
                lemma_entry(t, j);
                lemma_entry(s, j);
            }
            assert(entries_map(t) =~= entries_map(s));
        }
        ArgMap { entries }
    }
}

impl View for ArgMap {
    type V = Map<Seq<char>, Option<Seq<char>>>;

    open spec fn view(&self) -> Map<Seq<char>, Option<Seq<char>>> {
        self.as_map()
    }
}

} // verus!
