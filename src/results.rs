//! The result set: unit identifiers mapped to what was found of each unit,
//! kept in lexicographic order of the identifiers.

use vstd::prelude::*;
use crate::unit::{str_equal, UnitInfo};

verus! {

/// Lexicographic order of character sequences, by code point.
pub open spec fn char_lt(a: Seq<char>, b: Seq<char>) -> bool
    decreases a.len(),
{
    if a.len() == 0 {
        b.len() > 0
    } else if b.len() == 0 {
        false
    } else if a[0] != b[0] {
        (a[0] as int) < (b[0] as int)
    } else {
        char_lt(a.drop_first(), b.drop_first())
    }
}

/// The order is irreflexive.
pub proof fn lemma_char_lt_irreflexive(a: Seq<char>)
    ensures
        !char_lt(a, a),
    decreases a.len(),
{
    if a.len() > 0 {
        lemma_char_lt_irreflexive(a.drop_first());
    }
}

/// Two distinct sequences are ordered one way or the other, never both.
pub proof fn lemma_char_lt_total(a: Seq<char>, b: Seq<char>)
    ensures
        a != b ==> (char_lt(a, b) || char_lt(b, a)),
        !(char_lt(a, b) && char_lt(b, a)),
    decreases a.len(),
{
    if a.len() > 0 && b.len() > 0 && a[0] == b[0] {
        lemma_char_lt_total(a.drop_first(), b.drop_first());
        if a.drop_first() == b.drop_first() {
            assert(a =~= seq![a[0]] + a.drop_first());
            assert(b =~= seq![b[0]] + b.drop_first());
        }
    } else if a.len() > 0 && b.len() > 0 {
        assert((a[0] as int) != (b[0] as int));
    } else if a.len() == 0 && b.len() == 0 {
        assert(a =~= b);
    }
}

/// The order is transitive.
pub proof fn lemma_char_lt_transitive(a: Seq<char>, b: Seq<char>, c: Seq<char>)
    requires
        char_lt(a, b),
        char_lt(b, c),
    ensures
        char_lt(a, c),
    decreases a.len(),
{
    if a.len() > 0 && a[0] == b[0] && b[0] == c[0] {
        lemma_char_lt_transitive(a.drop_first(), b.drop_first(), c.drop_first());
    }
}

/// Whether `a` comes before `b` in lexicographic order.
pub fn str_lt(a: &str, b: &str) -> (r: bool)
    ensures
        r == char_lt(a@, b@),
{
    let n = a.unicode_len();
    let m = b.unicode_len();
    let mut j: usize = 0;
    assert(a@.skip(0) =~= a@);
    assert(b@.skip(0) =~= b@);
    while j < n && j < m
        invariant
            n == a@.len(),
            m == b@.len(),
            j <= n,
            j <= m,
            char_lt(a@, b@) == char_lt(a@.skip(j as int), b@.skip(j as int)),
        decreases n - j,
    {
        let x = a.get_char(j);
        let y = b.get_char(j);
        if x != y {
            return (x as u32) < (y as u32);
        }
        assert(a@.skip(j as int).drop_first() =~= a@.skip(j + 1));
        assert(b@.skip(j as int).drop_first() =~= b@.skip(j + 1));
        j = j + 1;
    }
    j == n && j < m
}

/// Entries in strictly increasing order of their keys.
pub open spec fn keys_sorted(s: Seq<(String, UnitInfo)>) -> bool {
    forall|i: int, j: int| 0 <= i < j < s.len() ==> char_lt(#[trigger] s[i].0@, #[trigger] s[j].0@)
}

/// The map that a sequence of distinct-keyed entries stands for.
pub open spec fn entries_map(s: Seq<(String, UnitInfo)>) -> Map<Seq<char>, UnitInfo>
    decreases s.len(),
{
    if s.len() == 0 {
        Map::empty()
    } else {
        entries_map(s.drop_last()).insert(s.last().0@, s.last().1)
    }
}

/// No key occurs twice.
pub open spec fn keys_distinct(s: Seq<(String, UnitInfo)>) -> bool {
    forall|i: int, j: int| 0 <= i < j < s.len() ==> #[trigger] s[i].0@ != #[trigger] s[j].0@
}

/// Sorted entries have distinct keys.
pub proof fn lemma_sorted_distinct(s: Seq<(String, UnitInfo)>)
    requires
        keys_sorted(s),
    ensures
        keys_distinct(s),
{
    assert forall|i: int, j: int| 0 <= i < j < s.len() implies #[trigger] s[i].0@ != #[trigger] s[j].0@ by {
        lemma_char_lt_irreflexive(s[i].0@);
    }
}

/// With distinct keys, the map holds exactly the entries' keys, each with
/// its entry's value.
pub proof fn lemma_entries_map(s: Seq<(String, UnitInfo)>)
    requires
        keys_distinct(s),
    ensures
        forall|k: Seq<char>| #[trigger] entries_map(s).contains_key(k) <==> exists|i: int| 0 <= i < s.len() && s[i].0@ == k,
        forall|i: int| 0 <= i < s.len() ==> #[trigger] entries_map(s)[s[i].0@] == s[i].1,
    decreases s.len(),
{
    if s.len() > 0 {
        let p = s.drop_last();
        lemma_entries_map(p);
        assert(entries_map(s) == entries_map(p).insert(s.last().0@, s.last().1));
        assert forall|i: int, j: int| 0 <= i < j < p.len() implies #[trigger] p[i].0@ != #[trigger] p[j].0@ by {
            assert(p[i] == s[i] && p[j] == s[j]);
        }
        assert forall|k: Seq<char>| #[trigger] entries_map(s).contains_key(k) <==> exists|i: int| 0 <= i < s.len() && s[i].0@ == k by {
            if entries_map(s).contains_key(k) && k != s.last().0@ {
                assert(entries_map(p).contains_key(k));
                let i = choose|i: int| 0 <= i < p.len() && p[i].0@ == k;
                assert(s[i] == p[i]);
            }
            if exists|i: int| 0 <= i < s.len() && s[i].0@ == k {
                let i = choose|i: int| 0 <= i < s.len() && s[i].0@ == k;
                if i < p.len() {
                    assert(p[i].0@ == k);
                }
            }
        }
        assert forall|i: int| 0 <= i < s.len() implies #[trigger] entries_map(s)[s[i].0@] == s[i].1 by {
            if i < p.len() {
                assert(p[i] == s[i]);
            }
        }
    }
}

/// Results keyed by unit identifier, with unique keys, in order of the keys.
#[derive(Clone, Debug)]
pub struct ResultSet {
    entries: Vec<(String, UnitInfo)>,
}

impl View for ResultSet {
    type V = Map<Seq<char>, UnitInfo>;

    open spec fn view(&self) -> Map<Seq<char>, UnitInfo> {
        entries_map(self.entry_seq())
    }
}

impl ResultSet {
    /// The entries in order of their keys.
    pub closed spec fn entry_seq(&self) -> Seq<(String, UnitInfo)> {
        self.entries@
    }

    /// Keys are unique and kept in increasing order.
    pub open spec fn wf(&self) -> bool {
        keys_sorted(self.entry_seq())
    }

    /// An empty result set.
    pub fn new() -> (r: ResultSet)
        ensures
            r.wf(),
            r@ == Map::<Seq<char>, UnitInfo>::empty(),
            r.entry_seq().len() == 0,
    {
        ResultSet { entries: Vec::new() }
    }

    /// Records `info` under `key`, replacing what the key held before.
    pub fn insert(&mut self, key: String, info: UnitInfo)
        requires
            old(self).wf(),
        ensures
            final(self).wf(),
            final(self)@ == old(self)@.insert(key@, info),
    {
        let ghost s = self.entries@;
        let n = self.entries.len();
        let mut i: usize = 0;
        while i < n && str_lt(self.entries[i].0.as_str(), key.as_str())
            invariant
                n == s.len(),
                self.entries@ == s,
                i <= n,
                forall|j: int| 0 <= j < i ==> char_lt(#[trigger] s[j].0@, key@),
            decreases n - i,
        {
            i = i + 1;
        }
        proof {
            lemma_sorted_distinct(s);
            lemma_entries_map(s);
            if i < n {
                lemma_char_lt_total(s[i as int].0@, key@);
            }
            assert forall|j: int| i < j < n implies char_lt(key@, #[trigger] s[j].0@) by {
                lemma_char_lt_total(s[i as int].0@, key@);
                if s[i as int].0@ != key@ {
                    lemma_char_lt_transitive(key@, s[i as int].0@, s[j].0@);
                }
            }
        }
        if i < n && str_equal(self.entries[i].0.as_str(), key.as_str()) {
            self.entries.set(i, (key, info));
            proof {
                let t = self.entries@;
                assert(keys_sorted(t));
                lemma_sorted_distinct(t);
                lemma_entries_map(t);
                assert forall|k: Seq<char>| #[trigger] entries_map(t).contains_key(k) <==> old(self)@.insert(key@, info).contains_key(k) by {
                    if exists|j: int| 0 <= j < s.len() && s[j].0@ == k {
                        let j = choose|j: int| 0 <= j < s.len() && s[j].0@ == k;
                        assert(t[j].0@ == k);
                    }
                    if exists|j: int| 0 <= j < t.len() && t[j].0@ == k {
                        let j = choose|j: int| 0 <= j < t.len() && t[j].0@ == k;
                        if j != i {
                            assert(s[j].0@ == k);
                        }
                    }
                }
                assert forall|k: Seq<char>| #[trigger] entries_map(t).contains_key(k) implies entries_map(t)[k] == old(self)@.insert(key@, info)[k] by {
                    let j = choose|j: int| 0 <= j < t.len() && t[j].0@ == k;
                    if j != i {
                        assert(s[j] == t[j]);
                    }
                }
                assert(entries_map(t) =~= old(self)@.insert(key@, info));
            }
        } else {
            self.entries.insert(i, (key, info));
            proof {
                let t = self.entries@;
                assert forall|a: int, b: int| 0 <= a < b < t.len() implies char_lt(#[trigger] t[a].0@, #[trigger] t[b].0@) by {
                    if b < i {
                        assert(t[a] == s[a] && t[b] == s[b]);
                    } else if b == i {
                        assert(t[a] == s[a]);
                    } else if a == i {
                        assert(t[b] == s[b - 1]);
                    } else if a < i {
                        assert(t[a] == s[a] && t[b] == s[b - 1]);
                        lemma_char_lt_transitive(s[a].0@, key@, s[b - 1].0@);
                    } else {
                        assert(t[a] == s[a - 1] && t[b] == s[b - 1]);
                    }
                }
                assert(keys_sorted(t));
                lemma_sorted_distinct(t);
                lemma_entries_map(t);
                assert(t[i as int] == (key, info));
                assert forall|k: Seq<char>| #[trigger] entries_map(t).contains_key(k) <==> old(self)@.insert(key@, info).contains_key(k) by {
                    if k == key@ {
                        assert(t[i as int].0@ == k);
                    }
                    if exists|j: int| 0 <= j < s.len() && s[j].0@ == k {
                        let j = choose|j: int| 0 <= j < s.len() && s[j].0@ == k;
                        if j < i {
                            assert(t[j] == s[j]);
                        } else {
                            assert(t[j + 1] == s[j]);
                        }
                    }
                    if exists|j: int| 0 <= j < t.len() && t[j].0@ == k {
                        let j = choose|j: int| 0 <= j < t.len() && t[j].0@ == k;
                        if j < i {
                            assert(t[j] == s[j]);
                        } else if j > i {
                            assert(t[j] == s[j - 1]);
                        }
                    }
                }
                assert forall|k: Seq<char>| #[trigger] entries_map(t).contains_key(k) implies entries_map(t)[k] == old(self)@.insert(key@, info)[k] by {
                    let j = choose|j: int| 0 <= j < t.len() && t[j].0@ == k;
                    lemma_char_lt_irreflexive(key@);
                    if j < i {
                        assert(s[j] == t[j]);
                        assert(k != key@);
                    } else if j > i {
                        assert(s[j - 1] == t[j]);
                        assert(k != key@);
                    }
                }
                assert(entries_map(t) =~= old(self)@.insert(key@, info));
            }
        }
    }

    /// The number of units held.
    pub fn len(&self) -> (r: usize)
        ensures
            r == self.entry_seq().len(),
    {
        self.entries.len()
    }

    /// The entry at `i`, counting in order of the keys.
    pub fn entry(&self, i: usize) -> (r: &(String, UnitInfo))
        requires
            i < self.entry_seq().len(),
        ensures
            *r == self.entry_seq()[i as int],
    {
        &self.entries[i]
    }
}

} // verus!
