//! A set of declaration names.
//!
//! The scanners and the analyzer treat declaration names as a set: no name
//! occurs twice, and membership is by exact character match.  The set keeps
//! its elements in insertion order, which makes every operation on it
//! deterministic.

use vstd::prelude::*;
use crate::text::{names_view, lemma_names_view_push, str_eq};

verus! {

/// No name occurs twice.
pub open spec fn unique_names(s: Seq<Seq<char>>) -> bool {
    forall|i: int, j: int| 0 <= i < j < s.len() ==> s[i] != s[j]
}

/// `s` with `n` appended, unless `n` is already present.
pub open spec fn spec_insert_name(s: Seq<Seq<char>>, n: Seq<char>) -> Seq<Seq<char>> {
    if s.contains(n) {
        s
    } else {
        s.push(n)
    }
}

/// All of `b` inserted into `a`, in order.
pub open spec fn spec_merge_names(a: Seq<Seq<char>>, b: Seq<Seq<char>>) -> Seq<Seq<char>>
    decreases b.len(),
{
    if b.len() == 0 {
        a
    } else {
        spec_insert_name(spec_merge_names(a, b.drop_last()), b.last())
    }
}

/// Inserting keeps every present name and makes the new one present.
pub proof fn lemma_insert_name_monotone(s: Seq<Seq<char>>, n: Seq<char>, x: Seq<char>)
    ensures
        s.contains(x) ==> spec_insert_name(s, n).contains(x),
        spec_insert_name(s, n).contains(n),
{
    if !s.contains(n) {
        if s.contains(x) {
            let i = choose|i: int| 0 <= i < s.len() && s[i] == x;
            assert(s.push(n)[i] == x);
        }
        assert(s.push(n)[s.len() as int] == n);
    }
}

/// A set of declaration names, kept in insertion order.
pub struct NameSet {
    names: Vec<String>,
}

impl View for NameSet {
    type V = Seq<Seq<char>>;

    closed spec fn view(&self) -> Seq<Seq<char>> {
        names_view(self.names@)
    }
}

impl NameSet {
    /// The set holds no duplicate names.
    pub open spec fn wf(&self) -> bool {
        unique_names(self@)
    }

    /// The empty set.
    pub fn new() -> (r: NameSet)
        ensures
            r@ == Seq::<Seq<char>>::empty(),
            r.wf(),
    {
        let r = NameSet { names: Vec::new() };
        proof {
            assert(r@ =~= Seq::<Seq<char>>::empty());
        }
        r
    }

    /// How many names the set holds.
    pub fn len(&self) -> (n: usize)
        ensures
            n == self@.len(),
    {
        self.names.len()
    }

    /// The name at position `i`, in insertion order.
    pub fn get(&self, i: usize) -> (r: &String)
        requires
            i < self@.len(),
        ensures
            r@ == self@[i as int],
    {
        &self.names[i]
    }

    /// Whether the set holds `name`.
    pub fn contains(&self, name: &str) -> (b: bool)
        ensures
            b == self@.contains(name@),
    {
        let mut i: usize = 0;
        let n = self.names.len();
        while i < n
            invariant
                0 <= i <= n,
                n == self@.len(),
                forall|j: int| 0 <= j < i ==> self@[j] != name@,
        decreases n - i,
        {
            if str_eq(self.names[i].as_str(), name) {
                proof {
                    assert(self@[i as int] == name@);
                }
                return true;
            }
            i = i + 1;
        }
        false
    }

    /// Adds `name` unless it is already present.
    pub fn insert(&mut self, name: String)
        ensures
            final(self)@ == spec_insert_name(old(self)@, name@),
            old(self).wf() ==> final(self).wf(),
    {
        if !self.contains(name.as_str()) {
            proof {
                lemma_names_view_push(self.names@, name);
            }
            self.names.push(name);
        }
    }

    /// Inserts every name of `other`, in `other`'s order.
    pub fn merge_from(&mut self, other: &NameSet)
        ensures
            final(self)@ == spec_merge_names(old(self)@, other@),
            old(self).wf() ==> final(self).wf(),
    {
        let n = other.names.len();
        let mut i: usize = 0;
        while i < n
            invariant
                0 <= i <= n,
                n == other@.len(),
                self@ == spec_merge_names(old(self)@, other@.subrange(0, i as int)),
                old(self).wf() ==> self.wf(),
            decreases n - i,
        {
            let ghost pre = other@.subrange(0, i as int);
            self.insert(other.names[i].clone());
            proof {
                assert(other@.subrange(0, i + 1).drop_last() =~= pre);
                assert(other@.subrange(0, i + 1).last() == other@[i as int]);
            }
            i = i + 1;
        }
        proof {
            assert(other@.subrange(0, n as int) =~= other@);
        }
    }
}

proof fn lemma_insert_name_contains(s: Seq<Seq<char>>, n: Seq<char>, y: Seq<char>)
    ensures
        spec_insert_name(s, n).contains(y) == (s.contains(y) || y == n),
{
    if !s.contains(n) {
        if s.contains(y) {
            let i = choose|i: int| 0 <= i < s.len() && s[i] == y;
            assert(s.push(n)[i] == y);
        }
        if y == n {
            assert(s.push(n)[s.len() as int] == y);
        }
        if s.push(n).contains(y) {
            let i = choose|i: int| 0 <= i < s.push(n).len() && s.push(n)[i] == y;
            if i < s.len() {
                assert(s[i] == y);
            }
        }
    }
}

proof fn lemma_merge_names_contains(p: Seq<Seq<char>>, q: Seq<Seq<char>>, y: Seq<char>)
    ensures
        spec_merge_names(p, q).contains(y) == (p.contains(y) || q.contains(y)),
    decreases q.len(),
{
    if q.len() == 0 {
        if q.contains(y) {
            let i = choose|i: int| 0 <= i < q.len() && q[i] == y;
            assert(false);
        }
    } else {
        let q2 = q.drop_last();
        let x = q.last();
        lemma_merge_names_contains(p, q2, y);
        lemma_insert_name_contains(spec_merge_names(p, q2), x, y);
        if q.contains(y) {
            let i = choose|i: int| 0 <= i < q.len() && q[i] == y;
            if i < q.len() - 1 {
                assert(q2[i] == y);
            }
        }
        if q2.contains(y) {
            let i = choose|i: int| 0 <= i < q2.len() && q2[i] == y;
            assert(q[i] == y);
        }
        if y == x {
            assert(q[q.len() - 1] == y);
        }
    }
}

/// Union of name sets is associative: folding per-file results in either
/// grouping yields the same declaration set, in the same order.
pub proof fn lemma_merge_names_assoc(a: Seq<Seq<char>>, b: Seq<Seq<char>>, c: Seq<Seq<char>>)
    ensures
        spec_merge_names(spec_merge_names(a, b), c) == spec_merge_names(
            a,
            spec_merge_names(b, c),
        ),
    decreases c.len(),
{
    if c.len() == 0 {
    } else {
        let c2 = c.drop_last();
        let x = c.last();
        lemma_merge_names_assoc(a, b, c2);
        let m = spec_merge_names(b, c2);
        assert(spec_merge_names(b, c) == spec_insert_name(m, x));
        if m.contains(x) {
            lemma_merge_names_contains(b, c2, x);
            lemma_merge_names_contains(spec_merge_names(a, b), c2, x);
            if b.contains(x) {
                lemma_merge_names_contains(a, b, x);
            }
            assert(spec_merge_names(spec_merge_names(a, b), c2).contains(x));
            assert(spec_merge_names(spec_merge_names(a, b), c) == spec_insert_name(
                spec_merge_names(spec_merge_names(a, b), c2),
                x,
            ));
            assert(spec_merge_names(a, spec_merge_names(b, c)) == spec_merge_names(a, m));
        } else {
            assert(spec_insert_name(m, x) == m.push(x));
            assert(m.push(x).drop_last() =~= m);
            assert(m.push(x).last() == x);
            assert(spec_merge_names(a, m.push(x)) == spec_insert_name(spec_merge_names(a, m), x));
            assert(spec_merge_names(spec_merge_names(a, b), c) == spec_insert_name(
                spec_merge_names(spec_merge_names(a, b), c2),
                x,
            ));
        }
    }
}

} // verus!
