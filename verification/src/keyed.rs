//! Vectors of entries that are found by a key, in the order in which they came.
use vstd::prelude::*;

verus! {

/// An entry with a key. `Query` is what a caller names the key by.
pub trait Keyed: Sized {
    type Query: ?Sized + View;

    /// The key of this entry.
    spec fn key(&self) -> <Self::Query as View>::V;

    /// Whether `query` names the key of this entry.
    fn has_key(&self, query: &Self::Query) -> (r: bool)
        ensures
            r == (self.key() == query@),
    ;
}

/// What names an entry by its height.
#[derive(Debug, Clone, Copy)]
pub struct HeightKey {
    pub height: u64,
}

impl View for HeightKey {
    type V = u64;

    open spec fn view(&self) -> u64 {
        self.height
    }
}

/// Whether some entry has the key.
pub open spec fn contains_key<T: Keyed>(s: Seq<T>, k: <T::Query as View>::V) -> bool {
    exists|i: int| 0 <= i < s.len() && (#[trigger] s[i]).key() == k
}

/// Whether no two entries have the same key.
pub open spec fn unique_keys<T: Keyed>(s: Seq<T>) -> bool {
    forall|i: int, j: int|
        0 <= i < j < s.len() ==> (#[trigger] s[i]).key() != (#[trigger] s[j]).key()
}

/// The entries whose key is another.
pub open spec fn without_key<T: Keyed>(s: Seq<T>, k: <T::Query as View>::V) -> Seq<T> {
    s.filter(|e: T| e.key() != k)
}

/// A filtered sequence keeps the order: what comes after what.
pub proof fn filter_keeps_unique<T: Keyed>(s: Seq<T>, p: spec_fn(T) -> bool)
    requires
        unique_keys(s),
    ensures
        unique_keys(s.filter(p)),
        forall|i: int|
            0 <= i < s.filter(p).len() ==> p(#[trigger] s.filter(p)[i]) && s.contains(
                s.filter(p)[i],
            ),
        forall|i: int|
            0 <= i < s.len() && p(#[trigger] s[i]) ==> s.filter(p).contains(s[i]),
        s.filter(p).len() <= s.len(),
    decreases s.len(),
{
    reveal(Seq::filter);
    if s.len() > 0 {
        let t = s.drop_last();
        filter_keeps_unique(t, p);
        let f = t.filter(p);
        assert forall|i: int| 0 <= i < f.len() implies (#[trigger] f[i]).key() != s.last().key() by {
            let j = choose|j: int| 0 <= j < t.len() && t[j] == f[i];
            assert(s[j] == t[j]);
        }
        let g = s.filter(p);
        if p(s.last()) {
            assert(g == f.push(s.last()));
        } else {
            assert(g == f);
        }
        assert forall|i: int| 0 <= i < g.len() implies p(#[trigger] g[i]) && s.contains(g[i]) by {
            if i < f.len() {
                assert(g[i] == f[i]);
                let j = choose|j: int| 0 <= j < t.len() && t[j] == f[i];
                assert(s[j] == g[i]);
            } else {
                assert(s[s.len() - 1] == g[i]);
            }
        }
        assert forall|i: int| 0 <= i < s.len() && p(#[trigger] s[i]) implies g.contains(s[i]) by {
            if i < t.len() {
                assert(t[i] == s[i]);
                assert(f.contains(t[i]));
                let j = choose|j: int| 0 <= j < f.len() && f[j] == t[i];
                assert(g[j] == s[i]);
            } else {
                assert(g[g.len() - 1] == s[i]);
            }
        }
    }
}

/// To filter twice is to filter by both conditions.
pub proof fn filter_twice<T>(
    s: Seq<T>,
    p: spec_fn(T) -> bool,
    q: spec_fn(T) -> bool,
    both: spec_fn(T) -> bool,
)
    requires
        forall|e: T| #[trigger] both(e) == (p(e) && q(e)),
    ensures
        s.filter(p).filter(q) == s.filter(both),
    decreases s.len(),
{
    reveal(Seq::filter);
    if s.len() > 0 {
        let t = s.drop_last();
        filter_twice(t, p, q, both);
        assert(both(s.last()) == (p(s.last()) && q(s.last())));
        if p(s.last()) {
            let f = t.filter(p);
            assert(s.filter(p) == f.push(s.last()));
            assert(f.push(s.last()).drop_last() =~= f);
        }
    }
}

/// A condition that always holds filters nothing out.
pub proof fn filter_all<T>(s: Seq<T>, p: spec_fn(T) -> bool)
    requires
        forall|i: int| 0 <= i < s.len() ==> p(#[trigger] s[i]),
    ensures
        s.filter(p) == s,
    decreases s.len(),
{
    reveal(Seq::filter);
    if s.len() > 0 {
        let t = s.drop_last();
        assert forall|i: int| 0 <= i < t.len() implies p(#[trigger] t[i]) by {
            assert(s[i] == t[i]);
        }
        filter_all(t, p);
        assert(p(s[s.len() - 1]));
        assert(s =~= t.push(s.last()));
    } else {
        assert(s.filter(p) =~= s);
    }
}

/// Where no entry has the key, none is left out.
pub proof fn without_absent_key<T: Keyed>(s: Seq<T>, k: <T::Query as View>::V)
    requires
        !contains_key(s, k),
    ensures
        without_key(s, k) == s,
    decreases s.len(),
{
    reveal(Seq::filter);
    if s.len() > 0 {
        let t = s.drop_last();
        assert forall|i: int| 0 <= i < t.len() implies (#[trigger] t[i]).key() != k by {
            assert(s[i] == t[i]);
        }
        without_absent_key(t, k);
        assert(s.last() == s[s.len() - 1]);
        assert(s =~= t.push(s.last()));
    } else {
        assert(without_key(s, k) =~= s);
    }
}

/// Where the entry at `i` has the key and no other has, leaving out the key removes that entry.
pub proof fn without_is_remove<T: Keyed>(s: Seq<T>, i: int)
    requires
        unique_keys(s),
        0 <= i < s.len(),
    ensures
        without_key(s, s[i].key()) == s.remove(i),
    decreases s.len(),
{
    reveal(Seq::filter);
    let k = s[i].key();
    let t = s.drop_last();
    if i == s.len() - 1 {
        assert forall|j: int| 0 <= j < t.len() implies (#[trigger] t[j]).key() != k by {
            assert(s[j] == t[j]);
        }
        without_absent_key(t, k);
        assert(s.remove(i) =~= t);
    } else {
        assert(t[i] == s[i]);
        without_is_remove(t, i);
        assert(s.last() == s[s.len() - 1]);
        assert(s.remove(i) =~= t.remove(i).push(s.last()));
    }
}

/// After a key is left out, no entry has it, and others are kept.
pub proof fn without_key_contains<T: Keyed>(
    s: Seq<T>,
    k: <T::Query as View>::V,
    other: <T::Query as View>::V,
)
    requires
        unique_keys(s),
    ensures
        contains_key(without_key(s, k), other) == (other != k && contains_key(s, other)),
{
    let p = |e: T| e.key() != k;
    filter_keeps_unique(s, p);
    let g = without_key(s, k);
    if contains_key(g, other) {
        let i = choose|i: int| 0 <= i < g.len() && (#[trigger] g[i]).key() == other;
        assert(p(g[i]));
        let j = choose|j: int| 0 <= j < s.len() && s[j] == g[i];
        assert(s[j].key() == other);
    }
    if other != k && contains_key(s, other) {
        let j = choose|j: int| 0 <= j < s.len() && (#[trigger] s[j]).key() == other;
        assert(p(s[j]));
        assert(g.contains(s[j]));
        let i = choose|i: int| 0 <= i < g.len() && g[i] == s[j];
        assert(g[i].key() == other);
    }
}

/// Leaving out a key keeps the other keys apart.
pub proof fn without_key_keeps_unique<T: Keyed>(s: Seq<T>, k: <T::Query as View>::V)
    requires
        unique_keys(s),
    ensures
        unique_keys(without_key(s, k)),
        without_key(s, k).len() <= s.len(),
        forall|i: int|
            0 <= i < without_key(s, k).len() ==> (#[trigger] without_key(s, k)[i]).key() != k
                && s.contains(without_key(s, k)[i]),
{
    filter_keeps_unique(s, |e: T| e.key() != k);
}

/// What stays without a key was there before.
pub proof fn without_key_is_part<T: Keyed>(s: Seq<T>, k: <T::Query as View>::V)
    ensures
        forall|i: int|
            0 <= i < without_key(s, k).len() ==> s.contains(#[trigger] without_key(s, k)[i]),
    decreases s.len(),
{
    reveal(Seq::filter);
    let g = without_key(s, k);
    if s.len() > 0 {
        let t = s.drop_last();
        without_key_is_part(t, k);
        let h = without_key(t, k);
        assert forall|i: int| 0 <= i < g.len() implies s.contains(#[trigger] g[i]) by {
            if i < h.len() {
                assert(t.contains(h[i]));
                let j = choose|j: int| 0 <= j < t.len() && t[j] == h[i];
                assert(s[j] == g[i]);
            } else {
                assert(s[s.len() - 1] == g[i]);
            }
        }
    }
}

/// Where entries with a key first stand.
pub fn find<T: Keyed>(v: &Vec<T>, query: &T::Query) -> (r: Option<usize>)
    ensures
        match r {
            Some(i) => i < v@.len() && v@[i as int].key() == query@,
            None => !contains_key(v@, query@),
        },
        r is Some == contains_key(v@, query@),
{
    let mut i: usize = 0;
    while i < v.len()
        invariant
            i <= v@.len(),
            forall|j: int| 0 <= j < i ==> (#[trigger] v@[j]).key() != query@,
        decreases v@.len() - i,
    {
        if v[i].has_key(query) {
            assert(v@[i as int].key() == query@);
            return Some(i);
        }
        i += 1;
    }
    None
}

/// Takes out the entry with a key.
pub fn remove<T: Keyed>(v: &mut Vec<T>, query: &T::Query) -> (r: Option<T>)
    requires
        unique_keys(old(v)@),
    ensures
        final(v)@ == without_key(old(v)@, query@),
        unique_keys(final(v)@),
        r is Some == contains_key(old(v)@, query@),
        r matches Some(e) ==> e.key() == query@ && old(v)@.contains(e),
{
    proof {
        filter_keeps_unique(v@, |e: T| e.key() != query@);
    }
    match find(v, query) {
        Some(i) => {
            proof {
                without_is_remove(v@, i as int);
            }
            Some(v.remove(i))
        },
        None => {
            proof {
                without_absent_key(v@, query@);
            }
            None
        },
    }
}

/// Puts in an entry; one that had its key gives way.
pub fn replace<T: Keyed>(v: &mut Vec<T>, query: &T::Query, entry: T)
    requires
        unique_keys(old(v)@),
        entry.key() == query@,
    ensures
        final(v)@ == without_key(old(v)@, query@).push(entry),
        unique_keys(final(v)@),
{
    proof {
        without_key_contains(v@, query@, query@);
    }
    let _ = remove(v, query);
    let ghost before = v@;
    v.push(entry);
    assert forall|a: int, b: int| 0 <= a < b < v@.len() implies (#[trigger] v@[a]).key() != (
    #[trigger] v@[b]).key() by {
        assert(v@[a] == before[a]);
        if b < before.len() {
            assert(v@[b] == before[b]);
        } else {
            assert(before[a].key() != query@);
        }
    }
}

/// Keeps the entries that `keep` accepts.
pub(crate) fn retain<T, F: Fn(&T) -> bool>(v: &mut Vec<T>, keep: F, Ghost(p): Ghost<spec_fn(T) -> bool>)
    requires
        forall|e: T| #[trigger] keep.requires((&e,)),
        forall|e: T, r: bool| #[trigger] keep.ensures((&e,), r) ==> r == p(e),
    ensures
        final(v)@ == old(v)@.filter(p),
{
    let mut all: Vec<T> = Vec::new();
    std::mem::swap(v, &mut all);
    let ghost s = all@;
    assert(v@ =~= s.take(0).filter(p)) by {
        reveal(Seq::filter);
    }
    for e in it: all
        invariant
            it.seq() == s,
            v@ == s.take(it.index() as int).filter(p),
            forall|e: T| #[trigger] keep.requires((&e,)),
            forall|e: T, r: bool| #[trigger] keep.ensures((&e,), r) ==> r == p(e),
    {
        proof {
            let k = it.index() as int;
            assert(s.take(k + 1).drop_last() =~= s.take(k));
            reveal(Seq::filter);
        }
        if keep(&e) {
            v.push(e);
        }
    }
    assert(s.take(s.len() as int) =~= s);
}

/// Without a key, the entries are those from before that have another key.
pub proof fn without_key_keeps_the_rest<T: Keyed>(s: Seq<T>, k: <T::Query as View>::V)
    ensures
        forall|e: T| without_key(s, k).contains(e) <==> s.contains(e) && e.key() != k,
        without_key(s, k).len() <= s.len(),
    decreases s.len(),
{
    reveal(Seq::filter);
    let g = without_key(s, k);
    if s.len() > 0 {
        let t = s.drop_last();
        without_key_keeps_the_rest(t, k);
        let h = without_key(t, k);
        assert forall|e: T| g.contains(e) <==> s.contains(e) && e.key() != k by {
            if g.contains(e) {
                let i = choose|i: int| 0 <= i < g.len() && g[i] == e;
                if i < h.len() {
                    assert(h[i] == e);
                    assert(h.contains(e));
                    let j = choose|j: int| 0 <= j < t.len() && t[j] == e;
                    assert(s[j] == e);
                } else {
                    assert(s[s.len() - 1] == e);
                }
            }
            if s.contains(e) && e.key() != k {
                let j = choose|j: int| 0 <= j < s.len() && s[j] == e;
                if j < t.len() {
                    assert(t[j] == e);
                    assert(h.contains(e));
                    let i = choose|i: int| 0 <= i < h.len() && h[i] == e;
                    assert(g[i] == e);
                } else {
                    assert(g[g.len() - 1] == e);
                }
            }
        }
    }
}

/// What is kept of a sequence are those of its elements that are wanted, and all of them.
pub proof fn filter_keeps_the_wanted<T>(s: Seq<T>, p: spec_fn(T) -> bool, e: T)
    ensures
        s.filter(p).contains(e) <==> s.contains(e) && p(e),
    decreases s.len(),
{
    reveal(Seq::filter);
    if s.len() > 0 {
        let t = s.drop_last();
        filter_keeps_the_wanted(t, p, e);
        let f = t.filter(p);
        if s.contains(e) {
            let i = choose|i: int| 0 <= i < s.len() && s[i] == e;
            if i < t.len() {
                assert(t[i] == e);
            }
        }
        if t.contains(e) {
            let i = choose|i: int| 0 <= i < t.len() && t[i] == e;
            assert(s[i] == e);
        }
        assert(s[s.len() - 1] == s.last());
        if p(s.last()) {
            let g = f.push(s.last());
            assert(s.filter(p) == g);
            if f.contains(e) {
                let i = choose|i: int| 0 <= i < f.len() && f[i] == e;
                assert(g[i] == e);
            }
            assert(g[f.len() as int] == s.last());
            if g.contains(e) {
                let i = choose|i: int| 0 <= i < g.len() && g[i] == e;
                if i < f.len() {
                    assert(f[i] == e);
                }
            }
        }
    }
}

} // verus!
