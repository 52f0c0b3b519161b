//! Searching and counting in sequences.
use vstd::prelude::*;

verus! {

/// Where the first entry stands that `p` holds of.
pub open spec fn first_index<T>(s: Seq<T>, p: spec_fn(T) -> bool) -> Option<int>
    decreases s.len(),
{
    if s.len() == 0 {
        None
    } else {
        match first_index(s.drop_last(), p) {
            Some(i) => Some(i),
            None => if p(s.last()) {
                Some(s.len() - 1)
            } else {
                None
            },
        }
    }
}

/// How many entries `p` holds of.
pub open spec fn count_where<T>(s: Seq<T>, p: spec_fn(T) -> bool) -> nat
    decreases s.len(),
{
    if s.len() == 0 {
        0
    } else {
        count_where(s.drop_last(), p) + if p(s.last()) {
            1nat
        } else {
            0nat
        }
    }
}

/// The first entry is one that `p` holds of, and `p` holds of none before it.
pub proof fn first_index_is_first<T>(s: Seq<T>, p: spec_fn(T) -> bool)
    ensures
        match first_index(s, p) {
            Some(i) => 0 <= i < s.len() && p(s[i]) && forall|j: int| 0 <= j < i ==> !p(#[trigger] s[j]),
            None => forall|j: int| 0 <= j < s.len() ==> !p(#[trigger] s[j]),
        },
    decreases s.len(),
{
    if s.len() > 0 {
        let t = s.drop_last();
        first_index_is_first(t, p);
        match first_index(t, p) {
            Some(i) => {
                assert forall|j: int| 0 <= j < i implies !p(#[trigger] s[j]) by {
                    assert(t[j] == s[j]);
                }
            },
            None => {
                assert forall|j: int| 0 <= j < t.len() implies !p(#[trigger] s[j]) by {
                    assert(t[j] == s[j]);
                }
            },
        }
    }
}

/// No more entries can be counted than there are.
pub proof fn count_is_bounded<T>(s: Seq<T>, p: spec_fn(T) -> bool)
    ensures
        count_where(s, p) <= s.len(),
    decreases s.len(),
{
    if s.len() > 0 {
        count_is_bounded(s.drop_last(), p);
    }
}

proof fn first_index_unique<T>(s: Seq<T>, p: spec_fn(T) -> bool, i: int)
    requires
        0 <= i < s.len(),
        p(s[i]),
        forall|j: int| 0 <= j < i ==> !p(#[trigger] s[j]),
    ensures
        first_index(s, p) == Some(i),
{
    first_index_is_first(s, p);
    match first_index(s, p) {
        Some(k) => {
            if k < i {
                assert(!p(s[k]));
            } else if i < k {
                assert(!p(s[i]));
            }
        },
        None => {
            assert(!p(s[i]));
        },
    }
}

/// Finds the first entry that `f` accepts.
pub(crate) fn find_first<T, F: Fn(&T) -> bool>(v: &[T], f: F, Ghost(p): Ghost<spec_fn(T) -> bool>) -> (r:
    Option<usize>)
    requires
        forall|e: T| #[trigger] f.requires((&e,)),
        forall|e: T, b: bool| #[trigger] f.ensures((&e,), b) ==> b == p(e),
    ensures
        match r {
            Some(i) => i < v@.len() && first_index(v@, p) == Some(i as int),
            None => first_index(v@, p) is None,
        },
{
    let mut i: usize = 0;
    while i < v.len()
        invariant
            i <= v@.len(),
            forall|e: T| #[trigger] f.requires((&e,)),
            forall|e: T, b: bool| #[trigger] f.ensures((&e,), b) ==> b == p(e),
            forall|j: int| 0 <= j < i ==> !p(#[trigger] v@[j]),
        decreases v@.len() - i,
    {
        if f(&v[i]) {
            proof {
                first_index_unique(v@, p, i as int);
            }
            return Some(i);
        }
        i += 1;
    }
    proof {
        first_index_is_first(v@, p);
    }
    None
}

/// Counts the entries that `f` accepts.
pub(crate) fn count<T, F: Fn(&T) -> bool>(v: &[T], f: F, Ghost(p): Ghost<spec_fn(T) -> bool>) -> (r: usize)
    requires
        forall|e: T| #[trigger] f.requires((&e,)),
        forall|e: T, b: bool| #[trigger] f.ensures((&e,), b) ==> b == p(e),
    ensures
        r == count_where(v@, p),
        r <= v@.len(),
{
    let mut n: usize = 0;
    let mut i: usize = 0;
    while i < v.len()
        invariant
            i <= v@.len(),
            n <= i,
            n == count_where(v@.take(i as int), p),
            forall|e: T| #[trigger] f.requires((&e,)),
            forall|e: T, b: bool| #[trigger] f.ensures((&e,), b) ==> b == p(e),
        decreases v@.len() - i,
    {
        assert(v@.take(i + 1).drop_last() =~= v@.take(i as int));
        if f(&v[i]) {
            n += 1;
        }
        i += 1;
    }
    assert(v@.take(i as int) =~= v@);
    n
}

/// Whether a text is among the given ones.
pub open spec fn has_text(list: Seq<String>, t: Seq<char>) -> bool {
    exists|i: int| 0 <= i < list.len() && (#[trigger] list[i])@ == t
}

/// Whether a text is among the given ones.
pub fn contains_text(list: &[String], t: &str) -> (r: bool)
    ensures
        r == has_text(list@, t@),
{
    let mut i: usize = 0;
    while i < list.len()
        invariant
            i <= list@.len(),
            forall|j: int| 0 <= j < i ==> (#[trigger] list@[j])@ != t@,
        decreases list@.len() - i,
    {
        if crate::text::same_text(list[i].as_str(), t) {
            assert(list@[i as int]@ == t@);
            return true;
        }
        i += 1;
    }
    false
}

/// Whether numbers come in order.
pub open spec fn ascending(s: Seq<u64>) -> bool {
    forall|i: int, j: int| 0 <= i <= j < s.len() ==> #[trigger] s[i] <= #[trigger] s[j]
}

/// The numbers in order.
pub fn sorted(v: &[u64]) -> (r: Vec<u64>)
    ensures
        ascending(r@),
        r@.to_multiset() == v@.to_multiset(),
        r@.len() == v@.len(),
{
    broadcast use vstd::seq_lib::group_to_multiset_ensures;

    let mut out: Vec<u64> = Vec::new();
    let mut i: usize = 0;
    assert(v@.take(0) =~= Seq::<u64>::empty());
    while i < v.len()
        invariant
            i <= v@.len(),
            ascending(out@),
            out@.to_multiset() == v@.take(i as int).to_multiset(),
            out@.len() == i,
        decreases v@.len() - i,
    {
        let x: u64 = v[i];
        let mut p: usize = 0;
        while p < out.len() && out[p] <= x
            invariant
                p <= out@.len(),
                ascending(out@),
                forall|k: int| 0 <= k < p ==> #[trigger] out@[k] <= x,
            decreases out@.len() - p,
        {
            p += 1;
        }
        let ghost before = out@;
        out.insert(p, x);
        proof {
            let t = out@;
            assert(t.remove(p as int) =~= before);
            assert(t.contains(x)) by {
                assert(t[p as int] == x);
            }
            vstd::seq_lib::to_multiset_remove(t, p as int);
            vstd::seq_lib::to_multiset_contains(t, x);
            assert(t.to_multiset() =~= before.to_multiset().insert(x));
            assert(v@.take(i + 1) =~= v@.take(i as int).push(x));
            vstd::seq_lib::to_multiset_build(v@.take(i as int), x);
            assert forall|a: int, b: int| 0 <= a <= b < t.len() implies #[trigger] t[a]
                <= #[trigger] t[b] by {
                let a0 = if a < p {
                    a
                } else {
                    a - 1
                };
                let b0 = if b < p {
                    b
                } else {
                    b - 1
                };
                if a != p {
                    assert(t[a] == before[a0]);
                }
                if b != p {
                    assert(t[b] == before[b0]);
                }
                if a == p && b != p {
                    assert(before[p as int] <= before[b0]);
                }
            }
        }
        i += 1;
    }
    assert(v@.take(i as int) =~= v@);
    out
}

proof fn ascending_last_is_greatest(s: Seq<u64>, x: u64)
    requires
        ascending(s),
        s.contains(x),
    ensures
        x <= s.last(),
{
    let i = choose|i: int| 0 <= i < s.len() && s[i] == x;
    assert(s[i] <= s[s.len() - 1]);
}

/// There is only one order: numbers in order with the same members are the same.
pub proof fn order_is_unique(a: Seq<u64>, b: Seq<u64>)
    requires
        ascending(a),
        ascending(b),
        a.to_multiset() == b.to_multiset(),
    ensures
        a == b,
    decreases a.len(),
{
    broadcast use vstd::seq_lib::group_to_multiset_ensures;

    assert(a.len() == a.to_multiset().len());
    assert(b.len() == b.to_multiset().len());
    if a.len() > 0 {
        let n = a.len() - 1;
        assert(a.contains(a[n]));
        assert(b.to_multiset().count(a[n]) > 0);
        assert(b.contains(b[n]));
        assert(a.to_multiset().count(b[n]) > 0);
        ascending_last_is_greatest(b, a[n]);
        ascending_last_is_greatest(a, b[n]);
        assert(a.remove(n) =~= a.drop_last());
        assert(b.remove(n) =~= b.drop_last());
        order_is_unique(a.drop_last(), b.drop_last());
        assert(a =~= a.drop_last().push(a[n]));
        assert(b =~= b.drop_last().push(b[n]));
    } else {
        assert(a =~= b);
    }
}

/// The first place is where the condition holds and held nowhere before; there is only one such.
pub proof fn first_index_is<T>(s: Seq<T>, p: spec_fn(T) -> bool, i: int)
    requires
        0 <= i < s.len(),
        p(s[i]),
        forall|j: int| 0 <= j < i ==> !p(#[trigger] s[j]),
    ensures
        first_index(s, p) == Some(i),
{
    first_index_is_first(s, p);
}

/// As many are counted as there are of the kind.
pub proof fn all_of_a_kind_are_counted<T>(s: Seq<T>, p: spec_fn(T) -> bool)
    ensures
        count_where(s, p) == s.filter(p).len(),
    decreases s.len(),
{
    reveal(Seq::filter);
    if s.len() > 0 {
        all_of_a_kind_are_counted(s.drop_last(), p);
    }
}

} // verus!
