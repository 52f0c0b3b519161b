//! Sets of texts.
use vstd::prelude::*;

use crate::search;
use crate::search::contains_text;
use crate::text::same_text;

verus! {

/// The texts of a list.
pub open spec fn texts(list: Seq<String>) -> Seq<Seq<char>> {
    Seq::new(list.len(), |i: int| list[i]@)
}

/// A text at the end of a list is one more in the set.
pub(crate) proof fn push_inserts(list: Seq<Seq<char>>, t: Seq<char>)
    ensures
        list.push(t).to_set() == list.to_set().insert(t),
{
    let next = list.push(t);
    assert forall|x: Seq<char>| next.to_set().contains(x) == list.to_set().insert(t).contains(
        x,
    ) by {
        if list.contains(x) {
            let i = choose|i: int| 0 <= i < list.len() && list[i] == x;
            assert(next[i] == x);
        }
        assert(next[list.len() as int] == t);
        if next.contains(x) && x != t {
            let i = choose|i: int| 0 <= i < next.len() && next[i] == x;
            assert(list[i] == x);
        }
    }
    assert(next.to_set() =~= list.to_set().insert(t));
}

/// A set of texts, in the order in which they came.
pub struct TextSet {
    items: Vec<String>,
}

impl View for TextSet {
    type V = Set<Seq<char>>;

    closed spec fn view(&self) -> Set<Seq<char>> {
        texts(self.items@).to_set()
    }
}

impl TextSet {
    /// No text is listed twice.
    pub closed spec fn wf(&self) -> bool {
        texts(self.items@).no_duplicates()
    }

    /// The texts in the order in which they came.
    pub closed spec fn list(&self) -> Seq<Seq<char>> {
        texts(self.items@)
    }

    /// The list holds each text of the set once.
    pub proof fn list_is_set(&self)
        requires
            self.wf(),
        ensures
            self.list().no_duplicates(),
            self.list().to_set() == self@,
            self@.finite(),
            self.list().len() == self@.len(),
    {
        self.list().unique_seq_to_set();
    }

    /// The empty set.
    pub fn new() -> (r: Self)
        ensures
            r.wf(),
            r@ == Set::<Seq<char>>::empty(),
            r.list() == Seq::<Seq<char>>::empty(),
    {
        let r = TextSet { items: Vec::new() };
        assert(r@ =~= Set::<Seq<char>>::empty());
        assert(r.list() =~= Seq::<Seq<char>>::empty());
        r
    }

    /// The texts of a list.
    pub fn of(list: &[String]) -> (r: Self)
        ensures
            r.wf(),
            r@ == texts(list@).to_set(),
    {
        let mut set = TextSet::new();
        let mut i: usize = 0;
        assert(texts(list@.take(0)).to_set() =~= Set::<Seq<char>>::empty());
        while i < list.len()
            invariant
                i <= list@.len(),
                set.wf(),
                set@ == texts(list@.take(i as int)).to_set(),
            decreases list@.len() - i,
        {
            proof {
                assert(texts(list@.take(i + 1)) =~= texts(list@.take(i as int)).push(
                    list@[i as int]@,
                ));
                push_inserts(texts(list@.take(i as int)), list@[i as int]@);
            }
            let _ = set.insert(list[i].clone());
            i += 1;
        }
        assert(list@.take(i as int) =~= list@);
        set
    }

    /// Whether a text is in the set.
    pub fn contains(&self, t: &str) -> (r: bool)
        ensures
            r == self@.contains(t@),
    {
        proof {
            if search::has_text(self.items@, t@) {
                let i = choose|i: int| 0 <= i < self.items@.len() && (
                #[trigger] self.items@[i])@ == t@;
                assert(texts(self.items@)[i] == t@);
            }
            if self@.contains(t@) {
                let i = choose|i: int|
                    0 <= i < texts(self.items@).len() && texts(self.items@)[i] == t@;
                assert(self.items@[i]@ == t@);
            }
        }
        contains_text(self.items.as_slice(), t)
    }

    /// How many texts are in the set.
    pub fn len(&self) -> (r: usize)
        requires
            self.wf(),
        ensures
            r == self@.len(),
    {
        proof {
            self.list_is_set();
        }
        self.items.len()
    }

    /// The text at place `i` of the list.
    pub fn get(&self, i: usize) -> (r: &str)
        requires
            self.wf(),
            i < self@.len(),
        ensures
            r@ == self.list()[i as int],
    {
        proof {
            self.list_is_set();
        }
        self.items[i].as_str()
    }

    /// Adds a text, and says whether it was not there before.
    pub fn insert(&mut self, t: String) -> (r: bool)
        requires
            old(self).wf(),
        ensures
            final(self).wf(),
            final(self)@ == old(self)@.insert(t@),
            r == !old(self)@.contains(t@),
            final(self).list() == if r {
                old(self).list().push(t@)
            } else {
                old(self).list()
            },
    {
        let ghost before = self.list();
        let ghost x = t@;
        if self.contains(t.as_str()) {
            assert(self@ =~= self@.insert(x));
            return false;
        }
        self.items.push(t);
        proof {
            let after = self.list();
            assert(after =~= before.push(x));
            assert forall|y: Seq<char>| after.to_set().contains(y) == before.to_set().insert(
                x,
            ).contains(y) by {
                if before.contains(y) {
                    let i = choose|i: int| 0 <= i < before.len() && before[i] == y;
                    assert(after[i] == y);
                }
                if y == x {
                    assert(after[before.len() as int] == y);
                }
                if after.contains(y) {
                    let i = choose|i: int| 0 <= i < after.len() && after[i] == y;
                    if i < before.len() {
                        assert(before[i] == y);
                    }
                }
            }
            assert(self@ =~= before.to_set().insert(x));
            assert forall|i: int, j: int|
                0 <= i < after.len() && 0 <= j < after.len() && i != j implies after[i] != after[j] by {
                if i < before.len() {
                    assert(after[i] == before[i]);
                    assert(before.contains(before[i]));
                }
                if j < before.len() {
                    assert(after[j] == before[j]);
                    assert(before.contains(before[j]));
                }
            }
        }
        true
    }

    /// Takes out a text, and says whether it was there.
    pub fn remove(&mut self, t: &str) -> (r: bool)
        requires
            old(self).wf(),
        ensures
            final(self).wf(),
            final(self)@ == old(self)@.remove(t@),
            r == old(self)@.contains(t@),
    {
        let ghost before = self.list();
        let mut i: usize = 0;
        while i < self.items.len()
            invariant
                *self == *old(self),
                i <= self.items@.len(),
                forall|j: int| 0 <= j < i ==> (#[trigger] self.items@[j])@ != t@,
                before == self.list(),
                old(self).wf(),
            decreases self.items@.len() - i,
        {
            if same_text(self.items[i].as_str(), t) {
                let _ = self.items.remove(i);
                proof {
                    let after = self.list();
                    assert(after =~= before.remove(i as int));
                    assert(before[i as int] == t@);
                    assert forall|y: Seq<char>| after.to_set().contains(y)
                        == before.to_set().remove(t@).contains(y) by {
                        if before.contains(y) && y != t@ {
                            let k = choose|k: int| 0 <= k < before.len() && before[k] == y;
                            assert(after[if k < i { k } else { k - 1 }] == y);
                        }
                        if after.contains(y) {
                            let k = choose|k: int| 0 <= k < after.len() && after[k] == y;
                            let m = if k < i { k } else { k + 1 };
                            assert(before[m] == y);
                            assert(m != i);
                        }
                    }
                    assert(self@ =~= before.to_set().remove(t@));
                    assert(before.contains(t@));
                }
                return true;
            }
            i += 1;
        }
        proof {
            if self@.contains(t@) {
                let k = choose|k: int| 0 <= k < before.len() && before[k] == t@;
                assert(self.items@[k]@ == t@);
            }
            assert(self@ =~= self@.remove(t@));
        }
        false
    }

    /// Takes out every text.
    pub fn clear(&mut self)
        ensures
            final(self).wf(),
            final(self)@ == Set::<Seq<char>>::empty(),
    {
        self.items.clear();
        assert(self@ =~= Set::<Seq<char>>::empty());
    }

    /// How many texts of this set are in another.
    pub fn count_common(&self, other: &TextSet) -> (r: usize)
        requires
            self.wf(),
        ensures
            r == self@.intersect(other@).len(),
            self@.intersect(other@).finite(),
            r <= self@.len(),
    {
        let ghost l = self.list();
        let mut n: usize = 0;
        let mut i: usize = 0;
        proof {
            self.list_is_set();
            assert(l.take(0).to_set().intersect(other@) =~= Set::<Seq<char>>::empty());
        }
        while i < self.items.len()
            invariant
                self.wf(),
                l == self.list(),
                l.no_duplicates(),
                i <= self.items@.len(),
                n <= i,
                l.take(i as int).to_set().intersect(other@).finite(),
                n == l.take(i as int).to_set().intersect(other@).len(),
            decreases self.items@.len() - i,
        {
            let ghost a = l.take(i as int);
            let ghost b = l.take(i + 1);
            let ghost x = l[i as int];
            proof {
                assert forall|y: Seq<char>| b.contains(y) == (a.contains(y) || y == x) by {
                    if a.contains(y) {
                        let k = choose|k: int| 0 <= k < a.len() && a[k] == y;
                        assert(b[k] == y);
                    }
                    if y == x {
                        assert(b[i as int] == y);
                    }
                    if b.contains(y) {
                        let k = choose|k: int| 0 <= k < b.len() && b[k] == y;
                        if k < i {
                            assert(a[k] == y);
                        }
                    }
                }
                assert(!a.contains(x)) by {
                    if a.contains(x) {
                        let k = choose|k: int| 0 <= k < a.len() && a[k] == x;
                        assert(l[k] == l[i as int]);
                    }
                }
                if other@.contains(x) {
                    assert(b.to_set().intersect(other@) =~= a.to_set().intersect(other@).insert(x));
                } else {
                    assert(b.to_set().intersect(other@) =~= a.to_set().intersect(other@));
                }
            }
            if other.contains(self.items[i].as_str()) {
                n += 1;
            }
            i += 1;
        }
        assert(l.take(i as int) =~= l);
        n
    }
}

} // verus!
