//! Generic priority queues: `PriorityQueue` keeps its items in ascending
//! order and hands out the greatest first; `AdvancedQueue` orders items by a
//! priority key and finds the insertion point by binary search.
use vstd::prelude::*;
use vstd::laws_cmp::{
    obeys_cmp, obeys_cmp_ord, obeys_cmp_partial_ord, obeys_partial_cmp_spec_properties,
};
use vstd::laws_eq::obeys_eq_spec_properties;
use vstd::std_specs::cmp::{OrdSpec, PartialEqSpec, PartialOrdSpec};
use core::cmp::Ordering;

verus! {

/// `a` is greater than `b` by the order of `T`.
pub open spec fn greater<T: PartialOrd>(a: T, b: T) -> bool {
    a.partial_cmp_spec(&b) == Some(Ordering::Greater)
}

/// `a` is less than `b` by the order of `T`.
pub open spec fn less<T: PartialOrd>(a: T, b: T) -> bool {
    a.partial_cmp_spec(&b) == Some(Ordering::Less)
}

/// The items of `s` are in ascending order: no item is greater than a later
/// one.
pub open spec fn sorted<T: PartialOrd>(s: Seq<T>) -> bool {
    forall|i: int, j: int| 0 <= i < j < s.len() ==> !greater(#[trigger] s[i], #[trigger] s[j])
}

/// Where `x` goes into `s`: after the last item that is not greater than `x`
/// (what pushing `x` and sorting stably gives on a sorted `s`).
pub open spec fn insert_pos<T: PartialOrd>(s: Seq<T>, x: T) -> int
    decreases s.len(),
{
    if s.len() == 0 {
        0
    } else if greater(s.last(), x) {
        insert_pos(s.drop_last(), x)
    } else {
        s.len() as int
    }
}

/// `insert_pos` lies within the sequence; the items from it on are greater
/// than `x`, and the item before it is not.
pub proof fn lemma_insert_pos<T: PartialOrd>(s: Seq<T>, x: T)
    ensures
        0 <= insert_pos(s, x) <= s.len(),
        forall|m: int| insert_pos(s, x) <= m < s.len() ==> greater(#[trigger] s[m], x),
        insert_pos(s, x) > 0 ==> !greater(s[insert_pos(s, x) - 1], x),
    decreases s.len(),
{
    if s.len() > 0 && greater(s.last(), x) {
        lemma_insert_pos(s.drop_last(), x);
        assert forall|m: int| insert_pos(s, x) <= m < s.len() implies greater(#[trigger] s[m], x) by {
            if m < s.len() - 1 {
                assert(s[m] == s.drop_last()[m]);
            }
        }
    }
}

/// With a lawful order, "not greater than" is transitive.
pub proof fn lemma_not_greater_trans<T: Ord>(a: T, b: T, c: T)
    requires
        obeys_cmp::<T>(),
        !greater(a, b),
        !greater(b, c),
    ensures
        !greater(a, c),
{
    reveal(obeys_partial_cmp_spec_properties);
    reveal(obeys_cmp_partial_ord);
    reveal(obeys_cmp_ord);
    reveal(obeys_eq_spec_properties);
    assert(a.partial_cmp_spec(&b) == Some(a.cmp_spec(&b)));
    assert(b.partial_cmp_spec(&c) == Some(b.cmp_spec(&c)));
    assert(a.partial_cmp_spec(&c) == Some(a.cmp_spec(&c)));
    assert(b.partial_cmp_spec(&a) == Some(b.cmp_spec(&a)));
    assert(c.partial_cmp_spec(&b) == Some(c.cmp_spec(&b)));
    assert(c.partial_cmp_spec(&a) == Some(c.cmp_spec(&a)));
    if greater(a, c) {
        assert(less(c, a));
        if less(a, b) {
            if less(b, c) {
                assert(less(a, c));
            } else {
                assert(b.eq_spec(&c));
                assert(c.eq_spec(&b));
                assert(less(c, b));
            }
        } else {
            assert(a.eq_spec(&b));
            if less(b, c) {
                assert(less(b, a));
            } else {
                assert(b.eq_spec(&c));
                assert(a.eq_spec(&c));
            }
        }
    }
}

/// With a lawful order, `a > b` means `b` is not greater than `a`.
pub proof fn lemma_greater_antisym<T: Ord>(a: T, b: T)
    requires
        obeys_cmp::<T>(),
        greater(a, b),
    ensures
        !greater(b, a),
        less(b, a),
{
    reveal(obeys_partial_cmp_spec_properties);
}

/// Inserting `x` at `insert_pos` keeps a sequence sorted, for a lawful
/// order.
pub proof fn lemma_insert_keeps_sorted<T: Ord>(s: Seq<T>, x: T)
    requires
        obeys_cmp::<T>(),
        sorted(s),
    ensures
        sorted(s.insert(insert_pos(s, x), x)),
{
    let j = insert_pos(s, x);
    let t = s.insert(j, x);
    lemma_insert_pos(s, x);
    assert forall|a: int, b: int| 0 <= a < b < t.len() implies !greater(
        #[trigger] t[a],
        #[trigger] t[b],
    ) by {
        if b < j {
            assert(t[a] == s[a] && t[b] == s[b]);
        } else if b == j {
            assert(t[a] == s[a]);
            if a < j - 1 {
                lemma_not_greater_trans(s[a], s[j - 1], x);
            }
        } else if a == j {
            assert(t[b] == s[b - 1]);
            lemma_greater_antisym(s[b - 1], x);
        } else if a < j {
            assert(t[a] == s[a] && t[b] == s[b - 1]);
        } else {
            assert(t[a] == s[a - 1] && t[b] == s[b - 1]);
        }
    }
}

/// The last item of a sorted sequence is a greatest item.
pub proof fn lemma_last_is_greatest<T: Ord>(s: Seq<T>)
    requires
        obeys_cmp::<T>(),
        sorted(s),
        s.len() > 0,
    ensures
        forall|i: int| 0 <= i < s.len() ==> !greater(#[trigger] s[i], s.last()),
{
    assert forall|i: int| 0 <= i < s.len() implies !greater(#[trigger] s[i], s.last()) by {
        if i < s.len() - 1 {
            assert(!greater(s[i], s[s.len() - 1]));
        } else {
            reveal(obeys_partial_cmp_spec_properties);
        }
    }
}

// ---------------------------------------------------------------------------
// PriorityQueue
// ---------------------------------------------------------------------------

/// A position of a sequence, as an index.
pub open spec fn pos(n: usize) -> int {
    n as int
}

/// A queue that hands out its greatest item first.
pub struct PriorityQueue<T> where T: Ord {
    items: Vec<T>,
}

impl<T: Ord> View for PriorityQueue<T> {
    type V = Seq<T>;

    /// The items in ascending order; the last one is handed out next.
    closed spec fn view(&self) -> Seq<T> {
        self.items@
    }
}

impl<T: Ord> PriorityQueue<T> {
    /// With a lawful order the items are kept sorted.
    #[verifier::type_invariant]
    closed spec fn keeps_order(self) -> bool {
        obeys_cmp::<T>() ==> sorted(self.items@)
    }

    /// An empty queue.
    pub fn new() -> (q: Self)
        ensures
            q@ == Seq::<T>::empty(),
            sorted(q@),
    {
        PriorityQueue { items: Vec::new() }
    }

    /// Adds `item` after every item that is not greater than it (as pushing
    /// it and sorting stably does).
    pub fn enqueue(&mut self, item: T)
        ensures
            exists|j: int| 0 <= j <= old(self)@.len() && final(self)@ == old(self)@.insert(j, item),
            T::obeys_partial_cmp_spec() ==> final(self)@ == old(self)@.insert(
                insert_pos(old(self)@, item),
                item,
            ),
            obeys_cmp::<T>() ==> sorted(final(self)@),
    {
        proof {
            use_type_invariant(&*self);
        }
        let mut items = Vec::new();
        std::mem::swap(&mut items, &mut self.items);
        let ghost s = items@;
        let mut j = items.len();
        proof {
            assert(s.take(pos(j)) =~= s);
        }
        while j > 0 && items[j - 1] > item
            invariant
                items@ == s,
                j <= s.len(),
                T::obeys_partial_cmp_spec() ==> insert_pos(s, item) == insert_pos(
                    s.take(pos(j)),
                    item,
                ),
            decreases j,
        {
            proof {
                assert(s.take(pos(j)).drop_last() =~= s.take(j - 1));
                assert(s.take(pos(j)).last() == s[j - 1]);
            }
            j = j - 1;
        }
        proof {
            assert(s.take(s.len() + 0int) =~= s);
            if T::obeys_partial_cmp_spec() {
                assert(insert_pos(s.take(pos(j)), item) == j) by {
                    if j > 0 {
                        assert(s.take(pos(j)).last() == s[j - 1]);
                    }
                }
                if obeys_cmp::<T>() {
                    lemma_insert_keeps_sorted(s, item);
                }
            }
        }
        items.insert(j, item);
        proof {
            if obeys_cmp::<T>() {
                reveal(obeys_cmp_partial_ord);
            }
        }
        self.items = items;
        assert(s == old(self)@);
        assert(self@ == old(self)@.insert(pos(j), item));
        proof {
            use_type_invariant(&*self);
        }
    }

    /// Removes and returns the greatest item (the last one), if any.
    pub fn dequeue(&mut self) -> (r: Option<T>)
        ensures
            old(self)@.len() == 0 ==> r is None && final(self)@ == old(self)@,
            old(self)@.len() > 0 ==> r == Some(old(self)@.last()) && final(self)@ == old(self)@.drop_last(),
            obeys_cmp::<T>() && r is Some ==> forall|i: int|
                0 <= i < final(self)@.len() ==> !greater(#[trigger] final(self)@[i], r->Some_0),
            obeys_cmp::<T>() ==> sorted(final(self)@),
    {
        proof {
            use_type_invariant(&*self);
            if obeys_cmp::<T>() && self.items@.len() > 0 {
                lemma_last_is_greatest(self.items@);
            }
        }
        let mut items = Vec::new();
        std::mem::swap(&mut items, &mut self.items);
        let ghost s = items@;
        let r = items.pop();
        proof {
            if obeys_cmp::<T>() && s.len() > 0 {
                assert forall|i: int, k: int| 0 <= i < k < items@.len() implies !greater(
                    #[trigger] items@[i],
                    #[trigger] items@[k],
                ) by {
                    assert(items@[i] == s[i] && items@[k] == s[k]);
                }
                assert forall|i: int| 0 <= i < items@.len() implies !greater(
                    #[trigger] items@[i],
                    s.last(),
                ) by {
                    assert(items@[i] == s[i]);
                }
            }
        }
        self.items = items;
        proof {
            use_type_invariant(&*self);
        }
        r
    }

    /// The greatest item (the last one), if any: with a lawful order, no
    /// item of the queue is greater, and the items are in ascending order.
    pub fn peek(&self) -> (r: Option<&T>)
        ensures
            self@.len() == 0 ==> r is None,
            self@.len() > 0 ==> r is Some && *r.unwrap() == self@.last(),
            obeys_cmp::<T>() && r is Some ==> forall|i: int|
                0 <= i < self@.len() ==> !greater(#[trigger] self@[i], *r.unwrap()),
            obeys_cmp::<T>() ==> sorted(self@),
    {
        proof {
            use_type_invariant(self);
            if obeys_cmp::<T>() && self.items@.len() > 0 {
                lemma_last_is_greatest(self.items@);
            }
        }
        if self.items.len() == 0 {
            None
        } else {
            Some(&self.items[self.items.len() - 1])
        }
    }

    /// The number of items.
    pub fn len(&self) -> (r: usize)
        ensures
            r == self@.len(),
    {
        self.items.len()
    }

    /// Whether the queue holds no item.
    pub fn is_empty(&self) -> (r: bool)
        ensures
            r == (self@.len() == 0),
    {
        self.items.len() == 0
    }
}

/// Dequeuing every item of a sorted queue hands them out (in the order of
/// `s.reverse()`) so that no item is greater than one handed out before it.
pub proof fn law_dequeues_non_increasing<T: Ord>(s: Seq<T>)
    requires
        sorted(s),
    ensures
        forall|i: int, j: int|
            0 <= i < j < s.len() ==> !greater(#[trigger] s.reverse()[j], #[trigger] s.reverse()[i]),
{
    assert forall|i: int, j: int| 0 <= i < j < s.len() implies !greater(
        #[trigger] s.reverse()[j],
        #[trigger] s.reverse()[i],
    ) by {
        assert(s.reverse()[j] == s[s.len() - 1 - j]);
        assert(s.reverse()[i] == s[s.len() - 1 - i]);
    }
}

/// Two dequeues in a row hand out items in non-increasing order: the second
/// item is never greater than the first.
pub proof fn law_dequeue_order<T: Ord>(s: Seq<T>)
    requires
        obeys_cmp::<T>(),
        sorted(s),
        s.len() >= 2,
    ensures
        !greater(s.drop_last().last(), s.last()),
{
    assert(s.drop_last().last() == s[s.len() - 2]);
}

// ---------------------------------------------------------------------------
// Prioritized items and AdvancedQueue
// ---------------------------------------------------------------------------

/// Items that carry a priority key.
pub trait Prioritized {
    type Priority: Ord;

    /// The priority of the item.
    spec fn spec_priority(&self) -> Self::Priority;

    /// The priority of the item.
    fn priority(&self) -> (r: Self::Priority)
        ensures
            r == self.spec_priority(),
    ;
}

/// The priorities of the items of `s`.
pub open spec fn priorities<T: Prioritized>(s: Seq<T>) -> Seq<T::Priority> {
    s.map_values(|x: T| x.spec_priority())
}

/// A queue of prioritized items, kept in ascending order of priority; the
/// item with the greatest priority is handed out first.
pub struct AdvancedQueue<T> where T: Prioritized {
    items: Vec<T>,
}

impl<T: Prioritized> View for AdvancedQueue<T> {
    type V = Seq<T>;

    /// The items in ascending order of priority; the last one is handed out
    /// next.
    closed spec fn view(&self) -> Seq<T> {
        self.items@
    }
}

impl<T: Prioritized> AdvancedQueue<T> {
    /// With a lawful order of priorities the items are kept sorted by it.
    #[verifier::type_invariant]
    closed spec fn keeps_order(self) -> bool {
        obeys_cmp::<T::Priority>() ==> sorted(priorities(self.items@))
    }

    /// An empty queue.
    pub fn new() -> (q: Self)
        ensures
            q@ == Seq::<T>::empty(),
    {
        AdvancedQueue { items: Vec::new() }
    }

    /// Inserts `item` at a place that a binary search on the priorities
    /// finds: after the items with smaller priority and before those with
    /// greater priority (among items of equal priority, the place is not
    /// fixed).
    pub fn enqueue(&mut self, item: T)
        ensures
            exists|j: int|
                0 <= j <= old(self)@.len() && final(self)@ == old(self)@.insert(j, item) && (
                obeys_cmp::<T::Priority>() ==> (forall|m: int|
                    0 <= m < j ==> !greater(
                        #[trigger] old(self)@[m].spec_priority(),
                        item.spec_priority(),
                    )) && (forall|m: int|
                    j <= m < old(self)@.len() ==> !less(
                        #[trigger] old(self)@[m].spec_priority(),
                        item.spec_priority(),
                    ))),
    {
        proof {
            use_type_invariant(&*self);
        }
        let mut items = Vec::new();
        std::mem::swap(&mut items, &mut self.items);
        let ghost s = items@;
        let ghost ps = priorities(s);
        let p = item.priority();
        // binary search for the insertion point
        let mut lo: usize = 0;
        let mut hi: usize = items.len();
        while lo < hi
            invariant
                items@ == s,
                ps == priorities(s),
                p == item.spec_priority(),
                lo <= hi <= s.len(),
                obeys_cmp::<T::Priority>() ==> sorted(ps),
                obeys_cmp::<T::Priority>() ==> forall|m: int| 0 <= m < lo ==> !greater(#[trigger] ps[m], p),
                obeys_cmp::<T::Priority>() ==> forall|m: int| hi <= m < s.len() ==> !less(#[trigger] ps[m], p),
            decreases hi - lo,
        {
            let mid = lo + (hi - lo) / 2;
            let k = items[mid].priority();
            assert(k == ps[pos(mid)]);
            if k < p {
                proof {
                    if obeys_cmp::<T::Priority>() {
                        reveal(obeys_cmp_partial_ord);
                        assert forall|m: int| 0 <= m < mid + 1 implies !greater(#[trigger] ps[m], p) by {
                            if m < mid {
                                lemma_less_via_sorted(ps, m, pos(mid), p);
                            }
                        }
                    }
                }
                lo = mid + 1;
            } else if k == p {
                proof {
                    if obeys_cmp::<T::Priority>() {
                        reveal(obeys_cmp_partial_ord);
                        reveal(obeys_partial_cmp_spec_properties);
                        reveal(obeys_eq_spec_properties);
                        lemma_found_equal(ps, pos(mid), p);
                    }
                }
                lo = mid;
                hi = mid;
            } else {
                proof {
                    if obeys_cmp::<T::Priority>() {
                        reveal(obeys_cmp_partial_ord);
                        assert forall|m: int| mid <= m < s.len() implies !less(#[trigger] ps[m], p) by {
                            if m > mid {
                                lemma_not_less_via_sorted(ps, pos(mid), m, p);
                            }
                        }
                    }
                }
                hi = mid;
            }
        }
        let j = lo;
        proof {
            if obeys_cmp::<T::Priority>() {
                lemma_insert_between_keeps_sorted(s, item, pos(j));
                assert forall|m: int| 0 <= m < j implies !greater(
                    #[trigger] s[m].spec_priority(),
                    item.spec_priority(),
                ) by {
                    assert(ps[m] == s[m].spec_priority());
                    reveal(obeys_partial_cmp_spec_properties);
                }
                assert forall|m: int| j <= m < s.len() implies !less(
                    #[trigger] s[m].spec_priority(),
                    item.spec_priority(),
                ) by {
                    assert(ps[m] == s[m].spec_priority());
                }
            }
        }
        items.insert(j, item);
        self.items = items;
        assert(s == old(self)@);
        assert(self@ == old(self)@.insert(pos(j), item));
    }

    /// Removes and returns the item with the greatest priority (the last
    /// one), if any.
    pub fn dequeue(&mut self) -> (r: Option<T>)
        ensures
            old(self)@.len() == 0 ==> r is None && final(self)@ == old(self)@,
            old(self)@.len() > 0 ==> r == Some(old(self)@.last()) && final(self)@ == old(self)@.drop_last(),
    {
        proof {
            use_type_invariant(&*self);
        }
        let mut items = Vec::new();
        std::mem::swap(&mut items, &mut self.items);
        let ghost s = items@;
        let r = items.pop();
        proof {
            if obeys_cmp::<T::Priority>() && s.len() > 0 {
                assert(priorities(items@) =~= priorities(s).drop_last());
                assert forall|i: int, k: int| 0 <= i < k < items@.len() implies !greater(
                    #[trigger] priorities(items@)[i],
                    #[trigger] priorities(items@)[k],
                ) by {
                    assert(priorities(items@)[i] == priorities(s)[i]);
                    assert(priorities(items@)[k] == priorities(s)[k]);
                }
            }
        }
        self.items = items;
        r
    }
}

proof fn lemma_less_via_sorted<K: Ord>(ps: Seq<K>, m: int, mid: int, p: K)
    requires
        obeys_cmp::<K>(),
        sorted(ps),
        0 <= m < mid < ps.len(),
        less(ps[mid], p),
    ensures
        less(ps[m], p),
{
    reveal(obeys_partial_cmp_spec_properties);
    reveal(obeys_cmp_partial_ord);
    reveal(obeys_cmp_ord);
    reveal(obeys_eq_spec_properties);
    assert(!greater(ps[m], ps[mid]));
    assert(ps[m].partial_cmp_spec(&ps[mid]) == Some(ps[m].cmp_spec(&ps[mid])));
    assert(ps[m].partial_cmp_spec(&p) == Some(ps[m].cmp_spec(&p)));
    assert(p.partial_cmp_spec(&ps[m]) == Some(p.cmp_spec(&ps[m])));
    assert(ps[mid].partial_cmp_spec(&ps[m]) == Some(ps[mid].cmp_spec(&ps[m])));
    if ps[m].eq_spec(&ps[mid]) {
        assert(ps[mid].eq_spec(&ps[m]));
        if !less(ps[m], p) {
            if ps[m].eq_spec(&p) {
                assert(ps[mid].eq_spec(&p));
            } else {
                assert(greater(ps[m], p));
                assert(less(p, ps[m]));
                assert(less(ps[mid], ps[m]));
            }
        }
    }
}

proof fn lemma_not_less_via_sorted<K: Ord>(ps: Seq<K>, mid: int, m: int, p: K)
    requires
        obeys_cmp::<K>(),
        sorted(ps),
        0 <= mid < m < ps.len(),
        !less(ps[mid], p),
    ensures
        !less(ps[m], p),
{
    reveal(obeys_partial_cmp_spec_properties);
    reveal(obeys_cmp_partial_ord);
    reveal(obeys_cmp_ord);
    reveal(obeys_eq_spec_properties);
    assert(!greater(ps[mid], ps[m]));
    assert(ps[mid].partial_cmp_spec(&ps[m]) == Some(ps[mid].cmp_spec(&ps[m])));
    assert(ps[m].partial_cmp_spec(&p) == Some(ps[m].cmp_spec(&p)));
    assert(ps[mid].partial_cmp_spec(&p) == Some(ps[mid].cmp_spec(&p)));
    assert(ps[m].partial_cmp_spec(&ps[mid]) == Some(ps[m].cmp_spec(&ps[mid])));
    assert(p.partial_cmp_spec(&ps[mid]) == Some(p.cmp_spec(&ps[mid])));
    if less(ps[m], p) {
        if ps[mid].eq_spec(&ps[m]) {
            assert(ps[m].eq_spec(&ps[mid]));
            if ps[mid].eq_spec(&p) {
                assert(ps[m].eq_spec(&p));
            } else {
                assert(greater(ps[mid], p));
                assert(less(p, ps[mid]));
                assert(less(ps[m], ps[mid]));
            }
        } else {
            assert(less(ps[mid], ps[m]));
            assert(less(ps[mid], p));
        }
    }
}

proof fn lemma_found_equal<K: Ord>(ps: Seq<K>, mid: int, p: K)
    requires
        obeys_cmp::<K>(),
        same_rank(ps[mid], p),
        0 <= mid < ps.len(),
        sorted(ps),
    ensures
        forall|m: int| 0 <= m < mid ==> !greater(#[trigger] ps[m], p),
        forall|m: int| mid <= m < ps.len() ==> !less(#[trigger] ps[m], p),
{
    reveal(obeys_partial_cmp_spec_properties);
    reveal(obeys_cmp_partial_ord);
    reveal(obeys_cmp_ord);
    reveal(obeys_eq_spec_properties);
    assert forall|m: int| 0 <= m < mid implies !greater(#[trigger] ps[m], p) by {
        assert(!greater(ps[m], ps[mid]));
        lemma_not_greater_trans(ps[m], ps[mid], p);
    }
    assert forall|m: int| mid <= m < ps.len() implies !less(#[trigger] ps[m], p) by {
        if m > mid {
            lemma_not_less_via_sorted(ps, mid, m, p);
        }
    }
}

/// `a` and `b` are equal by the order.
pub open spec fn same_rank<K: PartialOrd>(a: K, b: K) -> bool {
    a.partial_cmp_spec(&b) == Some(Ordering::Equal)
}

proof fn lemma_insert_between_keeps_sorted<T: Prioritized>(s: Seq<T>, item: T, j: int)
    requires
        obeys_cmp::<T::Priority>(),
        sorted(priorities(s)),
        0 <= j <= s.len(),
        forall|m: int| 0 <= m < j ==> !greater(#[trigger] priorities(s)[m], item.spec_priority()),
        forall|m: int| j <= m < s.len() ==> !less(#[trigger] priorities(s)[m], item.spec_priority()),
    ensures
        sorted(priorities(s.insert(j, item))),
{
    let ps = priorities(s);
    let t = priorities(s.insert(j, item));
    let p = item.spec_priority();
    assert(t =~= ps.insert(j, p));
    reveal(obeys_partial_cmp_spec_properties);
    reveal(obeys_cmp_partial_ord);
    reveal(obeys_cmp_ord);
    assert forall|a: int, b: int| 0 <= a < b < t.len() implies !greater(
        #[trigger] t[a],
        #[trigger] t[b],
    ) by {
        if b < j {
            assert(t[a] == ps[a] && t[b] == ps[b]);
        } else if b == j {
            assert(t[a] == ps[a]);
        } else if a == j {
            assert(t[b] == ps[b - 1]);
            assert(!less(ps[b - 1], p));
            assert(ps[b - 1].partial_cmp_spec(&p) == Some(ps[b - 1].cmp_spec(&p)));
            assert(p.partial_cmp_spec(&ps[b - 1]) == Some(p.cmp_spec(&ps[b - 1])));
        } else if a < j {
            assert(t[a] == ps[a] && t[b] == ps[b - 1]);
        } else {
            assert(t[a] == ps[a - 1] && t[b] == ps[b - 1]);
        }
    }
}

// ---------------------------------------------------------------------------
// Task
// ---------------------------------------------------------------------------

/// A named task; tasks are ordered by urgency first.
#[derive(Debug, Eq, PartialEq, PartialOrd, Ord)]
pub struct Task {
    pub urgency: u32,
    pub name: String,
}

impl Prioritized for Task {
    type Priority = u32;

    open spec fn spec_priority(&self) -> u32 {
        self.urgency
    }

    fn priority(&self) -> (r: u32) {
        self.urgency
    }
}

// ---------------------------------------------------------------------------
// QueueOperations
// ---------------------------------------------------------------------------

/// The operations of a queue that hands out items one at a time.
pub trait QueueOperations<T> {
    /// The items in the queue; the last one is handed out next.
    spec fn pending(&self) -> Seq<T>;

    fn enqueue(&mut self, item: T)
        ensures
            exists|j: int|
                0 <= j <= old(self).pending().len() && final(self).pending() == old(self).pending().insert(j, item),
    ;

    fn dequeue(&mut self) -> (r: Option<T>)
        ensures
            old(self).pending().len() == 0 ==> r is None && final(self).pending() == old(self).pending(),
            old(self).pending().len() > 0 ==> r == Some(old(self).pending().last()) && final(self).pending() == old(self).pending().drop_last(),
    ;

    fn len(&self) -> (r: usize)
        ensures
            r == self.pending().len(),
    ;
}

impl<T: Ord> QueueOperations<T> for PriorityQueue<T> {
    open spec fn pending(&self) -> Seq<T> {
        self@
    }

    fn enqueue(&mut self, item: T) {
        PriorityQueue::enqueue(self, item);
        proof {
            let j = choose|j: int|
                0 <= j <= old(self)@.len() && final(self)@ == old(self)@.insert(j, item);
            assert(final(self).pending() == old(self).pending().insert(j, item));
        }
    }

    fn dequeue(&mut self) -> (r: Option<T>) {
        PriorityQueue::dequeue(self)
    }

    fn len(&self) -> (r: usize) {
        PriorityQueue::len(self)
    }
}

/// Hands out up to `max_items` items of `queue`, in the order the queue
/// hands them out; stops early when the queue runs empty.
pub fn process_queue<T, Q>(queue: &mut Q, max_items: usize) -> (r: Vec<T>) where
    Q: QueueOperations<T>,

    ensures
        ({
            let n = old(queue).pending().len();
            let k = if max_items < n { max_items as int } else { n as int };
            &&& r@ == old(queue).pending().skip(n - k).reverse()
            &&& final(queue).pending() == old(queue).pending().take(n - k)
        }),
{
    let ghost start = queue.pending();
    let mut processed: Vec<T> = Vec::new();
    let mut i: usize = 0;
    while i < max_items
        invariant_except_break
            i <= max_items,
            i <= start.len(),
            queue.pending() == start.take(start.len() - i),
            processed@ == start.skip(start.len() - i).reverse(),
        ensures
            ({
                let n = start.len();
                let k = if max_items < n { max_items as int } else { n as int };
                &&& processed@ == start.skip(n - k).reverse()
                &&& queue.pending() == start.take(n - k)
            }),
        decreases max_items - i,
    {
        match queue.dequeue() {
            Some(item) => {
                let ghost before = processed@;
                processed.push(item);
                proof {
                    let n = start.len();
                    assert(start.take(n - i).last() == start[n - i - 1]);
                    assert(start.skip(n - (i + 1)).reverse() =~= before.push(start[n - i - 1]));
                    assert(start.take(n - i).drop_last() =~= start.take(n - (i + 1)));
                }
                i = i + 1;
            },
            None => {
                break;
            },
        }
    }
    processed
}

} // verus!
