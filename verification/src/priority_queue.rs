//! A queue that hands out the value with the least priority first and lets
//! the priority of a queued value change.

use std::collections::HashMap;
use std::hash::Hash;
use vstd::prelude::*;
use vstd::std_specs::hash::obeys_key_model;

verus! {

/// A min-heap of values with priorities, with an index from each value to
/// its place in the heap. A value is queued at most once.
#[derive(Debug)]
pub struct PriorityQueue<V> {
    elems: Vec<(i64, V)>,
    value_map: HashMap<V, usize>,
}

/// The place above `i` in the heap.
pub open spec fn parent(i: int) -> int {
    (i - 1) / 2
}

/// Whether the index knows every queued value, and nothing else, by its
/// place.
pub open spec fn indexed<V>(elems: Seq<(i64, V)>, index: Map<V, usize>) -> bool {
    &&& forall|i: int|
        0 <= i < elems.len() ==> index.contains_key((#[trigger] elems[i]).1) && index[elems[i].1]
            == i
    &&& forall|v: V| #[trigger]
        index.contains_key(v) ==> index[v] < elems.len() && elems[index[v] as int].1 == v
}

/// Whether no place but `odd` holds a lesser priority than the place above
/// it, and no place below `odd` holds a lesser priority than the place above
/// `odd`.
pub open spec fn heap_but_child<V>(elems: Seq<(i64, V)>, odd: int) -> bool {
    &&& forall|i: int| 0 < i < elems.len() && i != odd ==> elems[parent(i)].0 <= (#[trigger] elems[i]).0
    &&& forall|i: int|
        0 < i < elems.len() && parent(i) == odd && odd > 0 ==> elems[parent(odd)].0 <= (
        #[trigger] elems[i]).0
}

/// Whether no place holds a lesser priority than the place above it, but
/// perhaps the places below `odd`, and no place below `odd` holds a lesser
/// priority than the place above `odd`.
pub open spec fn heap_but_parent<V>(elems: Seq<(i64, V)>, odd: int) -> bool {
    &&& forall|i: int|
        0 < i < elems.len() && parent(i) != odd ==> elems[parent(i)].0 <= (#[trigger] elems[i]).0
    &&& forall|i: int|
        0 < i < elems.len() && parent(i) == odd && odd > 0 ==> elems[parent(odd)].0 <= (
        #[trigger] elems[i]).0
}

/// Whether no place holds a lesser priority than the place above it.
pub open spec fn heap<V>(elems: Seq<(i64, V)>) -> bool {
    forall|i: int| 0 < i < elems.len() ==> elems[parent(i)].0 <= (#[trigger] elems[i]).0
}

/// The priorities of the queued values.
pub open spec fn priorities<V>(elems: Seq<(i64, V)>, index: Map<V, usize>) -> Map<V, i64> {
    Map::new(|v: V| index.contains_key(v), |v: V| elems[index[v] as int].0)
}

/// In a heap the first place holds the least priority.
pub proof fn lemma_heap_root<V>(elems: Seq<(i64, V)>, i: int)
    requires
        heap(elems),
        0 <= i < elems.len(),
    ensures
        elems[0].0 <= elems[i].0,
    decreases i,
{
    if i > 0 {
        lemma_heap_root(elems, parent(i));
    }
}

impl<V: Copy + Eq + Hash> View for PriorityQueue<V> {
    type V = Map<V, i64>;

    /// The priorities of the queued values.
    closed spec fn view(&self) -> Map<V, i64> {
        priorities(self.elems@, self.value_map@)
    }
}

impl<V: Copy + Eq + Hash> PriorityQueue<V> {
    /// Whether the queue is sound: values can be looked up, the index knows
    /// the place of each queued value, and the heap is in order.
    pub closed spec fn wf(&self) -> bool {
        &&& obeys_key_model::<V>()
        &&& indexed(self.elems@, self.value_map@)
        &&& heap(self.elems@)
    }

    /// An empty queue. It is sound where values of the type can be looked
    /// up in a hash map.
    pub fn new() -> (q: PriorityQueue<V>)
        ensures
            q@ == Map::<V, i64>::empty(),
            obeys_key_model::<V>() ==> q.wf(),
    {
        let q = PriorityQueue { elems: Vec::new(), value_map: HashMap::new() };
        assert(q@ =~= Map::<V, i64>::empty());
        q
    }

    /// The number of queued values.
    pub fn len(&self) -> (n: usize)
        requires
            self.wf(),
        ensures
            n == self@.dom().len(),
            self@.dom().finite(),
    {
        proof {
            self.lemma_len();
        }
        self.elems.len()
    }

    /// There are as many queued values as places in the heap.
    proof fn lemma_len(&self)
        requires
            self.wf(),
        ensures
            self@.dom().finite(),
            self@.dom().len() == self.elems@.len(),
    {
        let places = Set::new(|i: int| 0 <= i < self.elems@.len());
        let f = |i: int| self.elems@[i].1;
        vstd::set_lib::lemma_int_range(0, self.elems@.len() as int);
        assert(places =~= vstd::set_lib::set_int_range(0, self.elems@.len() as int));
        assert(vstd::relations::injective_on(f, places));
        assert forall|v: V| places.map(f).contains(v) == self@.dom().contains(v) by {
            if self@.dom().contains(v) {
                assert(places.contains(self.value_map@[v] as int));
                assert(f(self.value_map@[v] as int) == v);
            }
        }
        assert(places.map(f) =~= self@.dom());
        vstd::set_lib::lemma_map_size(places, self@.dom(), f);
    }

    /// Exchanges two places of the heap and keeps the index in step.
    fn swap(&mut self, i: usize, j: usize)
        requires
            obeys_key_model::<V>(),
            indexed(old(self).elems@, old(self).value_map@),
            i < old(self).elems@.len(),
            j < old(self).elems@.len(),
        ensures
            indexed(final(self).elems@, final(self).value_map@),
            final(self).elems@ == old(self).elems@.update(i as int, old(self).elems@[j as int]).update(
                j as int,
                old(self).elems@[i as int],
            ),
            final(self)@ == old(self)@,
            final(self).value_map@.dom() == old(self).value_map@.dom(),
    {
        let tmp = self.elems[i];
        let other = self.elems[j];
        self.elems.set(i, other);
        self.elems.set(j, tmp);
        self.value_map.insert(tmp.1, j);
        self.value_map.insert(other.1, i);
        proof {
            assert(self.value_map@.dom() =~= old(self).value_map@.dom());
            assert(self@ =~= old(self)@);
        }
    }

    /// Moves the value at place `i` up until the place above it holds no
    /// greater priority.
    fn upheap(&mut self, i: usize)
        requires
            obeys_key_model::<V>(),
            indexed(old(self).elems@, old(self).value_map@),
            i < old(self).elems@.len(),
            heap_but_child(old(self).elems@, i as int),
        ensures
            final(self).wf(),
            final(self)@ == old(self)@,
            final(self).elems@.len() == old(self).elems@.len(),
    {
        let mut i = i;
        while i > 0
            invariant
                obeys_key_model::<V>(),
                indexed(self.elems@, self.value_map@),
                i < self.elems@.len(),
                heap_but_child(self.elems@, i as int),
                self@ == old(self)@,
                self.elems@.len() == old(self).elems@.len(),
            ensures
                heap(self.elems@),
            decreases i,
        {
            let up = (i - 1) / 2;
            if self.elems[up].0 > self.elems[i].0 {
                let ghost before = self.elems@;
                self.swap(i, up);
                proof {
                    assert forall|c: int| 0 < c < self.elems@.len() && c != up implies self.elems@[parent(
                        c,
                    )].0 <= (#[trigger] self.elems@[c]).0 by {
                        if c == i {
                        } else if parent(c) == i {
                            assert(before[parent(i as int)].0 <= before[c].0);
                        } else if parent(c) == up {
                            assert(before[parent(c)].0 <= before[c].0);
                        } else {
                            assert(before[parent(c)].0 <= before[c].0);
                        }
                    }
                    assert forall|c: int|
                        0 < c < self.elems@.len() && parent(c) == up && up > 0 implies self.elems@[parent(
                        up as int,
                    )].0 <= (#[trigger] self.elems@[c]).0 by {
                        assert(before[parent(up as int)].0 <= before[up as int].0);
                        if c != i {
                            assert(before[parent(c)].0 <= before[c].0);
                        }
                    }
                }
                i = up;
            } else {
                break ;
            }
        }
    }

    /// Moves the value at place `i` down until no place below it holds a
    /// lesser priority.
    fn downheap(&mut self, i: usize)
        requires
            obeys_key_model::<V>(),
            indexed(old(self).elems@, old(self).value_map@),
            i < old(self).elems@.len(),
            heap_but_parent(old(self).elems@, i as int),
        ensures
            final(self).wf(),
            final(self)@ == old(self)@,
            final(self).elems@.len() == old(self).elems@.len(),
    {
        let mut i = i;
        let len = self.elems.len();
        loop
            invariant
                obeys_key_model::<V>(),
                indexed(self.elems@, self.value_map@),
                len == self.elems@.len(),
                i < len,
                heap_but_parent(self.elems@, i as int),
                self@ == old(self)@,
                self.elems@.len() == old(self).elems@.len(),
            ensures
                heap(self.elems@),
            decreases len - i,
        {
            if i >= len / 2 {
                proof {
                    lemma_settled(self.elems@, i as int, i as int);
                }
                break ;
            }
            let left = 2 * i + 1;
            let least = if left + 1 < len && self.elems[left + 1].0 < self.elems[left].0 {
                left + 1
            } else {
                left
            };
            if self.elems[i].0 > self.elems[least].0 {
                proof {
                    lemma_swap_down(self.elems@, i as int, least as int);
                }
                self.swap(i, least);
                i = least;
            } else {
                proof {
                    lemma_settled(self.elems@, i as int, least as int);
                }
                break ;
            }
        }
    }

    /// Gives the value at place `elem_idx` a new priority and restores the
    /// order of the heap.
    fn update_priority(&mut self, elem_idx: usize, new_k: i64)
        requires
            old(self).wf(),
            elem_idx < old(self).elems@.len(),
        ensures
            final(self).wf(),
            final(self)@ == old(self)@.insert(old(self).elems@[elem_idx as int].1, new_k),
    {
        let (old_k, value) = self.elems[elem_idx];
        self.elems.set(elem_idx, (new_k, value));
        proof {
            assert(self.elems@[elem_idx as int].1 == value);
            assert(indexed(self.elems@, self.value_map@));
            assert(self@ =~= old(self)@.insert(value, new_k));
        }
        if new_k > old_k {
            proof {
                assert forall|c: int|
                    0 < c < self.elems@.len() && parent(c) == elem_idx && elem_idx
                        > 0 implies self.elems@[parent(elem_idx as int)].0 <= (
                #[trigger] self.elems@[c]).0 by {
                    assert(old(self).elems@[parent(c)].0 <= old(self).elems@[c].0);
                    assert(old(self).elems@[parent(elem_idx as int)].0 <= old(self).elems@[elem_idx as int].0);
                }
            }
            self.downheap(elem_idx);
        } else {
            proof {
                assert forall|c: int|
                    0 < c < self.elems@.len() && c != elem_idx implies self.elems@[parent(c)].0 <= (
                #[trigger] self.elems@[c]).0 by {
                    assert(old(self).elems@[parent(c)].0 <= old(self).elems@[c].0);
                }
                assert forall|c: int|
                    0 < c < self.elems@.len() && parent(c) == elem_idx && elem_idx
                        > 0 implies self.elems@[parent(elem_idx as int)].0 <= (
                #[trigger] self.elems@[c]).0 by {
                    assert(old(self).elems@[parent(c)].0 <= old(self).elems@[c].0);
                    assert(old(self).elems@[parent(elem_idx as int)].0 <= old(self).elems@[elem_idx as int].0);
                }
            }
            self.upheap(elem_idx);
        }
    }

    /// Queues a value that is not queued yet.
    fn insert(&mut self, priority: i64, value: V)
        requires
            old(self).wf(),
            !old(self)@.contains_key(value),
        ensures
            final(self).wf(),
            final(self)@ == old(self)@.insert(value, priority),
    {
        self.elems.push((priority, value));
        self.value_map.insert(value, self.elems.len() - 1);
        proof {
            assert(indexed(self.elems@, self.value_map@));
            assert(self@ =~= old(self)@.insert(value, priority));
            assert forall|c: int|
                0 < c < self.elems@.len() && c != self.elems@.len() - 1 implies self.elems@[parent(
                c,
            )].0 <= (#[trigger] self.elems@[c]).0 by {
                assert(old(self).elems@[parent(c)].0 <= old(self).elems@[c].0);
            }
        }
        self.upheap(self.elems.len() - 1);
    }

    /// Queues `value` with the given priority, or gives it that priority
    /// where it is queued already.
    pub fn set(&mut self, priority: i64, value: V)
        requires
            old(self).wf(),
        ensures
            final(self).wf(),
            final(self)@ == old(self)@.insert(value, priority),
    {
        let found = match self.value_map.get(&value) {
            Some(idx) => Some(*idx),
            None => None,
        };
        match found {
            Some(idx) => {
                self.update_priority(idx, priority);
            },
            None => {
                self.insert(priority, value);
            },
        }
    }

    /// Takes out a value with the least priority, or returns `None` where
    /// nothing is queued.
    pub fn remove_min(&mut self) -> (r: Option<V>)
        requires
            old(self).wf(),
        ensures
            final(self).wf(),
            r is None <==> old(self)@.dom() =~= Set::<V>::empty(),
            r is None ==> final(self)@ == old(self)@,
            r matches Some(v) ==> old(self)@.contains_key(v) && final(self)@ == old(self)@.remove(v)
                && forall|w: V| #[trigger] old(self)@.contains_key(w) ==> old(self)@[v] <= old(self)@[w],
    {
        if self.elems.len() == 0 {
            assert(self@.dom() =~= Set::<V>::empty());
            return None;
        }
        let min = self.elems[0];
        proof {
            assert(self@.contains_key(min.1));
            assert forall|w: V| #[trigger] self@.contains_key(w) implies self@[min.1] <= self@[w] by {
                lemma_heap_root(self.elems@, self.value_map@[w] as int);
            }
        }
        self.take_out(0);
        Some(min.1)
    }

    /// Takes `value` out of the queue where it is queued.
    pub fn remove(&mut self, value: V)
        requires
            old(self).wf(),
        ensures
            final(self).wf(),
            final(self)@ == old(self)@.remove(value),
    {
        let found = match self.value_map.get(&value) {
            Some(idx) => Some(*idx),
            None => None,
        };
        match found {
            Some(idx) => {
                self.take_out(idx);
            },
            None => {
                assert(self@ =~= old(self)@.remove(value));
            },
        }
    }

    /// Takes out the value at place `idx`: the last value of the heap takes
    /// its place and moves up or down to where it belongs.
    fn take_out(&mut self, idx: usize)
        requires
            old(self).wf(),
            idx < old(self).elems@.len(),
        ensures
            final(self).wf(),
            final(self)@ == old(self)@.remove(old(self).elems@[idx as int].1),
    {
        let last = self.elems.len() - 1;
        let gone = self.elems[idx];
        self.swap(idx, last);
        self.elems.pop();
        self.value_map.remove(&gone.1);
        proof {
            assert(indexed(self.elems@, self.value_map@));
            assert(self@ =~= old(self)@.remove(gone.1));
            lemma_filled(old(self).elems@, self.elems@, idx as int);
        }
        if idx < last {
            let moved = self.elems[idx];
            if moved.0 > gone.0 {
                self.downheap(idx);
            } else {
                self.upheap(idx);
            }
        }
    }
}

/// The places below `i` are `2 * i + 1` and `2 * i + 2`.
pub proof fn lemma_below(i: int, c: int)
    requires
        0 <= i,
        0 < c,
    ensures
        parent(c) == i <==> c == 2 * i + 1 || c == 2 * i + 2,
{
}

/// A heap that is in order but perhaps below `i` is in order where `i` holds
/// no greater priority than the least of the places below it, or has no
/// place below it. `least` is the place below `i` with the least priority,
/// or `i` itself where there is none.
pub proof fn lemma_settled<V>(elems: Seq<(i64, V)>, i: int, least: int)
    requires
        0 <= i < elems.len(),
        heap_but_parent(elems, i),
        least == i ==> 2 * i + 1 >= elems.len(),
        least != i ==> (least == 2 * i + 1 || least == 2 * i + 2) && least < elems.len()
            && elems[i].0 <= elems[least].0 && (2 * i + 1 < elems.len() ==> elems[least].0
            <= elems[2 * i + 1].0) && (2 * i + 2 < elems.len() ==> elems[least].0 <= elems[2 * i
            + 2].0),
    ensures
        heap(elems),
{
    assert forall|c: int| 0 < c < elems.len() implies elems[parent(c)].0 <= (#[trigger] elems[c]).0 by {
        lemma_below(i, c);
    }
}

/// Exchanging a place with the least of the places below it, where that one
/// holds a lesser priority, leaves the heap in order but perhaps below the
/// lower of the two places.
pub proof fn lemma_swap_down<V>(elems: Seq<(i64, V)>, i: int, least: int)
    requires
        0 <= i < elems.len(),
        heap_but_parent(elems, i),
        (least == 2 * i + 1 || least == 2 * i + 2) && least < elems.len(),
        elems[i].0 > elems[least].0,
        2 * i + 1 < elems.len() ==> elems[least].0 <= elems[2 * i + 1].0,
        2 * i + 2 < elems.len() ==> elems[least].0 <= elems[2 * i + 2].0,
    ensures
        heap_but_parent(elems.update(i, elems[least]).update(least, elems[i]), least),
{
    let after = elems.update(i, elems[least]).update(least, elems[i]);
    lemma_below(i, least);
    assert forall|c: int| 0 < c < after.len() && parent(c) != least implies after[parent(c)].0 <= (
    #[trigger] after[c]).0 by {
        lemma_below(i, c);
        if c == least {
        } else if parent(c) == i {
        } else if c == i {
            assert(elems[parent(i)].0 <= elems[least].0);
        } else {
            assert(elems[parent(c)].0 <= elems[c].0);
        }
    }
    assert forall|c: int| 0 < c < after.len() && parent(c) == least && least > 0 implies after[parent(
        least,
    )].0 <= (#[trigger] after[c]).0 by {
        assert(elems[parent(c)].0 <= elems[c].0);
    }
}

/// Taking the value at place `idx` out of a heap in order and putting the
/// last value in its place leaves the heap in order but perhaps below
/// `idx`, where the priority there grew, and but perhaps at `idx` itself,
/// where it did not. Taking out the last place leaves the heap in order.
pub proof fn lemma_filled<V>(before: Seq<(i64, V)>, after: Seq<(i64, V)>, idx: int)
    requires
        heap(before),
        0 <= idx < before.len(),
        after.len() == before.len() - 1,
        forall|c: int| 0 <= c < after.len() && c != idx ==> after[c] == before[c],
        idx < after.len() ==> after[idx] == before[before.len() - 1],
    ensures
        idx == after.len() ==> heap(after),
        idx < after.len() && after[idx].0 > before[idx].0 ==> heap_but_parent(after, idx),
        idx < after.len() && after[idx].0 <= before[idx].0 ==> heap_but_child(after, idx),
{
    if idx == after.len() {
        assert forall|c: int| 0 < c < after.len() implies after[parent(c)].0 <= (#[trigger] after[c]).0 by {
            assert(before[parent(c)].0 <= before[c].0);
        }
    } else if after[idx].0 > before[idx].0 {
        assert forall|c: int| 0 < c < after.len() && parent(c) != idx implies after[parent(c)].0 <= (
        #[trigger] after[c]).0 by {
            assert(before[parent(c)].0 <= before[c].0);
        }
        assert forall|c: int| 0 < c < after.len() && parent(c) == idx && idx > 0 implies after[parent(
            idx,
        )].0 <= (#[trigger] after[c]).0 by {
            assert(before[parent(c)].0 <= before[c].0);
            assert(before[parent(idx)].0 <= before[idx].0);
        }
    } else {
        assert forall|c: int| 0 < c < after.len() && c != idx implies after[parent(c)].0 <= (
        #[trigger] after[c]).0 by {
            assert(before[parent(c)].0 <= before[c].0);
        }
        assert forall|c: int| 0 < c < after.len() && parent(c) == idx && idx > 0 implies after[parent(
            idx,
        )].0 <= (#[trigger] after[c]).0 by {
            assert(before[parent(c)].0 <= before[c].0);
            assert(before[parent(idx)].0 <= before[idx].0);
        }
    }
}

} // verus!
