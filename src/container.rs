//! The write-once container.
//!
//! A container that still has an unset slot keeps one `Slot` per position:
//! either a placeholder (`MaybeUninit`, whose contents are never read or
//! dropped as a `T`) or a written value. Once every slot holds a value the
//! values are moved into a plain `Vec<T>`, so that the whole-array views are
//! borrowed from it directly.
//!
//! Every change, a committing write included, goes through an exclusive
//! handle. The borrow checker then rules out two writes racing on one slot,
//! and the contracts can say exactly which write took the slot. Producers on
//! several threads share the container behind a lock, and each write they
//! make is still decided by the slot's gate alone: the first one wins, every
//! later one is refused and its value dropped.
use std::collections::TryReserveError;
use std::mem::MaybeUninit;
use vstd::prelude::*;
use vstd::std_specs::maybe_uninit::MaybeUninitAdditionalSpecFns;
use crate::capacity::{vec_capacity, vec_shrink_to, vec_shrink_to_fit, vec_try_reserve_exact};
use crate::model::{
    after_write, all_set, gate, is_full, lemma_all_set, lemma_written_bound, lemma_written_insert,
    lemma_written_push, lemma_written_remove, lemma_written_update, truncated, unset_slots,
    written_in, written_until,
};

verus! {

/// The error of a write into a slot that already holds a value, and of a
/// whole-array view of a container with an unset slot.
#[derive(Debug, PartialEq, Eq, Structural)]
pub struct OnceVecError;

/// One position of a container that is not yet fully written.
#[derive(Debug)]
enum Slot<T> {
    Empty(MaybeUninit<T>),
    Written(T),
}

impl<T> Slot<T> {
    spec fn value(self) -> Option<T> {
        match self {
            Slot::Empty(_) => None,
            Slot::Written(v) => Some(v),
        }
    }
}

spec fn slot_values<T>(s: Seq<Slot<T>>) -> Seq<Option<T>> {
    s.map_values(|x: Slot<T>| x.value())
}

/// A sequence of slots, each written at most once.
#[derive(Debug)]
pub struct OnceVec<T> {
    /// The slots, while one of them is unset; empty otherwise.
    slots: Vec<Slot<T>>,
    /// The values, once every slot is written; empty otherwise.
    values: Vec<T>,
    /// How many slots hold a value.
    elements_written: usize,
}

impl<T> View for OnceVec<T> {
    type V = Seq<Option<T>>;

    closed spec fn view(&self) -> Seq<Option<T>> {
        if self.slots@.len() == 0 {
            all_set(self.values@)
        } else {
            slot_values(self.slots@)
        }
    }
}

impl<T> OnceVec<T> {
    /// Well-formedness: the values are in the plain vector exactly when every
    /// slot is written; before that, the counter matches the slots.
    pub closed spec fn wf(&self) -> bool {
        self.slots@.len() > 0 ==> {
            &&& self.values@.len() == 0
            &&& self.elements_written == written_in(self@)
            &&& written_in(self@) < self@.len()
        }
    }

    /// Either representation, with a correct counter.
    spec fn loose_wf(&self) -> bool {
        self.slots@.len() > 0 ==> {
            &&& self.values@.len() == 0
            &&& self.elements_written == written_in(self@)
        }
    }

    /// An empty container.
    pub fn new() -> (r: Self)
        ensures
            r.wf(),
            r@ == Seq::<Option<T>>::empty(),
    {
        let r = OnceVec { slots: Vec::new(), values: Vec::new(), elements_written: 0 };
        assert(r@ =~= Seq::<Option<T>>::empty());
        r
    }

    /// An empty container with room for `capacity` slots.
    pub fn with_capacity(capacity: usize) -> (r: Self)
        ensures
            r.wf(),
            r@ == Seq::<Option<T>>::empty(),
    {
        let r = OnceVec {
            slots: Vec::new(),
            values: Vec::with_capacity(capacity),
            elements_written: 0,
        };
        assert(r@ =~= Seq::<Option<T>>::empty());
        r
    }

    /// A container of `len` unset slots.
    pub fn with_uninit_len(len: usize) -> (r: Self)
        ensures
            r.wf(),
            r@ == unset_slots::<T>(len as nat),
    {
        let mut slots: Vec<Slot<T>> = Vec::with_capacity(len);
        let mut i: usize = 0;
        while i < len
            invariant
                i <= len,
                slots@.len() == i,
                forall|j: int| 0 <= j < i ==> (#[trigger] slots@[j]) is Empty,
            decreases len - i,
        {
            slots.push(Slot::Empty(MaybeUninit::uninit()));
            i += 1;
        }
        let r = OnceVec { slots, values: Vec::new(), elements_written: 0 };
        let ghost target = unset_slots::<T>(len as nat);
        assert(r@ =~= target);
        proof {
            lemma_zero_written(target);
        }
        r
    }

    /// Moves every slot, all of them written, into the plain vector.
    fn densify(&mut self)
        requires
            old(self).values@.len() == 0,
            is_full(old(self)@),
        ensures
            final(self).slots@.len() == 0,
            final(self)@ == old(self)@,
    {
        let mut slots: Vec<Slot<T>> = Vec::new();
        std::mem::swap(&mut slots, &mut self.slots);
        let ghost all = old(self)@;
        assert(forall|j: int| 0 <= j < slots@.len() ==> (#[trigger] slots@[j]).value() == all[j]);
        assert(slots@.len() == all.len());
        // popping from the back hands the values out in reverse; a second
        // pass restores index order
        let mut reversed: Vec<T> = Vec::new();
        while slots.len() > 0
            invariant
                slots@.len() + reversed@.len() == all.len(),
                is_full(all),
                forall|j: int| 0 <= j < slots@.len() ==> (#[trigger] slots@[j]).value() == all[j],
                forall|j: int|
                    0 <= j < reversed@.len() ==> Some(#[trigger] reversed@[j]) == all[all.len() - 1 - j],
            decreases slots@.len(),
        {
            let ghost k = slots@.len() - 1;
            assert(slots@[k].value() == all[k]);
            let last = slots.pop();
            match last {
                Some(Slot::Written(v)) => {
                    reversed.push(v);
                },
                _ => {
                    // every slot is written, so no other arm is taken
                    assert(all[k] is Some);
                },
            }
        }
        let mut values: Vec<T> = Vec::new();
        while reversed.len() > 0
            invariant
                values@.len() + reversed@.len() == all.len(),
                forall|j: int|
                    0 <= j < reversed@.len() ==> Some(#[trigger] reversed@[j]) == all[all.len() - 1 - j],
                forall|j: int| 0 <= j < values@.len() ==> Some(#[trigger] values@[j]) == all[j],
            decreases reversed@.len(),
        {
            let ghost k = reversed@.len() - 1;
            assert(Some(reversed@[k]) == all[all.len() - 1 - k]);
            let v = reversed.pop().unwrap();
            values.push(v);
        }
        self.values = values;
        assert(self@ =~= all);
    }

    /// Moves the values of the plain vector into slots, all of them written.
    fn sparsify(&mut self)
        requires
            old(self).slots@.len() == 0,
        ensures
            final(self).values@.len() == 0,
            final(self)@ == old(self)@,
            final(self).elements_written == written_in(old(self)@),
            final(self).slots@.len() == old(self)@.len(),
    {
        let mut values: Vec<T> = Vec::new();
        std::mem::swap(&mut values, &mut self.values);
        let values_len = values.len();
        let ghost all = all_set(values@);
        let mut reversed: Vec<T> = Vec::new();
        while values.len() > 0
            invariant
                values@.len() + reversed@.len() == all.len(),
                forall|j: int| 0 <= j < values@.len() ==> Some(#[trigger] values@[j]) == all[j],
                forall|j: int|
                    0 <= j < reversed@.len() ==> Some(#[trigger] reversed@[j]) == all[all.len() - 1 - j],
            decreases values@.len(),
        {
            let ghost k = values@.len() - 1;
            assert(Some(values@[k]) == all[k]);
            let v = values.pop().unwrap();
            reversed.push(v);
        }
        let mut slots: Vec<Slot<T>> = Vec::new();
        while reversed.len() > 0
            invariant
                slots@.len() + reversed@.len() == all.len(),
                forall|j: int|
                    0 <= j < reversed@.len() ==> Some(#[trigger] reversed@[j]) == all[all.len() - 1 - j],
                forall|j: int| 0 <= j < slots@.len() ==> (#[trigger] slots@[j]).value() == all[j],
            decreases reversed@.len(),
        {
            let ghost k = reversed@.len() - 1;
            assert(Some(reversed@[k]) == all[all.len() - 1 - k]);
            let v = reversed.pop().unwrap();
            slots.push(Slot::Written(v));
        }
        self.slots = slots;
        self.elements_written = values_len;
        assert(self@ =~= all);
        proof {
            lemma_all_set(old(self).values@);
        }
    }

    /// The number of slots, written or not.
    pub fn len(&self) -> (r: usize)
        requires
            self.wf(),
        ensures
            r == self@.len(),
    {
        if self.slots.len() > 0 {
            self.slots.len()
        } else {
            self.values.len()
        }
    }

    /// Writes `val` into slot `index` if that slot is still unset. Fails with
    /// `OnceVecError`, leaving the slot as it was and dropping `val`, if the
    /// slot already holds a value.
    pub fn try_write(&mut self, index: usize, val: T) -> (r: Result<(), OnceVecError>)
        requires
            old(self).wf(),
            index < old(self)@.len(),
        ensures
            final(self).wf(),
            r is Ok <==> old(self)@[index as int] is None,
            final(self)@ == after_write(old(self)@, index as int, val),
            written_in(final(self)@) == written_in(old(self)@) + if r is Ok {
                1nat
            } else {
                0nat
            },
    {
        if self.slots.len() == 0 {
            return Err(OnceVecError);
        }
        let unset = match &self.slots[index] {
            Slot::Empty(_) => true,
            Slot::Written(_) => false,
        };
        if !unset {
            return Err(OnceVecError);
        }
        let ghost before = self@;
        proof {
            lemma_written_update(before, index as int, Some(val));
        }
        self.slots.set(index, Slot::Written(val));
        self.elements_written = self.elements_written + 1;
        assert(self@ =~= before.update(index as int, Some(val)));
        self.settle();
        Ok(())
    }

    /// The number of written slots among the first `until`.
    pub fn elements_written_until(&self, until: usize) -> (r: usize)
        requires
            self.wf(),
        ensures
            r == written_until(self@, until as int),
    {
        let n = self.len();
        let end = if until < n {
            until
        } else {
            n
        };
        if self.slots.len() == 0 {
            proof {
                lemma_all_set(self.values@.take(end as int));
                assert(self@.take(end as int) =~= all_set(self.values@.take(end as int)));
                assert(self@.take(n as int) =~= self@);
            }
            return end;
        }
        let mut count: usize = 0;
        let mut i: usize = 0;
        while i < end
            invariant
                self.wf(),
                self.slots@.len() == n,
                n == self@.len(),
                end <= n,
                i <= end,
                count == written_in(self@.take(i as int)),
                count <= i,
            decreases end - i,
        {
            proof {
                assert(self@.take(i + 1) =~= self@.take(i as int).push(self@[i as int]));
                lemma_written_push(self@.take(i as int), self@[i as int]);
            }
            match &self.slots[i] {
                Slot::Written(_) => {
                    count = count + 1;
                },
                Slot::Empty(_) => {},
            }
            i = i + 1;
        }
        assert(self@.take(n as int) =~= self@);
        count
    }

    /// The number of written slots.
    pub fn elements_written(&self, _until: usize) -> (r: usize)
        requires
            self.wf(),
        ensures
            r == written_in(self@),
    {
        if self.slots.len() == 0 {
            proof {
                lemma_all_set(self.values@);
            }
            self.values.len()
        } else {
            self.elements_written
        }
    }

    /// Whether every slot holds a value; no slot is scanned.
    pub fn is_fully_written(&self) -> (r: bool)
        requires
            self.wf(),
        ensures
            r == is_full(self@),
            r == (written_in(self@) == self@.len()),
    {
        proof {
            lemma_written_bound(self@);
            lemma_all_set(self.values@);
        }
        self.slots.len() == 0
    }

    /// Drops every slot at or past `len`; the written ones run their
    /// destructor, the unset ones do not.
    pub fn truncate(&mut self, len: usize)
        requires
            old(self).wf(),
        ensures
            final(self).wf(),
            final(self)@ == truncated(old(self)@, len as int),
    {
        if len >= self.len() {
            return;
        }
        let written = self.elements_written_until(len);
        if self.slots.len() == 0 {
            self.values.truncate(len);
        } else {
            self.slots.truncate(len);
            self.elements_written = written;
        }
        assert(self@ =~= old(self)@.take(len as int));
        self.settle();
    }

    /// The values in index order, once every slot is written.
    pub fn as_slice(&self) -> (r: Result<&[T], OnceVecError>)
        requires
            self.wf(),
        ensures
            r is Err <==> written_in(self@) < self@.len(),
            r is Ok <==> is_full(self@),
            r matches Ok(s) ==> all_set(s@) == self@,
    {
        proof {
            lemma_written_bound(self@);
        }
        if !self.is_fully_written() {
            Err(OnceVecError)
        } else {
            Ok(self.values.as_slice())
        }
    }

    /// The values in index order, for mutation in place, once every slot is
    /// written.
    pub fn as_mut_slice(&mut self) -> (r: Result<&mut [T], OnceVecError>)
        requires
            old(self).wf(),
        ensures
            r is Err <==> written_in(old(self)@) < old(self)@.len(),
            r is Ok <==> is_full(old(self)@),
            r is Err ==> final(self)@ == old(self)@,
            final(self).wf(),
            r matches Ok(s) ==> all_set(s@) == old(self)@ && final(self)@ == all_set(final(s)@),
    {
        proof {
            lemma_written_bound(self@);
        }
        if !self.is_fully_written() {
            Err(OnceVecError)
        } else {
            let s = self.values.as_mut_slice();
            Ok(s)
        }
    }

    /// The values as a plain vector, once every slot is written; the
    /// container is consumed either way.
    pub fn as_vec(self) -> (r: Result<Vec<T>, OnceVecError>)
        requires
            self.wf(),
        ensures
            r is Err <==> written_in(self@) < self@.len(),
            r is Ok <==> is_full(self@),
            r matches Ok(v) ==> all_set(v@) == self@,
    {
        proof {
            lemma_written_bound(self@);
        }
        if !self.is_fully_written() {
            Err(OnceVecError)
        } else {
            Ok(self.values)
        }
    }

    /// Inserts a written slot holding `element` at `index`, shifting the
    /// later slots up.
    pub fn insert(&mut self, index: usize, element: T)
        requires
            old(self).wf(),
            index <= old(self)@.len(),
        ensures
            final(self).wf(),
            final(self)@ == old(self)@.insert(index as int, Some(element)),
            written_in(final(self)@) == written_in(old(self)@) + 1,
    {
        let ghost before = self@;
        proof {
            lemma_written_insert(before, index as int, Some(element));
        }
        if self.slots.len() == 0 {
            self.values.insert(index, element);
            assert(self@ =~= before.insert(index as int, Some(element)));
        } else {
            self.slots.insert(index, Slot::Written(element));
            assert(self.slots.len() <= usize::MAX);
            self.elements_written = self.elements_written + 1;
            assert(self@ =~= before.insert(index as int, Some(element)));
        }
    }

    /// Inserts an unset slot at `index`, shifting the later slots up;
    /// `element` is kept as the slot's placeholder and never read as a value.
    pub fn insert_uninit(&mut self, index: usize, element: MaybeUninit<T>)
        requires
            old(self).wf(),
            index <= old(self)@.len(),
        ensures
            final(self).wf(),
            final(self)@ == old(self)@.insert(index as int, None),
            written_in(final(self)@) == written_in(old(self)@),
    {
        let ghost before = self@;
        proof {
            lemma_written_insert(before, index as int, None);
            lemma_written_bound(before);
        }
        if self.slots.len() == 0 {
            self.sparsify();
        }
        self.slots.insert(index, Slot::Empty(element));
        assert(self@ =~= before.insert(index as int, None));
    }

    /// Removes the slot at `index`, shifting the later slots down, and returns
    /// its value if it was written.
    pub fn remove(&mut self, index: usize) -> (r: Option<T>)
        requires
            old(self).wf(),
            index < old(self)@.len(),
        ensures
            final(self).wf(),
            r == old(self)@[index as int],
            final(self)@ == old(self)@.remove(index as int),
            written_in(final(self)@) + gate(r) == written_in(old(self)@),
    {
        let ghost before = self@;
        proof {
            lemma_written_remove(before, index as int);
        }
        if self.slots.len() == 0 {
            let v = self.values.remove(index);
            assert(self@ =~= before.remove(index as int));
            return Some(v);
        }
        let slot = self.slots.remove(index);
        let r = match slot {
            Slot::Written(v) => {
                self.elements_written = self.elements_written - 1;
                Some(v)
            },
            Slot::Empty(_) => None,
        };
        assert(self@ =~= before.remove(index as int));
        self.settle();
        r
    }

    /// Removes the slot at `index`, shifting the later slots down, and returns
    /// its storage: the value if it was written, the placeholder otherwise.
    pub fn remove_uninit(&mut self, index: usize) -> (r: MaybeUninit<T>)
        requires
            old(self).wf(),
            index < old(self)@.len(),
        ensures
            final(self).wf(),
            old(self)@[index as int] is Some ==> r.as_option() == old(self)@[index as int],
            final(self)@ == old(self)@.remove(index as int),
            written_in(final(self)@) + gate(old(self)@[index as int]) == written_in(old(self)@),
    {
        let ghost before = self@;
        proof {
            lemma_written_remove(before, index as int);
        }
        if self.slots.len() == 0 {
            let v = self.values.remove(index);
            assert(self@ =~= before.remove(index as int));
            return MaybeUninit::new(v);
        }
        let slot = self.slots.remove(index);
        let r = match slot {
            Slot::Written(v) => {
                self.elements_written = self.elements_written - 1;
                MaybeUninit::new(v)
            },
            Slot::Empty(p) => p,
        };
        assert(self@ =~= before.remove(index as int));
        self.settle();
        r
    }

    /// Appends a written slot holding `value`.
    pub fn push(&mut self, value: T)
        requires
            old(self).wf(),
        ensures
            final(self).wf(),
            final(self)@ == old(self)@.push(Some(value)),
            written_in(final(self)@) == written_in(old(self)@) + 1,
    {
        let n = self.len();
        self.insert(n, value);
        assert(old(self)@.insert(n as int, Some(value)) =~= old(self)@.push(Some(value)));
    }

    /// Appends an unset slot whose placeholder is `value`.
    pub fn push_uninit(&mut self, value: MaybeUninit<T>)
        requires
            old(self).wf(),
        ensures
            final(self).wf(),
            final(self)@ == old(self)@.push(None),
            written_in(final(self)@) == written_in(old(self)@),
    {
        let n = self.len();
        self.insert_uninit(n, value);
        assert(old(self)@.insert(n as int, None) =~= old(self)@.push(None));
    }

    /// Removes the last slot and returns its value if it was written; `None`
    /// also for an empty container, which is left as it is.
    pub fn pop(&mut self) -> (r: Option<T>)
        requires
            old(self).wf(),
        ensures
            final(self).wf(),
            old(self)@.len() == 0 ==> r is None && final(self)@ == old(self)@,
            old(self)@.len() > 0 ==> r == old(self)@.last() && final(self)@
                == old(self)@.drop_last(),
            written_in(final(self)@) + gate(r) == written_in(old(self)@),
    {
        let n = self.len();
        if n == 0 {
            return None;
        }
        let r = self.remove(n - 1);
        assert(old(self)@.remove(n - 1) =~= old(self)@.drop_last());
        r
    }

    /// Removes the last slot and returns its storage, as `remove_uninit`
    /// does; `None` for an empty container, which is left as it is.
    pub fn pop_uninit(&mut self) -> (r: Option<MaybeUninit<T>>)
        requires
            old(self).wf(),
        ensures
            final(self).wf(),
            old(self)@.len() == 0 ==> r is None && final(self)@ == old(self)@,
            old(self)@.len() > 0 ==> r is Some && final(self)@ == old(self)@.drop_last(),
            old(self)@.len() > 0 && old(self)@.last() is Some ==> (r matches Some(m)
                && m.as_option() == old(self)@.last()),
            old(self)@.len() > 0 ==> written_in(final(self)@) + gate(old(self)@.last())
                == written_in(old(self)@),
    {
        let n = self.len();
        if n == 0 {
            return None;
        }
        let r = self.remove_uninit(n - 1);
        assert(old(self)@.remove(n - 1) =~= old(self)@.drop_last());
        Some(r)
    }

    /// How many slots the container can hold without reallocating.
    pub fn capacity(&self) -> (r: usize)
        requires
            self.wf(),
        ensures
            r >= self@.len(),
    {
        if self.slots.len() > 0 {
            vec_capacity(&self.slots)
        } else {
            vec_capacity(&self.values)
        }
    }

    /// Asks for room for at least `additional` more slots, reporting a request
    /// that cannot be met as an error. No slot changes either way.
    pub fn try_reserve(&mut self, additional: usize) -> (r: Result<(), TryReserveError>)
        requires
            old(self).wf(),
        ensures
            final(self).wf(),
            final(self)@ == old(self)@,
    {
        if self.slots.len() > 0 {
            self.slots.try_reserve(additional)
        } else {
            self.values.try_reserve(additional)
        }
    }

    /// Asks for room for exactly `additional` more slots, reporting a request
    /// that cannot be met as an error. No slot changes either way.
    pub fn try_reserve_exact(&mut self, additional: usize) -> (r: Result<(), TryReserveError>)
        requires
            old(self).wf(),
        ensures
            final(self).wf(),
            final(self)@ == old(self)@,
    {
        if self.slots.len() > 0 {
            vec_try_reserve_exact(&mut self.slots, additional)
        } else {
            vec_try_reserve_exact(&mut self.values, additional)
        }
    }

    /// Makes room for at least `additional` more slots where the allocator
    /// can; a request that cannot be met leaves the capacity as it was.
    pub fn reserve(&mut self, additional: usize)
        requires
            old(self).wf(),
        ensures
            final(self).wf(),
            final(self)@ == old(self)@,
    {
        let _ = self.try_reserve(additional);
    }

    /// Makes room for exactly `additional` more slots where the allocator
    /// can; a request that cannot be met leaves the capacity as it was.
    pub fn reserve_exact(&mut self, additional: usize)
        requires
            old(self).wf(),
        ensures
            final(self).wf(),
            final(self)@ == old(self)@,
    {
        let _ = self.try_reserve_exact(additional);
    }

    /// Gives back as much unused capacity as possible.
    pub fn shrink_to_fit(&mut self)
        requires
            old(self).wf(),
        ensures
            final(self).wf(),
            final(self)@ == old(self)@,
    {
        if self.slots.len() > 0 {
            vec_shrink_to_fit(&mut self.slots)
        } else {
            vec_shrink_to_fit(&mut self.values)
        }
    }

    /// Gives back unused capacity, keeping room for at least `min_capacity`
    /// slots.
    pub fn shrink_to(&mut self, min_capacity: usize)
        requires
            old(self).wf(),
        ensures
            final(self).wf(),
            final(self)@ == old(self)@,
    {
        if self.slots.len() > 0 {
            vec_shrink_to(&mut self.slots, min_capacity)
        } else {
            vec_shrink_to(&mut self.values, min_capacity)
        }
    }

    /// Restores the choice of representation after a change of the slots.
    fn settle(&mut self)
        requires
            old(self).loose_wf(),
        ensures
            final(self).wf(),
            final(self)@ == old(self)@,
    {
        proof {
            lemma_written_bound(self@);
        }
        if self.slots.len() > 0 && self.elements_written == self.slots.len() {
            self.densify();
        }
    }
}

proof fn lemma_zero_written<T>(s: Seq<Option<T>>)
    requires
        forall|i: int| 0 <= i < s.len() ==> (#[trigger] s[i]) is None,
    ensures
        written_in(s) == 0,
    decreases s.len(),
{
    if s.len() > 0 {
        let p = s.drop_last();
        assert forall|i: int| 0 <= i < p.len() implies (#[trigger] p[i]) is None by {
            assert(p[i] == s[i]);
        }
        lemma_zero_written(p);
    }
}

} // verus!
