//! The mathematical model of a write-once sequence: a `Seq<Option<T>>`, where
//! `None` is a slot whose gate is unset and `Some(v)` a slot holding `v`.
use vstd::prelude::*;

verus! {

/// One for a slot that holds a value, zero for an unset slot.
pub open spec fn gate<T>(o: Option<T>) -> nat {
    if o is Some {
        1
    } else {
        0
    }
}

/// The number of slots of `s` that hold a value.
pub open spec fn written_in<T>(s: Seq<Option<T>>) -> nat
    decreases s.len(),
{
    if s.len() == 0 {
        0
    } else {
        written_in(s.drop_last()) + gate(s.last())
    }
}

/// The number of written slots among the first `until` slots of `s`.
pub open spec fn written_until<T>(s: Seq<Option<T>>, until: int) -> nat {
    if until >= s.len() {
        written_in(s)
    } else {
        written_in(s.take(until))
    }
}

/// `n` unset slots.
pub open spec fn unset_slots<T>(n: nat) -> Seq<Option<T>> {
    Seq::new(n, |j: int| None::<T>)
}

/// Every slot of `s` holds a value.
pub open spec fn is_full<T>(s: Seq<Option<T>>) -> bool {
    forall|i: int| 0 <= i < s.len() ==> (#[trigger] s[i]) is Some
}

/// `vals` as a sequence of written slots.
pub open spec fn all_set<T>(vals: Seq<T>) -> Seq<Option<T>> {
    vals.map_values(|v: T| Some(v))
}

/// The slots after a committing write of `v` at `i`: the slot takes `v`
/// only if its gate was unset.
pub open spec fn after_write<T>(s: Seq<Option<T>>, i: int, v: T) -> Seq<Option<T>> {
    if s[i] is None {
        s.update(i, Some(v))
    } else {
        s
    }
}

/// The slots left after truncating to `len`.
pub open spec fn truncated<T>(s: Seq<Option<T>>, len: int) -> Seq<Option<T>> {
    if len >= s.len() {
        s
    } else {
        s.take(len)
    }
}

pub proof fn lemma_written_single<T>(x: Option<T>)
    ensures
        written_in(seq![x]) == gate(x),
{
    let s = seq![x];
    assert(s.drop_last() =~= Seq::<Option<T>>::empty());
    assert(written_in(s.drop_last()) == 0);
}

/// Counting distributes over concatenation.
pub proof fn lemma_written_concat<T>(a: Seq<Option<T>>, b: Seq<Option<T>>)
    ensures
        written_in(a + b) == written_in(a) + written_in(b),
    decreases b.len(),
{
    if b.len() == 0 {
        assert(a + b =~= a);
    } else {
        lemma_written_concat(a, b.drop_last());
        assert((a + b).drop_last() =~= a + b.drop_last());
        assert((a + b).last() == b.last());
    }
}

/// The count never exceeds the length, and reaches it exactly when every
/// slot holds a value.
pub proof fn lemma_written_bound<T>(s: Seq<Option<T>>)
    ensures
        written_in(s) <= s.len(),
        written_in(s) == s.len() <==> is_full(s),
    decreases s.len(),
{
    if s.len() > 0 {
        let p = s.drop_last();
        lemma_written_bound(p);
        if is_full(s) {
            assert forall|i: int| 0 <= i < p.len() implies (#[trigger] p[i]) is Some by {
                assert(p[i] == s[i]);
            }
            assert(s[s.len() - 1] is Some);
        }
        if written_in(s) == s.len() {
            assert forall|i: int| 0 <= i < s.len() implies (#[trigger] s[i]) is Some by {
                if i < s.len() - 1 {
                    assert(p[i] == s[i]);
                }
            }
        }
    }
}

/// A sequence of written slots is full and counts its whole length.
pub proof fn lemma_all_set<T>(vals: Seq<T>)
    ensures
        all_set(vals).len() == vals.len(),
        is_full(all_set(vals)),
        written_in(all_set(vals)) == vals.len(),
{
    lemma_written_bound(all_set(vals));
}

/// Splits `s` around slot `i`.
pub proof fn lemma_split_at<T>(s: Seq<Option<T>>, i: int)
    requires
        0 <= i < s.len(),
    ensures
        written_in(s) == written_in(s.take(i)) + gate(s[i]) + written_in(s.skip(i + 1)),
{
    assert(s =~= s.take(i) + seq![s[i]] + s.skip(i + 1));
    lemma_written_concat(s.take(i) + seq![s[i]], s.skip(i + 1));
    lemma_written_concat(s.take(i), seq![s[i]]);
    lemma_written_single(s[i]);
}

/// Replacing one slot changes the count by the difference of the two gates.
pub proof fn lemma_written_update<T>(s: Seq<Option<T>>, i: int, x: Option<T>)
    requires
        0 <= i < s.len(),
    ensures
        written_in(s.update(i, x)) + gate(s[i]) == written_in(s) + gate(x),
{
    let t = s.update(i, x);
    lemma_split_at(s, i);
    lemma_split_at(t, i);
    assert(t.take(i) =~= s.take(i));
    assert(t.skip(i + 1) =~= s.skip(i + 1));
}

/// Inserting a slot adds its gate to the count.
pub proof fn lemma_written_insert<T>(s: Seq<Option<T>>, i: int, x: Option<T>)
    requires
        0 <= i <= s.len(),
    ensures
        written_in(s.insert(i, x)) == written_in(s) + gate(x),
{
    let t = s.insert(i, x);
    lemma_split_at(t, i);
    assert(t.take(i) =~= s.take(i));
    assert(t.skip(i + 1) =~= s.skip(i));
    assert(s =~= s.take(i) + s.skip(i));
    lemma_written_concat(s.take(i), s.skip(i));
}

/// Removing a slot takes its gate off the count.
pub proof fn lemma_written_remove<T>(s: Seq<Option<T>>, i: int)
    requires
        0 <= i < s.len(),
    ensures
        written_in(s.remove(i)) + gate(s[i]) == written_in(s),
{
    let t = s.remove(i);
    lemma_split_at(s, i);
    assert(t =~= s.take(i) + s.skip(i + 1));
    lemma_written_concat(s.take(i), s.skip(i + 1));
}

/// Appending a slot adds its gate to the count.
pub proof fn lemma_written_push<T>(s: Seq<Option<T>>, x: Option<T>)
    ensures
        written_in(s.push(x)) == written_in(s) + gate(x),
{
    assert(s.push(x).drop_last() =~= s);
}

/// The slots after committing writes at the indices of `order`, one after
/// another, the write at index `j` carrying `vals[j]`.
pub open spec fn write_each<T>(s: Seq<Option<T>>, order: Seq<int>, vals: Seq<T>) -> Seq<
    Option<T>,
>
    decreases order.len(),
{
    if order.len() == 0 {
        s
    } else {
        let i = order.last();
        after_write(write_each(s, order.drop_last(), vals), i, vals[i])
    }
}

/// Of two committing writes at the same slot, the second never succeeds: the
/// slot holds a value after the first, and the second leaves everything as
/// it was. When the slot was unset, the first succeeds and its value is the
/// one stored.
pub proof fn lemma_one_write_wins<T>(s: Seq<Option<T>>, i: int, v1: T, v2: T)
    requires
        0 <= i < s.len(),
    ensures
        after_write(s, i, v1)[i] is Some,
        after_write(after_write(s, i, v1), i, v2) == after_write(s, i, v1),
        s[i] is None ==> after_write(after_write(s, i, v1), i, v2)[i] == Some(v1),
{
}

proof fn lemma_write_each_slots<T>(n: nat, order: Seq<int>, vals: Seq<T>)
    requires
        vals.len() == n,
        order.no_duplicates(),
        forall|k: int| 0 <= k < order.len() ==> 0 <= #[trigger] order[k] < n,
    ensures
        write_each(unset_slots::<T>(n), order, vals).len() == n,
        forall|j: int|
            0 <= j < n ==> #[trigger] write_each(unset_slots::<T>(n), order, vals)[j]
                == if order.contains(j) {
                Some(vals[j])
            } else {
                None
            },
    decreases order.len(),
{
    let s0 = unset_slots::<T>(n);
    if order.len() > 0 {
        let p = order.drop_last();
        let x = order.last();
        assert forall|k: int| 0 <= k < p.len() implies 0 <= #[trigger] p[k] < n by {
            assert(p[k] == order[k]);
        }
        assert(p.no_duplicates()) by {
            assert forall|a: int, b: int| 0 <= a < p.len() && 0 <= b < p.len() && a != b implies p[a]
                != p[b] by {
                assert(p[a] == order[a] && p[b] == order[b]);
            }
        }
        lemma_write_each_slots(n, p, vals);
        let prev = write_each(s0, p, vals);
        assert(!p.contains(x)) by {
            if p.contains(x) {
                let k = choose|k: int| 0 <= k < p.len() && p[k] == x;
                assert(order[k] == order[order.len() - 1]);
            }
        }
        assert(prev[x] is None);
        assert forall|j: int| 0 <= j < n implies #[trigger] write_each(s0, order, vals)[j] == if order.contains(j) {
            Some(vals[j])
        } else {
            None
        } by {
            if j == x {
                assert(order[order.len() - 1] == j);
            } else {
                if p.contains(j) {
                    let k = choose|k: int| 0 <= k < p.len() && p[k] == j;
                    assert(order[k] == j);
                }
                if order.contains(j) {
                    let k = choose|k: int| 0 <= k < order.len() && order[k] == j;
                    assert(k != order.len() - 1);
                    assert(p[k] == j);
                }
            }
        }
    }
}

/// Writing every slot of an unset sequence once, in any order, leaves it
/// fully written with each slot holding the value written at its index.
pub proof fn lemma_write_all_any_order<T>(n: nat, order: Seq<int>, vals: Seq<T>)
    requires
        vals.len() == n,
        order.len() == n,
        order.no_duplicates(),
        forall|k: int| 0 <= k < n ==> 0 <= #[trigger] order[k] < n,
        forall|j: int| 0 <= j < n ==> order.contains(j),
    ensures
        write_each(unset_slots::<T>(n), order, vals) == all_set(vals),
        is_full(write_each(unset_slots::<T>(n), order, vals)),
        written_in(write_each(unset_slots::<T>(n), order, vals)) == n,
{
    lemma_write_each_slots(n, order, vals);
    let r = write_each(unset_slots::<T>(n), order, vals);
    assert(r =~= all_set(vals));
    lemma_all_set(vals);
}

/// After a truncation to `k`, counting the written slots among the first `k`
/// gives the count of the whole truncated sequence.
pub proof fn lemma_truncate_rescan<T>(s: Seq<Option<T>>, k: int)
    requires
        0 <= k,
    ensures
        written_until(truncated(s, k), k) == written_in(truncated(s, k)),
{
}

} // verus!
