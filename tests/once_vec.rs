use once_vec::{OnceVec, OnceVecError};
use std::cell::Cell;
use std::mem::MaybeUninit;
use std::rc::Rc;

#[test]
fn first_test() {
    let mut once_vec: OnceVec<f32> = OnceVec::with_uninit_len(6);
    let _ = once_vec.try_write(5, 0.35);
    assert!(once_vec.as_slice().is_err());
    let _ = once_vec.try_write(0, 0.30);
    let _ = once_vec.try_write(1, 0.31);
    let _ = once_vec.try_write(2, 0.32);
    let _ = once_vec.try_write(3, 0.33);
    let _ = once_vec.try_write(4, 0.34);
    assert_eq!(
        once_vec.as_slice().unwrap(),
        &[0.30, 0.31, 0.32, 0.33, 0.34, 0.35]
    );
    once_vec.as_mut_slice().unwrap()[5] = 0.40;
    assert_eq!(
        once_vec.as_slice().unwrap(),
        &[0.30, 0.31, 0.32, 0.33, 0.34, 0.40]
    );
    let vec = once_vec.as_vec().unwrap();
    assert_eq!(vec, vec![0.30, 0.31, 0.32, 0.33, 0.34, 0.40]);
}

#[test]
fn second_write_to_a_slot_fails_and_keeps_the_first() {
    let mut v: OnceVec<u32> = OnceVec::with_uninit_len(2);
    assert_eq!(v.try_write(1, 10), Ok(()));
    assert_eq!(v.try_write(1, 20), Err(OnceVecError));
    assert_eq!(v.elements_written(0), 1);
    assert_eq!(v.try_write(0, 5), Ok(()));
    assert_eq!(v.try_write(0, 6), Err(OnceVecError));
    assert_eq!(v.as_slice().unwrap(), &[5, 10]);
}

#[test]
fn writing_every_slot_in_any_order_fills_in_index_order() {
    let mut v: OnceVec<u32> = OnceVec::with_uninit_len(5);
    for i in [3usize, 0, 4, 2, 1] {
        assert!(!v.is_fully_written());
        assert_eq!(v.try_write(i, (i as u32) * 100), Ok(()));
    }
    assert!(v.is_fully_written());
    assert_eq!(v.elements_written(0), 5);
    assert_eq!(v.as_slice().unwrap(), &[0, 100, 200, 300, 400]);
}

#[test]
fn views_fail_exactly_while_a_slot_is_unset() {
    let mut v: OnceVec<u8> = OnceVec::with_uninit_len(3);
    assert_eq!(v.as_slice(), Err(OnceVecError));
    assert!(v.as_mut_slice().is_err());
    v.try_write(0, 1).unwrap();
    v.try_write(2, 3).unwrap();
    assert_eq!(v.elements_written(0), 2);
    assert_eq!(v.len(), 3);
    assert_eq!(v.as_slice(), Err(OnceVecError));
    v.try_write(1, 2).unwrap();
    assert_eq!(v.as_slice(), Ok(&[1u8, 2, 3][..]));
}

#[test]
fn partial_container_does_not_convert() {
    let mut v: OnceVec<u8> = OnceVec::with_uninit_len(2);
    v.try_write(0, 1).unwrap();
    assert_eq!(v.as_vec(), Err(OnceVecError));
}

#[test]
fn empty_container_is_fully_written() {
    let v: OnceVec<u8> = OnceVec::new();
    assert!(v.is_fully_written());
    assert_eq!(v.len(), 0);
    assert_eq!(v.as_slice().unwrap(), &[] as &[u8]);
    let w: OnceVec<u8> = OnceVec::with_uninit_len(0);
    assert_eq!(w.as_vec().unwrap(), Vec::<u8>::new());
}

#[test]
fn remove_written_slot_returns_value_and_lowers_count() {
    let mut v: OnceVec<u32> = OnceVec::with_uninit_len(3);
    v.try_write(1, 7).unwrap();
    v.try_write(2, 9).unwrap();
    assert_eq!(v.elements_written(0), 2);
    assert_eq!(v.remove(1), Some(7));
    assert_eq!(v.elements_written(0), 1);
    assert_eq!(v.len(), 2);
    assert_eq!(v.remove(0), None);
    assert_eq!(v.elements_written(0), 1);
    assert_eq!(v.as_slice().unwrap(), &[9]);
}

#[test]
fn remove_uninit_adjusts_count_only_for_written_slots() {
    let mut v: OnceVec<u32> = OnceVec::with_uninit_len(3);
    v.try_write(0, 4).unwrap();
    let _ = v.remove_uninit(1);
    assert_eq!(v.elements_written(0), 1);
    let _ = v.remove_uninit(0);
    assert_eq!(v.elements_written(0), 0);
    assert_eq!(v.len(), 1);
    assert!(!v.is_fully_written());
}

#[test]
fn truncate_recounts_the_kept_prefix() {
    let mut v: OnceVec<u32> = OnceVec::with_uninit_len(6);
    v.try_write(0, 1).unwrap();
    v.try_write(2, 3).unwrap();
    v.try_write(3, 4).unwrap();
    v.try_write(5, 6).unwrap();
    assert_eq!(v.elements_written_until(3), 2);
    assert_eq!(v.elements_written_until(100), 4);
    v.truncate(4);
    assert_eq!(v.len(), 4);
    assert_eq!(v.elements_written(0), 3);
    assert_eq!(v.elements_written_until(4), v.elements_written(0));
    v.truncate(10);
    assert_eq!(v.len(), 4);
    v.truncate(1);
    assert!(v.is_fully_written());
    assert_eq!(v.as_slice().unwrap(), &[1]);
}

#[test]
fn push_and_insert_written_slots() {
    let mut v: OnceVec<u32> = OnceVec::new();
    v.push(2);
    v.insert(0, 1);
    v.push(4);
    v.insert(2, 3);
    assert_eq!(v.elements_written(0), 4);
    assert_eq!(v.as_slice().unwrap(), &[1, 2, 3, 4]);
}

#[test]
fn uninit_slots_can_be_added_and_written_later() {
    let mut v: OnceVec<u32> = OnceVec::new();
    v.push(1);
    v.push_uninit(MaybeUninit::uninit());
    v.insert_uninit(0, MaybeUninit::uninit());
    assert_eq!(v.len(), 3);
    assert_eq!(v.elements_written(0), 1);
    assert!(v.as_slice().is_err());
    assert_eq!(v.try_write(1, 5), Err(OnceVecError));
    v.try_write(0, 0).unwrap();
    v.try_write(2, 2).unwrap();
    assert_eq!(v.as_slice().unwrap(), &[0, 1, 2]);
}

#[test]
fn pop_returns_last_value_or_nothing() {
    let mut v: OnceVec<u32> = OnceVec::with_uninit_len(2);
    v.try_write(0, 8).unwrap();
    assert_eq!(v.pop(), None);
    assert_eq!(v.len(), 1);
    assert_eq!(v.pop(), Some(8));
    assert_eq!(v.elements_written(0), 0);
    assert_eq!(v.pop(), None);
    assert!(v.pop_uninit().is_none());
    v.push(3);
    assert!(v.pop_uninit().is_some());
    assert_eq!(v.len(), 0);
}

#[test]
fn capacity_operations_keep_the_slots() {
    let mut v: OnceVec<u32> = OnceVec::with_capacity(10);
    assert!(v.capacity() >= 10);
    v.push(1);
    v.push_uninit(MaybeUninit::uninit());
    v.reserve(20);
    assert!(v.capacity() >= 22);
    v.reserve_exact(5);
    assert!(v.capacity() >= 7);
    v.shrink_to_fit();
    assert!(v.capacity() >= 2);
    v.shrink_to(1);
    assert!(v.capacity() >= 2);
    assert_eq!(v.len(), 2);
    assert_eq!(v.elements_written(0), 1);
    v.try_write(1, 2).unwrap();
    v.shrink_to_fit();
    assert_eq!(v.as_slice().unwrap(), &[1, 2]);
}

#[test]
fn impossible_reservations_are_reported() {
    let mut v: OnceVec<u32> = OnceVec::with_uninit_len(1);
    assert!(v.try_reserve(usize::MAX).is_err());
    assert!(v.try_reserve_exact(usize::MAX).is_err());
    assert!(v.try_reserve(4).is_ok());
    assert!(v.capacity() >= 5);
    assert!(v.try_reserve_exact(8).is_ok());
    assert!(v.capacity() >= 9);
    v.reserve(usize::MAX);
    assert_eq!(v.len(), 1);
}

struct DropProbe {
    drops: Rc<Cell<usize>>,
}

impl Drop for DropProbe {
    fn drop(&mut self) {
        self.drops.set(self.drops.get() + 1);
    }
}

#[test]
fn dropping_destroys_only_written_slots() {
    let drops = Rc::new(Cell::new(0));
    let mut v: OnceVec<DropProbe> = OnceVec::with_uninit_len(4);
    assert!(v.try_write(1, DropProbe { drops: drops.clone() }).is_ok());
    assert!(v.try_write(3, DropProbe { drops: drops.clone() }).is_ok());
    assert_eq!(drops.get(), 0);
    drop(v);
    assert_eq!(drops.get(), 2);
}

#[test]
fn losing_write_value_is_not_kept() {
    let drops = Rc::new(Cell::new(0));
    let mut v: OnceVec<DropProbe> = OnceVec::with_uninit_len(1);
    assert!(v.try_write(0, DropProbe { drops: drops.clone() }).is_ok());
    assert!(v.try_write(0, DropProbe { drops: drops.clone() }).is_err());
    assert_eq!(drops.get(), 1);
    assert!(v.is_fully_written());
    drop(v);
    assert_eq!(drops.get(), 2);
}
