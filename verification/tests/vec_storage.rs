use memory_storage::vec::{new_with_fixed_capacity_vec, new_with_vec};

#[test]
fn test_vec_1_slot() {
    let mut ms = new_with_vec(1);
    let _ = ms.insert(());
    assert!(ms.insert(()).is_err());
    let _ = ms.push(());
    assert_eq!(ms.taken_slots(), 2);
}

#[test]
fn test_vec() {
    let mut ms = new_with_vec(3);
    let _ = ms.insert(());
    let id = ms.insert(()).expect("I need this ID!");
    let _ = ms.insert(());
    let _ = ms.push(());
    ms.remove(id);
    let _ = ms.insert(());
    let _ = ms.insert(());
    let _ = ms.insert(());
    assert_eq!(ms.capacity(), ms.storage_ref().capacity());
    assert_eq!(ms.taken_slots(), 6);
}

#[test]
fn test_fixed_vec() {
    let mut ms = new_with_fixed_capacity_vec(3);
    let _ = ms.insert(());
    let id = ms.insert(()).expect("I need this ID!");
    let _ = ms.insert(());
    ms.remove(id);
    let _ = ms.insert(());
    assert_eq!(ms.taken_slots(), 3);
    ms.clear();
    assert_eq!(ms.taken_slots(), 0);
}

#[test]
fn fixed_vec_is_full_at_its_capacity() {
    let mut ms = new_with_fixed_capacity_vec(3);
    let a = ms.insert('a').expect("room");
    let b = ms.insert('b').expect("room");
    let c = ms.insert('c').expect("room");
    assert_ne!(a, b);
    assert_ne!(b, c);
    assert_ne!(a, c);
    match ms.insert('d') {
        Ok(_) => panic!("a fourth item went into three slots"),
        Err(error) => assert_eq!(error.value(), 'd'),
    }
    assert_eq!(ms.taken_slots(), 3);
    assert_eq!(ms.capacity(), 3);
}

#[test]
fn fixed_vec_reuses_freed_slots_oldest_first() {
    let mut ms = new_with_fixed_capacity_vec(3);
    let id0 = ms.insert(0).expect("room");
    let id1 = ms.insert(1).expect("room");
    let _id2 = ms.insert(2).expect("room");
    ms.remove(id1);
    ms.remove(id0);
    assert_eq!(ms.insert(3).expect("room"), id1);
    assert_eq!(ms.insert(4).expect("room"), id0);
}

#[test]
fn fixed_vec_gives_its_vector_back() {
    let mut ms = new_with_fixed_capacity_vec(2);
    let _ = ms.insert(7).expect("room");
    let slots = ms.storage().vec();
    assert_eq!(slots.len(), 2);
    assert_eq!(slots[0].taken(), Some(&7));
    assert_eq!(slots[1].next_free(), None);
}

#[test]
fn fixed_vec_without_slots() {
    let mut ms = new_with_fixed_capacity_vec::<i32>(0);
    assert_eq!(ms.capacity(), 0);
    assert!(ms.insert(1).is_err());
    ms.clear();
    assert_eq!(ms.taken_slots(), 0);
}

#[test]
fn fresh_vec_is_chained_in_ascending_order() {
    let ms = new_with_vec::<i32>(3);
    let slots = ms.storage();
    assert_eq!(slots.len(), 3);
    assert_eq!(slots[0].next_free(), Some(1));
    assert_eq!(slots[1].next_free(), Some(2));
    assert_eq!(slots[2].next_free(), None);
}

#[test]
fn push_grows_a_full_storage() {
    let mut ms = new_with_vec(1);
    let a = ms.push(String::from("a"));
    let b = ms.push(String::from("b"));
    let c = ms.push(String::from("c"));
    assert!(ms.capacity() >= 3);
    assert_eq!(ms.capacity(), ms.storage_ref().capacity());
    assert_eq!(ms.capacity(), ms.storage_ref().len());
    assert_eq!(ms.taken_slots(), 3);
    assert_eq!(ms.get(a), Some(&String::from("a")));
    assert_eq!(ms.get(b), Some(&String::from("b")));
    assert_eq!(ms.get(c), Some(&String::from("c")));
}

#[test]
fn push_grows_from_no_slots_at_all() {
    let mut ms = new_with_vec(0);
    assert_eq!(ms.capacity(), 0);
    let a = ms.push(1);
    let capacity = ms.capacity();
    assert!(capacity >= 1);
    assert_eq!(capacity, ms.storage_ref().capacity());
    assert_eq!(ms.taken_slots(), 1);
    assert_eq!(ms.get(a), Some(&1));
    // The new region starts at the old capacity, so the first id is that of
    // a fresh storage, and the rest of the region follows in ascending order.
    let mut fresh = new_with_vec(capacity);
    assert_eq!(fresh.insert(1).expect("room"), a);
    for k in 1..capacity {
        let grown_id = ms.insert(k).expect("room in the new region");
        let fresh_id = fresh.insert(k).expect("room");
        assert_eq!(grown_id, fresh_id);
    }
    assert!(ms.insert(0).is_err());
    assert_eq!(ms.taken_slots(), capacity);
}

#[test]
fn push_takes_a_free_slot_before_it_grows() {
    let mut ms = new_with_vec(2);
    let a = ms.push(1);
    let b = ms.push(2);
    ms.remove(a);
    let c = ms.push(3);
    assert_eq!(c, a);
    assert_eq!(ms.capacity(), 2);
    assert_eq!(ms.get(b), Some(&2));
    assert_eq!(ms.get(c), Some(&3));
}

#[test]
fn growth_puts_the_new_slots_behind_the_free_ones() {
    let mut ms = new_with_vec(2);
    let a = ms.insert(1).expect("room");
    ms.grow_to(4);
    assert_eq!(ms.capacity(), 4);
    assert_eq!(ms.taken_slots(), 1);
    assert_eq!(ms.get(a), Some(&1));
    {
        let slots = ms.storage_ref();
        assert_eq!(slots.len(), 4);
        assert_eq!(slots[1].next_free(), Some(2));
        assert_eq!(slots[2].next_free(), Some(3));
        assert_eq!(slots[3].next_free(), None);
    }
    let b = ms.insert(2).expect("room");
    let c = ms.insert(3).expect("room");
    let d = ms.insert(4).expect("room");
    assert!(ms.insert(5).is_err());
    ms.remove(b);
    ms.remove(c);
    ms.remove(d);
    let slots = ms.storage();
    assert_eq!(slots[1].next_free(), Some(2));
    assert_eq!(slots[2].next_free(), Some(3));
    assert_eq!(slots[3].next_free(), None);
}

#[test]
fn growth_of_a_full_storage_starts_the_free_list_anew() {
    let mut ms = new_with_vec(1);
    let a = ms.insert('a').expect("room");
    ms.grow_to(3);
    assert_eq!(ms.capacity(), 3);
    let b = ms.insert('b').expect("room");
    let c = ms.insert('c').expect("room");
    assert_ne!(a, b);
    assert_ne!(b, c);
    assert!(ms.insert('d').is_err());
    assert_eq!(ms.get(a), Some(&'a'));
    assert_eq!(ms.get(b), Some(&'b'));
    assert_eq!(ms.get(c), Some(&'c'));
}

#[test]
fn growth_from_no_slots_by_a_given_capacity() {
    let mut ms = new_with_vec::<u8>(0);
    ms.grow_to(2);
    assert_eq!(ms.capacity(), 2);
    assert_eq!(ms.taken_slots(), 0);
    let slots = ms.storage_ref();
    assert_eq!(slots[0].next_free(), Some(1));
    assert_eq!(slots[1].next_free(), None);
}

#[test]
fn growth_to_no_more_than_the_capacity_changes_nothing() {
    let mut ms = new_with_vec(2);
    let a = ms.insert(1).expect("room");
    ms.grow_to(2);
    ms.grow_to(1);
    ms.grow_to(0);
    assert_eq!(ms.capacity(), 2);
    assert_eq!(ms.taken_slots(), 1);
    assert_eq!(ms.get(a), Some(&1));
    assert_eq!(ms.storage_ref().len(), 2);
    let b = ms.insert(2).expect("room");
    assert_ne!(a, b);
    assert!(ms.insert(3).is_err());
}

#[test]
fn clear_after_growth_rebuilds_the_whole_free_list() {
    let mut ms = new_with_vec(1);
    let a = ms.push(1);
    let _ = ms.push(2);
    let capacity = ms.capacity();
    ms.clear();
    assert_eq!(ms.capacity(), capacity);
    assert_eq!(ms.taken_slots(), 0);
    assert_eq!(ms.get(a), None);
    for k in 0..capacity {
        assert!(ms.insert(k).is_ok());
    }
    assert!(ms.insert(0).is_err());
}
