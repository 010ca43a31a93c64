use ref_list::{DeleteTransaction, Entry, RefList};

#[test]
fn order() {
    let mut list = RefList::<u32>::new();
    let item10 = list.push(10);
    let item20 = list.push(20);
    let item30 = list.push(30);

    assert_eq!(item10.order(&list), Some(0usize));
    assert_eq!(item20.order(&list), Some(1));
    assert_eq!(item30.order(&list), Some(2));

    assert_eq!(*item10.read(&list).value(), 10);
    assert_eq!(*item20.read(&list).value(), 20);
    assert_eq!(*item30.read(&list).value(), 30);
}

#[test]
fn delete() {
    let mut list = RefList::<u32>::new();
    let item10 = list.push(10);
    let item20 = list.push(20);
    let item30 = list.push(30);

    list.begin_delete().push(1).done(&mut list);

    assert_eq!(item10.order(&list), Some(0));
    assert_eq!(item30.order(&list), Some(1));
    assert_eq!(item20.order(&list), None);
}

#[test]
fn entry_new_and_order() {
    let e = Entry::new(7u8, 4);
    assert_eq!(e.order(), Some(4));
    assert_eq!(*e.value(), 7);
}

#[test]
fn push_orders_are_sequential() {
    let mut list = RefList::<i64>::new();
    for i in 0..8usize {
        let h = list.push(-(i as i64));
        assert_eq!(h.order(&list), Some(i));
    }
    assert_eq!(list.len(), 8);
}

#[test]
fn renumbering_after_batch() {
    // Delete indices {0, 2} of [A, B, C, D]: B lands at 0, D at 1.
    let mut list = RefList::<char>::new();
    let a = list.push('A');
    let b = list.push('B');
    let c = list.push('C');
    let d = list.push('D');
    assert_eq!(a.order(&list), Some(0));
    assert_eq!(b.order(&list), Some(1));
    assert_eq!(c.order(&list), Some(2));
    assert_eq!(d.order(&list), Some(3));

    list.begin_delete().push(0).push(2).done(&mut list);

    assert_eq!(b.order(&list), Some(0));
    assert_eq!(d.order(&list), Some(1));
    assert_eq!(a.order(&list), None);
    assert_eq!(c.order(&list), None);
    assert_eq!(list.len(), 2);
    assert_eq!(*list.get(0).unwrap().read(&list).value(), 'B');
    assert_eq!(*list.get(1).unwrap().read(&list).value(), 'D');
}

#[test]
fn detached_is_permanent() {
    let mut list = RefList::<u32>::new();
    let first = list.push(1);
    let _second = list.push(2);
    list.delete_one(0);
    assert_eq!(first.order(&list), None);
    // Later operations never re-attach the entry.
    let _third = list.push(3);
    assert_eq!(first.order(&list), None);
    list.delete_one(0);
    assert_eq!(first.order(&list), None);
    assert_eq!(*first.read(&list).value(), 1);
}

#[test]
fn link_count_rises_and_falls() {
    let mut list = RefList::<u32>::new();
    let h = list.push(5);
    assert_eq!(h.link_count(), 1);
    let h2 = h.clone();
    assert_eq!(h.link_count(), 2);
    assert_eq!(h2.link_count(), 2);
    drop(h2);
    assert_eq!(h.link_count(), 1);
}

#[test]
fn link_count_counts_list_handles_too() {
    let mut list = RefList::<u32>::new();
    let h = list.push(5);
    let g = list.get(0).unwrap();
    assert_eq!(h.link_count(), 2);
    drop(g);
    assert_eq!(h.link_count(), 1);
}

#[test]
fn abandoned_transaction_changes_nothing() {
    let mut list = RefList::<u32>::new();
    let h0 = list.push(100);
    let h1 = list.push(200);
    {
        let tx = list.begin_delete();
        let tx = tx.push(0).push(1);
        // Dropped without `done`: no effect.
        let _ = tx;
    }
    assert_eq!(list.len(), 2);
    assert_eq!(h0.order(&list), Some(0));
    assert_eq!(h1.order(&list), Some(1));
}

#[test]
fn duplicate_index_deletes_once() {
    let mut once = RefList::<u32>::new();
    let mut twice = RefList::<u32>::new();
    for v in [10, 20, 30] {
        once.push(v);
        twice.push(v);
    }
    once.begin_delete().push(1).done(&mut once);
    twice.begin_delete().push(1).push(1).done(&mut twice);

    assert_eq!(once.len(), twice.len());
    for i in 0..once.len() {
        let a = once.get(i).unwrap();
        let b = twice.get(i).unwrap();
        assert_eq!(a.order(&once), b.order(&twice));
        assert_eq!(*a.read(&once).value(), *b.read(&twice).value());
    }
}

#[test]
fn delete_slice_form() {
    let mut list = RefList::<u32>::new();
    let h0 = list.push(1);
    let h1 = list.push(2);
    let h2 = list.push(3);
    let h3 = list.push(4);
    list.delete(&[3, 1]);
    assert_eq!(h0.order(&list), Some(0));
    assert_eq!(h2.order(&list), Some(1));
    assert_eq!(h1.order(&list), None);
    assert_eq!(h3.order(&list), None);
    assert_eq!(list.len(), 2);
}

#[test]
fn delete_all() {
    let mut list = RefList::<u32>::new();
    let h0 = list.push(1);
    let h1 = list.push(2);
    list.delete(&[0, 1]);
    assert_eq!(list.len(), 0);
    assert_eq!(h0.order(&list), None);
    assert_eq!(h1.order(&list), None);
    assert!(list.get(0).is_none());
}

#[test]
fn empty_batch_is_a_no_op() {
    let mut list = RefList::<u32>::new();
    let h = list.push(9);
    list.delete(&[]);
    list.begin_delete().done(&mut list);
    assert_eq!(list.len(), 1);
    assert_eq!(h.order(&list), Some(0));
}

#[test]
fn from_slice_and_get() {
    let list = RefList::from_slice(&[4u32, 5, 6]);
    assert!(list.get(5).is_none());
    let h = list.get(1).unwrap();
    assert_eq!(h.order(&list), Some(1));
    assert_eq!(*h.read(&list).value(), 5);
    assert_eq!(list.len(), 3);
}

#[test]
fn clone_ref_and_get_ref() {
    let list = RefList::from_slice(&["x".to_string(), "y".to_string()]);
    let h = list.clone_ref(1);
    assert_eq!(h.order(&list), Some(1));
    assert_eq!(*h.read(&list).value(), "y");
    let e = list.get_ref(0);
    assert_eq!(e.order(), Some(0));
    assert_eq!(*e.value(), "x");
}

#[test]
fn iter_visits_in_index_order() {
    let list = RefList::from_slice(&[7u32, 8, 9]);
    let handles = list.iter();
    assert_eq!(handles.len(), 3);
    for (i, h) in handles.iter().enumerate() {
        assert_eq!(h.order(&list), Some(i));
        assert_eq!(*h.read(&list).value(), 7 + i as u32);
    }
}

#[test]
fn write_replaces_the_value() {
    let mut list = RefList::<u32>::new();
    let h = list.push(1);
    let other = list.push(2);
    h.write(&mut list, 42);
    assert_eq!(*h.read(&list).value(), 42);
    assert_eq!(*other.read(&list).value(), 2);
    assert_eq!(h.order(&list), Some(0));
}

#[test]
fn writes_are_visible_through_every_clone() {
    let mut list = RefList::<u32>::new();
    let h = list.push(1);
    let h2 = h.clone();
    h.write(&mut list, 77);
    assert_eq!(*h2.read(&list).value(), 77);
    assert_eq!(*list.get(0).unwrap().read(&list).value(), 77);
}

#[test]
fn transaction_builder_chains() {
    let mut list = RefList::<u32>::new();
    for v in 0..5u32 {
        list.push(v);
    }
    let tx: DeleteTransaction = list.begin_delete();
    tx.push(4).push(0).push(2).done(&mut list);
    assert_eq!(list.len(), 2);
    assert_eq!(*list.get(0).unwrap().read(&list).value(), 1);
    assert_eq!(*list.get(1).unwrap().read(&list).value(), 3);
}

#[test]
fn default_is_empty() {
    let list = RefList::<u32>::default();
    assert_eq!(list.len(), 0);
    assert!(list.get(0).is_none());
}
