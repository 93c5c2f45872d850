use userstore::record::UserData;
use userstore::store::{NotFound, Store};

#[test]
fn new_store_lists_nothing() {
    let store = Store::new();
    assert_eq!(store.list(), Vec::<usize>::new());
    assert_eq!(store.get(0), None);
}

#[test]
fn insert_then_get_finds_the_record() {
    let mut store = Store::new();
    let id = store.insert(UserData);
    assert_eq!(id, 0);
    assert_eq!(store.get(id), Some(UserData));
}

#[test]
fn inserts_grow_by_one() {
    let mut store = Store::new();
    assert_eq!(store.insert(UserData), 0);
    assert_eq!(store.insert(UserData), 1);
    assert_eq!(store.insert(UserData), 2);
    assert_eq!(store.list(), vec![0, 1, 2]);
}

#[test]
fn remove_then_get_finds_nothing() {
    let mut store = Store::new();
    let id = store.insert(UserData);
    assert_eq!(store.remove(id), Ok(UserData));
    assert_eq!(store.get(id), None);
    assert_eq!(store.list(), Vec::<usize>::new());
}

#[test]
fn released_handle_is_handed_out_again() {
    let mut store = Store::new();
    let a = store.insert(UserData);
    let b = store.insert(UserData);
    assert_eq!(store.remove(a), Ok(UserData));
    assert_eq!(store.insert(UserData), a);
    assert_eq!(store.list(), vec![a, b]);
}

#[test]
fn handles_come_back_lowest_first() {
    let mut store = Store::new();
    for _ in 0..3 {
        store.insert(UserData);
    }
    assert_eq!(store.remove(0), Ok(UserData));
    assert_eq!(store.remove(1), Ok(UserData));
    assert_eq!(store.list(), vec![2]);
    assert_eq!(store.insert(UserData), 0);
    assert_eq!(store.insert(UserData), 1);
    assert_eq!(store.insert(UserData), 3);
    assert_eq!(store.list(), vec![0, 1, 2, 3]);
}

#[test]
fn lowest_free_handle_whatever_the_order_of_release() {
    for order in [[1usize, 3, 5], [5, 3, 1], [3, 5, 1], [3, 1, 5], [1, 5, 3], [5, 1, 3]] {
        let mut store = Store::new();
        for _ in 0..7 {
            store.insert(UserData);
        }
        for id in order {
            assert_eq!(store.remove(id), Ok(UserData));
        }
        assert_eq!(store.list(), vec![0, 2, 4, 6]);
        assert_eq!(store.insert(UserData), 1);
        assert_eq!(store.insert(UserData), 3);
        assert_eq!(store.insert(UserData), 5);
        assert_eq!(store.insert(UserData), 7);
        assert_eq!(store.list(), vec![0, 1, 2, 3, 4, 5, 6, 7]);
    }
}

#[test]
fn release_between_free_handles_keeps_the_order() {
    let mut store = Store::new();
    for _ in 0..6 {
        store.insert(UserData);
    }
    assert_eq!(store.remove(0), Ok(UserData));
    assert_eq!(store.remove(4), Ok(UserData));
    assert_eq!(store.remove(2), Ok(UserData));
    assert_eq!(store.list(), vec![1, 3, 5]);
    assert_eq!(store.get(1), Some(UserData));
    assert_eq!(store.get(2), None);
    assert_eq!(store.insert(UserData), 0);
    assert_eq!(store.remove(3), Ok(UserData));
    assert_eq!(store.insert(UserData), 2);
    assert_eq!(store.insert(UserData), 3);
    assert_eq!(store.insert(UserData), 4);
    assert_eq!(store.insert(UserData), 6);
}

#[test]
fn emptied_store_starts_again_at_zero() {
    let mut store = Store::new();
    for _ in 0..4 {
        store.insert(UserData);
    }
    for id in [2usize, 0, 3, 1] {
        assert_eq!(store.remove(id), Ok(UserData));
    }
    assert_eq!(store.list(), Vec::<usize>::new());
    for expected in 0..5 {
        assert_eq!(store.insert(UserData), expected);
    }
}

#[test]
fn update_keeps_the_handle() {
    let mut store = Store::new();
    let id = store.insert(UserData);
    assert_eq!(store.update(id, UserData), Ok(()));
    assert_eq!(store.get(id), Some(UserData));
    assert_eq!(store.list(), vec![id]);
    assert_eq!(store.insert(UserData), 1);
}

#[test]
fn unknown_handle_is_not_found_and_changes_nothing() {
    let mut store = Store::new();
    store.insert(UserData);
    store.insert(UserData);
    assert_eq!(store.update(7, UserData), Err(NotFound));
    assert_eq!(store.remove(7), Err(NotFound));
    assert_eq!(store.get(7), None);
    assert_eq!(store.list(), vec![0, 1]);
    assert_eq!(store.insert(UserData), 2);
}

#[test]
fn removed_handle_is_not_found_afterwards() {
    let mut store = Store::new();
    let id = store.insert(UserData);
    assert_eq!(store.remove(id), Ok(UserData));
    assert_eq!(store.remove(id), Err(NotFound));
    assert_eq!(store.update(id, UserData), Err(NotFound));
    assert_eq!(store.list(), Vec::<usize>::new());
}

#[test]
fn list_goes_by_slot_not_by_age() {
    let mut store = Store::new();
    for _ in 0..4 {
        store.insert(UserData);
    }
    assert_eq!(store.remove(1), Ok(UserData));
    assert_eq!(store.remove(3), Ok(UserData));
    assert_eq!(store.insert(UserData), 1);
    assert_eq!(store.list(), vec![0, 1, 2]);
}

#[test]
fn record_text_is_the_empty_object() {
    assert_eq!(UserData.to_text(), b"{}".to_vec());
}
