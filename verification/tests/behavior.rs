use lists::linkedlist::{List, NotImplemented};

#[test]
fn appends_keep_order_and_size() {
    let mut list: List<i32> = List::new();
    let input = vec![5, 6, 7, 8];
    for &x in &input {
        list.append(x);
    }
    assert_eq!(list.size(), input.len());
    let mut it = list.iter();
    let mut i = 0;
    while let Some(x) = it.next() {
        assert_eq!(x, input[i]);
        i += 1;
    }
    assert_eq!(i, input.len());
}

#[test]
fn prepends_come_out_reversed() {
    let mut list: List<i32> = List::new();
    let input = vec![5, 6, 7, 8];
    for &x in &input {
        list.prepend(x);
    }
    assert_eq!(list.size(), input.len());
    assert!(list == List::from(vec![8, 7, 6, 5]));
}

#[test]
fn reverse_twice_restores_order() {
    let mut empty: List<i32> = List::new();
    empty.reverse();
    empty.reverse();
    assert!(empty == List::from(vec![]));

    let mut single = List::from(vec![9]);
    single.reverse();
    single.reverse();
    assert!(single == List::from(vec![9]));

    let mut longer = List::from(vec![1, 2, 3, 4]);
    longer.reverse();
    longer.reverse();
    assert!(longer == List::from(vec![1, 2, 3, 4]));
}

#[test]
fn remove_takes_only_first_duplicate() {
    let mut list = List::from(vec![1, 1, 1]);
    list.remove(1);
    assert!(list == List::from(vec![1, 1]));
    assert_eq!(list.count(1), 2);
}

#[test]
fn insert_then_index_finds_the_position() {
    let mut list = List::from(vec![0, 1, 2]);
    list.insert(2, 9);
    assert_eq!(list.index(9).unwrap(), 2);

    // a duplicate at a lower position wins instead
    let mut dup = List::from(vec![0, 1, 2]);
    dup.insert(2, 0);
    assert_eq!(dup.index(0).unwrap(), 0);
}

#[test]
fn clear_yields_empty_and_is_idempotent() {
    let mut list = List::from(vec![4, 5, 6]);
    list.clear();
    assert!(list == List::from(vec![]));
    let mut twice = List::from(vec![4, 5, 6]);
    twice.clear();
    twice.clear();
    assert!(twice == list);
}

#[test]
fn from_vec_then_iter_reproduces_it() {
    let list = List::from(vec![0, 1, 2, 3]);
    let mut it = list.iter();
    let mut got = Vec::new();
    while let Some(x) = it.next() {
        got.push(x);
    }
    assert_eq!(got, vec![0, 1, 2, 3]);
}

#[test]
fn extend_matches_concatenation() {
    let mut list = List::from(vec![0, 1, 2]);
    let other = List::from(vec![3, 4, 5]);
    list.extend(&other);
    assert!(list == List::from(vec![0, 1, 2, 3, 4, 5]));
    // the extended-from list is untouched
    assert!(other == List::from(vec![3, 4, 5]));
}

#[test]
fn remove_missing_is_a_noop() {
    let mut empty: List<i32> = List::new();
    empty.remove(1);
    assert!(empty == List::from(vec![]));

    let mut list = List::from(vec![1, 2, 3]);
    list.remove(100);
    assert!(list == List::from(vec![1, 2, 3]));
}

#[test]
fn remove_at_sole_element_then_noops() {
    let mut list = List::from(vec![42]);
    list.remove_at(0);
    assert!(list.is_empty());
    list.remove_at(0);
    list.remove_at(1);
    assert!(list == List::from(vec![]));
}

#[test]
fn remove_at_one_past_end_is_a_noop() {
    let mut list = List::from(vec![1, 2, 3]);
    list.remove_at(3);
    assert!(list == List::from(vec![1, 2, 3]));
    list.remove_at(100);
    assert!(list == List::from(vec![1, 2, 3]));
}

#[test]
fn insert_beyond_one_past_end_is_a_noop() {
    let mut list = List::from(vec![1, 2, 3]);
    list.insert(5, 9);
    assert!(list == List::from(vec![1, 2, 3]));
}

#[test]
fn sort_reports_not_implemented() {
    let mut list = List::from(vec![3, 1, 2]);
    assert_eq!(list.sort(), Err(NotImplemented));
    assert!(list == List::from(vec![3, 1, 2]));
}
