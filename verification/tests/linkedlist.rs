use lists::linkedlist::List;

#[test]
fn list_new() {
    let list: List<i32> = List::new();
    assert!(list == List::from(vec![]));
}

#[test]
fn list_prepend() {
    let mut list: List<i32> = List::new();
    list.prepend(3);
    list.prepend(2);
    list.prepend(1);
    assert_eq!(list.size(), 3);
    assert!(list == List::from(vec![1, 2, 3]));
    let mut it = list.iter();
    assert_eq!(it.next().unwrap(), 1);
    assert_eq!(list.index(3).unwrap(), 2);
}

#[test]
fn list_append() {
    let mut list: List<i32> = List::new();
    list.append(1);
    list.append(2);
    list.append(3);
    assert_eq!(list.size(), 3);
    assert!(list == List::from(vec![1, 2, 3]));
    let mut it = list.iter();
    assert_eq!(it.next().unwrap(), 1);
    assert_eq!(list.index(3).unwrap(), 2);
}

#[test]
fn list_size() {
    let mut list: List<i32> = List::new();
    list.append(1);
    list.append(2);
    list.append(4);
    assert_eq!(list.size(), 3);
}

#[test]
fn list_chain() {
    let mut list: List<i32> = List::new();
    list.append(1);
    list.prepend(0);
    list.append(2);
    assert_eq!(list.size(), 3);
}

#[test]
fn list_iter_node() {
    let mut list: List<i32> = List::new();
    list.append(1);
    list.append(2);
    list.append(3);
    let mut count = 1;
    let mut it = list.iter_node();
    while let Some(x) = it.next() {
        assert_eq!(x.element, count);
        count += 1;
    }
}

#[test]
fn list_iter() {
    let mut list: List<i32> = List::new();
    list.append(1);
    list.append(2);
    list.append(3);
    let mut count = 1;
    let mut it = list.iter();
    while let Some(x) = it.next() {
        assert_eq!(x, count);
        count += 1;
    }
}

#[test]
fn list_count() {
    let mut list: List<i32> = List::new();
    list.append(1);
    list.append(2);
    list.append(3);
    list.append(2);
    assert_eq!(list.count(0), 0);
    assert_eq!(list.count(2), 2);
    assert_eq!(list.count(3), 1);
}

#[test]
fn list_index() {
    let mut list: List<i32> = List::new();
    list.append(1);
    list.append(2);
    list.append(3);
    assert_eq!(list.index(1).unwrap(), 0);
    assert_eq!(list.index(3).unwrap(), 2);
    assert_eq!(list.index(10).is_none(), true);
}

#[test]
fn list_from_vec() {
    let vec = vec![0, 1, 2, 3];
    let list = List::from(vec.clone());
    assert_eq!(list.size(), 4);
    let mut i = 0;
    let mut it = list.iter();
    while let Some(x) = it.next() {
        assert_eq!(x, vec[i]);
        i += 1;
    }
}

#[test]
fn list_extend() {
    let mut list1 = List::from(vec![0, 1, 2]);
    let mut list2 = List::from(vec![3, 4, 5]);
    list1.extend(&list2);
    assert!(list1 == List::from(vec![0, 1, 2, 3, 4, 5]));
    list2.extend(&List::from(vec![0, 1, 2]));
    assert!(list2 == List::from(vec![3, 4, 5, 0, 1, 2]));
}

#[test]
fn list_insert() {
    let mut list = List::from(vec![0, 1, 3, 4, 5]);
    list.insert(2, 2);
    list.insert(6, 6);
    assert!(list == List::from(vec![0, 1, 2, 3, 4, 5, 6]));
    list.insert(0, 10);
    list.insert(8, 7);
    assert!(list == List::from(vec![10, 0, 1, 2, 3, 4, 5, 6, 7]));
    list.insert(3, 100);
    assert!(list == List::from(vec![10, 0, 1, 100, 2, 3, 4, 5, 6, 7]));
}

#[test]
fn list_remove() {
    let mut list = List::from(vec![0, 6, 1, 2, 3, 4, 5, 1]);

    // normal case
    list.remove(2);
    assert!(list == List::from(vec![0, 6, 1, 3, 4, 5, 1]));

    // head node case
    list.remove(0);
    assert!(list == List::from(vec![6, 1, 3, 4, 5, 1]));

    // duplicate case: the first occurrence of the element is removed
    list.remove(1);
    assert!(list == List::from(vec![6, 3, 4, 5, 1]));

    // tail node case
    list.remove(1);
    assert!(list == List::from(vec![6, 3, 4, 5]));

    // only node in list case
    list = List::from(vec![3]);
    list.remove(3);
    assert!(list == List::from(vec![]));

    // empty list case
    list.remove(1);
    list.remove(3);
    assert!(list == List::from(vec![]));
}

#[test]
fn list_remove_at() {
    let mut list = List::from(vec![0, 1, 2, 3]);

    // normal case
    list.remove_at(2);
    assert!(list == List::from(vec![0, 1, 3]));

    // head node case
    list.remove_at(0);
    assert!(list == List::from(vec![1, 3]));

    // tail node case
    list.remove_at(1);
    assert!(list == List::from(vec![1]));

    // one element left case
    list.remove_at(0);
    assert!(list == List::from(vec![]));

    // empty list case
    list.remove_at(1);
    assert!(list == List::from(vec![]));
}

#[test]
fn list_reverse() {
    let mut list = List::from(vec![1, 2, 3]);
    list.reverse();
    assert!(list == List::from(vec![3, 2, 1]));

    list = List::from(vec![1]);
    list.reverse();
    assert!(list == List::from(vec![1]));
}

#[test]
fn list_clear() {
    let mut list = List::from(vec![1, 2, 3]);
    list.clear();
    assert!(list == List::from(vec![]));
    list.clear();
    list.clear();
    assert!(list == List::from(vec![]));
}

#[test]
fn list_has() {
    let list = List::from(vec![1, 2, 3]);
    assert_eq!(list.has(1), true);
    assert_eq!(list.has(100), false);
}

#[test]
fn list_is_empty() {
    let mut list = List::from(vec![1, 2, 3]);
    assert_eq!(list.is_empty(), false);
    list.clear();
    assert_eq!(list.is_empty(), true);
}
