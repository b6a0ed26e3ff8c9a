use double_linked_list::doublelinkedlist::{DoubleLinkedList, ListError};

fn collect<T: Clone>(list: &DoubleLinkedList<T>) -> Vec<T> {
    let mut out = Vec::new();
    let mut it = list.iter();
    while let Some(v) = it.next() {
        out.push(v.clone());
    }
    out
}

fn concat(list: &DoubleLinkedList<String>) -> String {
    let mut out = String::new();
    let mut it = list.iter();
    while let Some(v) = it.next() {
        out.push_str(v);
    }
    out
}

fn from_back(values: &[u64]) -> DoubleLinkedList<u64> {
    let mut list = DoubleLinkedList::new();
    for v in values {
        list.push_back(*v);
    }
    list
}

#[test]
fn greeting_scenario() {
    let mut list: DoubleLinkedList<String> = DoubleLinkedList::new();
    list.push_back("Hello".to_string());
    list.push_back(" world,".to_string());
    list.push_back("I am ".to_string());
    list.push_back("aaaa".to_string());
    list.push_back(" super mega developer".to_string());
    assert_eq!(list.len(), 5);
    assert_eq!(concat(&list), "Hello world,I am aaaa super mega developer");

    assert_eq!(list.remove(3), Ok("aaaa".to_string()));
    assert_eq!(list.len(), 4);
    assert_eq!(concat(&list), "Hello world,I am  super mega developer");
    assert!(list.contains(&"Hello".to_string()));
    assert!(!list.contains(&"aaaa".to_string()));
}

#[test]
fn push_back_keeps_order() {
    let list = from_back(&[3, 1, 4, 1, 5]);
    assert_eq!(list.len(), 5);
    assert_eq!(collect(&list), vec![3, 1, 4, 1, 5]);
}

#[test]
fn push_front_reverses_order() {
    let mut list = DoubleLinkedList::new();
    for v in [1u64, 2, 3, 4] {
        list.push_front(v);
    }
    assert_eq!(list.len(), 4);
    assert_eq!(collect(&list), vec![4, 3, 2, 1]);
}

#[test]
fn insert_past_end_appends() {
    let mut a = from_back(&[1, 2, 3]);
    let mut b = from_back(&[1, 2, 3]);
    a.insert(3, 9);
    b.push_back(9);
    assert_eq!(collect(&a), collect(&b));
    a.insert(100, 7);
    b.push_back(7);
    assert_eq!(collect(&a), vec![1, 2, 3, 9, 7]);
    assert_eq!(collect(&a), collect(&b));
}

#[test]
fn insert_at_zero_prepends() {
    let mut a = from_back(&[1, 2, 3]);
    let mut b = from_back(&[1, 2, 3]);
    a.insert(0, 9);
    b.push_front(9);
    assert_eq!(collect(&a), vec![9, 1, 2, 3]);
    assert_eq!(collect(&a), collect(&b));
}

#[test]
fn insert_in_the_middle() {
    let mut list = from_back(&[1, 2, 3]);
    list.insert(1, 8);
    assert_eq!(collect(&list), vec![1, 8, 2, 3]);
    list.insert(3, 9);
    assert_eq!(collect(&list), vec![1, 8, 2, 9, 3]);
    assert_eq!(list.len(), 5);
}

#[test]
fn insert_into_empty() {
    let mut list = DoubleLinkedList::new();
    list.insert(5, 1u64);
    assert_eq!(collect(&list), vec![1]);
}

#[test]
fn remove_past_end_pops_back() {
    let mut a = from_back(&[1, 2, 3]);
    let mut b = from_back(&[1, 2, 3]);
    assert_eq!(a.remove(3), Ok(3));
    assert_eq!(b.pop_back(), Ok(3));
    assert_eq!(collect(&a), collect(&b));
    assert_eq!(a.remove(50), Ok(2));
    assert_eq!(collect(&a), vec![1]);
}

#[test]
fn remove_at_zero_pops_front() {
    let mut a = from_back(&[1, 2, 3]);
    let mut b = from_back(&[1, 2, 3]);
    assert_eq!(a.remove(0), Ok(1));
    assert_eq!(b.pop_front(), Ok(1));
    assert_eq!(collect(&a), vec![2, 3]);
    assert_eq!(collect(&a), collect(&b));
}

#[test]
fn remove_last_by_index() {
    let mut list = from_back(&[1, 2, 3]);
    assert_eq!(list.remove(2), Ok(3));
    assert_eq!(collect(&list), vec![1, 2]);
    list.push_back(4);
    assert_eq!(collect(&list), vec![1, 2, 4]);
}

#[test]
fn remove_in_the_middle() {
    let mut list = from_back(&[1, 2, 3, 4]);
    assert_eq!(list.remove(1), Ok(2));
    assert_eq!(collect(&list), vec![1, 3, 4]);
    assert_eq!(list.len(), 3);
}

#[test]
fn remove_on_empty_reports() {
    let mut list: DoubleLinkedList<u64> = DoubleLinkedList::new();
    assert_eq!(list.remove(0), Err(ListError::Empty));
    assert_eq!(list.remove(7), Err(ListError::Empty));
    assert_eq!(list.len(), 0);
}

#[test]
fn push_then_pop_back_restores() {
    let mut list = from_back(&[5, 6]);
    list.push_back(7);
    assert_eq!(list.pop_back(), Ok(7));
    assert_eq!(list.len(), 2);
    assert_eq!(collect(&list), vec![5, 6]);
    assert_eq!(list.pop_back(), Ok(6));
}

#[test]
fn contains_after_push_and_remove() {
    let mut list = from_back(&[1, 2]);
    assert!(!list.contains(&9));
    list.push_back(9);
    assert!(list.contains(&9));
    assert_eq!(list.remove(2), Ok(9));
    assert!(!list.contains(&9));
    list.push_front(8);
    assert!(list.contains(&8));
    assert_eq!(list.pop_front(), Ok(8));
    assert!(!list.contains(&8));
}

#[test]
fn clear_empties() {
    let mut list = from_back(&[1, 2, 3]);
    list.clear();
    assert!(list.is_empty());
    assert_eq!(list.len(), 0);
    assert_eq!(collect(&list), Vec::<u64>::new());
    list.push_back(4);
    assert_eq!(collect(&list), vec![4]);
}

#[test]
fn pop_on_new_list() {
    let mut list: DoubleLinkedList<u64> = DoubleLinkedList::new();
    assert_eq!(list.pop_back(), Err(ListError::Empty));
    assert_eq!(list.len(), 0);
    assert_eq!(list.pop_front(), Err(ListError::Empty));
    assert_eq!(list.len(), 0);
    assert!(list.is_empty());
}

#[test]
fn slots_are_reused() {
    let mut list = DoubleLinkedList::new();
    for round in 0..4u64 {
        list.push_back(round);
        list.push_front(round + 10);
        list.insert(1, round + 20);
        assert_eq!(list.pop_back(), Ok(round));
        assert_eq!(list.remove(1), Ok(round + 20));
    }
    assert_eq!(collect(&list), vec![13, 12, 11, 10]);
}

#[test]
fn iterator_stops_and_stays_done() {
    let list = from_back(&[1, 2]);
    let mut it = list.iter();
    assert_eq!(it.next(), Some(&1));
    assert_eq!(it.next(), Some(&2));
    assert_eq!(it.next(), None);
    assert_eq!(it.next(), None);
    let mut again = list.iter();
    assert_eq!(again.next(), Some(&1));
}
