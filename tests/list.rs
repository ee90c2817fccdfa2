use orderbook::ds::List;
use orderbook::structs::{Amount, Order, OrderKind, OrderSide};

fn item(id: u64) -> Order {
    Order::new(id, Amount::new(1, 0), Amount::new(1, 0), OrderKind::Market, OrderSide::Bid)
}

#[test]
fn test_push_back() {
    let mut list = List::new();
    list.push_back(item(1));
    assert_eq!(list.len(), 1);
    assert_eq!(list.head_id(), Some(1));
    assert_eq!(list.tail_id(), Some(1));
    assert!(list.prev_id(list.head_id().unwrap()).is_none());
    assert!(list.next_id(list.head_id().unwrap()).is_none());
    list.push_back(item(2));
    assert_eq!(list.len(), 2);
    assert_eq!(list.head_id(), Some(1));
    assert_eq!(list.tail_id(), Some(2));
    assert!(list.prev_id(list.head_id().unwrap()).is_none());
    assert!(list.next_id(list.head_id().unwrap()).is_some());
    assert!(list.prev_id(list.tail_id().unwrap()).is_some());
    assert!(list.next_id(list.tail_id().unwrap()).is_none());
}

#[test]
fn test_pop_front() {
    let mut list = List::new();
    list.push_back(item(1));
    list.push_back(item(2));
    list.push_back(item(3));
    list.pop_front();
    assert_eq!(list.len(), 2);
    assert_eq!(list.head_id(), Some(2));
}

#[test]
fn list_test_remove() {
    // no neighbours
    let mut list = List::new();
    list.push_back(item(1));
    list.remove(1);
    assert_eq!(list.len(), 0);
    assert_eq!(list.index_len(), 0);
    assert_eq!(list.head_id(), None);
    assert_eq!(list.tail_id(), None);

    // both neighbours
    let mut list = List::new();
    list.push_back(item(1));
    list.push_back(item(2));
    list.push_back(item(3));
    list.remove(2);
    assert_eq!(list.len(), 2);
    assert_eq!(list.index_len(), 2);
    assert_eq!(list.head_id(), Some(1));
    assert_eq!(list.tail_id(), Some(3));
    assert!(list.prev_id(list.head_id().unwrap()).is_none());
    assert!(list.next_id(list.head_id().unwrap()).is_some());
    assert_eq!(list.next_id(list.head_id().unwrap()), Some(3));
    assert!(list.next_id(list.tail_id().unwrap()).is_none());
    assert!(list.prev_id(list.tail_id().unwrap()).is_some());
    assert_eq!(list.prev_id(list.tail_id().unwrap()), Some(1));

    // left neighbour only
    let mut list = List::new();
    list.push_back(item(1));
    list.push_back(item(2));
    list.push_back(item(3));
    list.remove(3);
    assert_eq!(list.len(), 2);
    assert_eq!(list.index_len(), 2);
    assert_eq!(list.head_id(), Some(1));
    assert_eq!(list.tail_id(), Some(2));
    assert!(list.prev_id(list.head_id().unwrap()).is_none());
    assert!(list.next_id(list.head_id().unwrap()).is_some());
    assert_eq!(list.next_id(list.head_id().unwrap()), Some(2));
    assert!(list.next_id(list.tail_id().unwrap()).is_none());
    assert!(list.prev_id(list.tail_id().unwrap()).is_some());
    assert_eq!(list.prev_id(list.tail_id().unwrap()), Some(1));
}

#[test]
fn remove_first_of_three_relinks_head() {
    let mut list = List::new();
    list.push_back(item(1));
    list.push_back(item(2));
    list.push_back(item(3));
    list.remove(1);
    assert_eq!(list.head_id(), Some(2));
    assert_eq!(list.prev_id(2), None);
    assert_eq!(list.next_id(2), Some(3));
    assert_eq!(list.front().unwrap().id, 2);
}

#[test]
fn remove_absent_id_leaves_list_alone() {
    let mut list = List::new();
    list.push_back(item(1));
    list.push_back(item(2));
    list.remove(7);
    assert_eq!(list.len(), 2);
    assert_eq!(list.index_len(), 2);
    assert_eq!(list.head_id(), Some(1));
    assert_eq!(list.tail_id(), Some(2));
    assert!(!list.contains(7));
    assert!(list.contains(2));
}

/// Walks the links both ways and checks them against each other and the length.
fn walks(list: &List<Order>) -> Vec<u64> {
    let mut forward = Vec::new();
    let mut at = list.head_id();
    while let Some(id) = at {
        forward.push(id);
        at = list.next_id(id);
    }
    let mut backward = Vec::new();
    let mut at = list.tail_id();
    while let Some(id) = at {
        backward.push(id);
        at = list.prev_id(id);
    }
    backward.reverse();
    assert_eq!(forward, backward);
    assert_eq!(forward.len(), list.len());
    forward
}

#[test]
fn links_agree_both_ways_under_mixed_operations() {
    let mut list = List::new();
    for id in 1..=6 {
        list.push_back(item(id));
    }
    assert_eq!(walks(&list), vec![1, 2, 3, 4, 5, 6]);
    list.remove(4);
    assert_eq!(walks(&list), vec![1, 2, 3, 5, 6]);
    list.pop_front();
    assert_eq!(walks(&list), vec![2, 3, 5, 6]);
    list.remove(6);
    assert_eq!(walks(&list), vec![2, 3, 5]);
    list.push_back(item(9));
    assert_eq!(walks(&list), vec![2, 3, 5, 9]);
    list.remove(42);
    assert_eq!(walks(&list), vec![2, 3, 5, 9]);
}

#[test]
fn front_mut_updates_in_place() {
    let mut list = List::new();
    list.push_back(item(1));
    list.push_back(item(2));
    list.front_mut().unwrap().filled = Amount::new(1, 0);
    assert_eq!(list.front().unwrap().filled, Amount::new(1, 0));
    assert_eq!(list.front().unwrap().id, 1);
    let mut empty: List<Order> = List::new();
    assert!(empty.front_mut().is_none());
    assert!(empty.front().is_none());
}
