use orderbook::ds::{Heap, WithId};
use orderbook::structs::{Amount, Order, OrderKind, OrderSide};

fn bid(id: u64, price: u64) -> Order {
    Order::new(id, Amount::new(price, 0), Amount::new(1, 0), OrderKind::Limit, OrderSide::Bid)
}

#[test]
fn test_ord() {
    assert!(bid(1, 10) < bid(1, 20));
}

#[test]
fn test_swap() {
    let mut heap = Heap::new();
    heap.push(bid(1, 10));
    heap.push(bid(2, 20));
    assert_eq!(heap.id_at(0), 2);
    assert_eq!(heap.id_at(1), 1);
    assert_eq!(heap.index_of(1), Some(1));
    assert_eq!(heap.index_of(2), Some(0));
    heap.swap(0, 1);
    assert_eq!(heap.id_at(0), 1);
    assert_eq!(heap.id_at(1), 2);
    assert_eq!(heap.index_of(1), Some(0));
    assert_eq!(heap.index_of(2), Some(1));
}

#[test]
fn test_push() {
    let mut heap = Heap::new();
    heap.push(bid(1, 10));
    assert_eq!(heap.peek().unwrap().id, 1);
    assert_eq!(heap.len(), 1);
    assert_eq!(heap.index_len(), 1);
    assert_eq!(heap.index_of(1), Some(0));
    heap.push(bid(2, 20));
    assert_eq!(heap.peek().unwrap().id, 2);
    assert_eq!(heap.len(), 2);
    assert_eq!(heap.index_len(), 2);
    assert_eq!(heap.index_of(2), Some(0));
    assert_eq!(heap.index_of(1), Some(1));
}

fn five() -> Heap<Order> {
    let mut heap = Heap::new();
    heap.push(bid(1, 10));
    heap.push(bid(2, 20));
    heap.push(bid(3, 30));
    heap.push(bid(4, 15));
    heap.push(bid(5, 5));
    heap
}

#[test]
fn test_pop() {
    let mut heap = five();
    assert_eq!(heap.peek().unwrap().id, 3);
    heap.pop();
    assert_eq!(heap.peek().unwrap().id, 2);
    assert_eq!(heap.len(), 4);
    assert_eq!(heap.index_len(), 4);
}

#[test]
fn heap_test_remove() {
    let mut heap = five();
    assert_eq!(heap.peek().unwrap().id, 3);
    heap.remove(3);
    assert_eq!(heap.peek().unwrap().id, 2);
    assert_eq!(heap.len(), 4);
    assert_eq!(heap.index_len(), 4);
    heap.remove(4);
    assert_eq!(heap.peek().unwrap().id, 2);
    assert_eq!(heap.len(), 3);
    assert_eq!(heap.index_len(), 3);
    heap.remove(2);
    assert_eq!(heap.peek().unwrap().id, 1);
    assert_eq!(heap.len(), 2);
    assert_eq!(heap.index_len(), 2);

    let mut heap = Heap::new();
    heap.push(bid(1, 10));
    heap.remove(1);
    assert_eq!(heap.len(), 0);
    assert_eq!(heap.index_len(), 0);
    assert_eq!(heap.peek(), None);
}

#[test]
fn test_remove_not_existed() {
    let mut heap = Heap::new();
    heap.push(bid(1, 10));
    heap.remove(2);
    assert_eq!(heap.len(), 1);
    assert_eq!(heap.index_len(), 1);
}

#[test]
fn test_remove_last_one() {
    let mut heap = five();
    heap.remove(5);
    assert_eq!(heap.len(), 4);
    assert_eq!(heap.index_len(), 4);
}

/// Checks the heap order and that the index points every id at its own slot.
fn assert_intact(heap: &Heap<Order>) {
    for i in 1..heap.len() {
        let parent = heap.parent(i);
        let p = heap.index_of(heap.id_at(parent)).unwrap();
        assert_eq!(p, parent);
        assert_eq!(heap.index_of(heap.id_at(i)), Some(i));
    }
    assert_eq!(heap.index_len(), heap.len());
}

#[test]
fn heap_stays_intact_under_mixed_operations() {
    let mut heap = Heap::new();
    let prices = [7u64, 3, 9, 9, 1, 12, 5, 8, 2, 11, 6, 4];
    for (i, p) in prices.iter().enumerate() {
        heap.push(bid(i as u64 + 1, *p));
        assert_intact(&heap);
    }
    heap.remove(6);
    assert_intact(&heap);
    heap.remove(2);
    assert_intact(&heap);
    heap.remove(100);
    assert_intact(&heap);
    let mut popped = Vec::new();
    while heap.len() > 0 {
        popped.push(heap.peek().unwrap().price.units);
        heap.pop();
        assert_intact(&heap);
    }
    let mut sorted = popped.clone();
    sorted.sort();
    sorted.reverse();
    assert_eq!(popped, sorted);
    assert_eq!(popped.len(), 10);
}

#[test]
fn remove_from_empty_heap_does_nothing() {
    let mut heap: Heap<Order> = Heap::new();
    heap.remove(1);
    assert_eq!(heap.len(), 0);
    assert_eq!(heap.peek(), None);
}

#[test]
fn peek_mut_then_sift_down_restores_order() {
    let mut heap = five();
    heap.peek_mut().unwrap().filled = Amount::new(1, 0);
    assert_eq!(heap.peek().unwrap().filled, Amount::new(1, 0));
    assert_eq!(heap.peek().unwrap().id(), 3);
    heap.sift_down(0);
    assert_eq!(heap.peek().unwrap().id, 3);
}

#[test]
fn tree_positions() {
    let heap: Heap<Order> = Heap::new();
    assert_eq!(heap.parent(1), 0);
    assert_eq!(heap.parent(2), 0);
    assert_eq!(heap.parent(6), 2);
    assert_eq!(heap.left(2), 5);
    assert_eq!(heap.right(2), 6);
}
