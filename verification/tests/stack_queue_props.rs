use challenges::stack_queue::StackQueue;

#[test]
fn fifo_order() {
    let mut queue = StackQueue::<char, 4>::new();
    queue.push('a').unwrap();
    queue.push('b').unwrap();
    queue.push('c').unwrap();
    assert_eq!(queue.pop(), Some('a'));
    assert_eq!(queue.pop(), Some('b'));
    assert_eq!(queue.pop(), Some('c'));
    assert_eq!(queue.pop(), None);
}

#[test]
fn overflow_leaves_queue_unchanged() {
    let mut queue = StackQueue::<i32, 2>::new();
    queue.push(10).unwrap();
    queue.push(20).unwrap();
    assert_eq!(queue.push(30), Err("Queue is full".to_string()));
    assert_eq!(queue.len(), 2);
    assert_eq!(queue.front(), Some(&10));
    assert_eq!(queue.back(), Some(&20));
}

#[test]
fn circular_wraparound() {
    let mut queue = StackQueue::<i32, 5>::new();
    for v in 1..=5 {
        queue.push(v).unwrap();
    }
    assert_eq!(queue.pop(), Some(1));
    queue.push(6).unwrap();
    assert_eq!(queue.back(), Some(&6));
    assert_eq!(queue.front(), Some(&2));
    assert_eq!(queue.len(), 5);
}

#[test]
fn clear_then_reuse_queue() {
    let mut queue = StackQueue::<i32, 4>::new();
    queue.push(1).unwrap();
    queue.push(2).unwrap();
    queue.clear();
    assert_eq!(queue.len(), 0);
    for v in 0..4 {
        assert_eq!(queue.push(v), Ok(()));
    }
    assert!(queue.is_full());
}

#[test]
fn bounded_construction() {
    let queue = StackQueue::<i32, 5>::from_iter(vec![1, 2, 3, 4, 5, 6, 7, 8]);
    assert_eq!(queue.len(), 5);
    let mut queue = queue;
    for v in 1..=5 {
        assert_eq!(queue.pop(), Some(v));
    }
    assert_eq!(queue.pop(), None);
}

#[test]
fn extend_stops_when_full() {
    let mut queue = StackQueue::<i32, 3>::new();
    queue.push(1).unwrap();
    queue.extend(vec![2, 3, 4, 5]);
    assert_eq!(queue.len(), 3);
    assert_eq!(queue.pop(), Some(1));
    assert_eq!(queue.pop(), Some(2));
    assert_eq!(queue.pop(), Some(3));
    assert_eq!(queue.pop(), None);
}

#[test]
fn mutate_through_front_and_back() {
    let mut queue = StackQueue::<i32, 3>::new();
    queue.push(1).unwrap();
    queue.push(2).unwrap();
    if let Some(front) = queue.front_mut() {
        *front = 100;
    }
    if let Some(back) = queue.back_mut() {
        *back = 200;
    }
    assert_eq!(queue.pop(), Some(100));
    assert_eq!(queue.pop(), Some(200));
}

#[test]
fn peek_empty_queue() {
    let mut queue = StackQueue::<i32, 3>::new();
    assert_eq!(queue.front(), None);
    assert_eq!(queue.back(), None);
    assert!(queue.front_mut().is_none());
    assert!(queue.back_mut().is_none());
    assert_eq!(queue.pop(), None);
}

#[test]
fn wraparound_many_rounds() {
    let mut queue = StackQueue::<i32, 3>::new();
    for round in 0..10 {
        queue.push(3 * round).unwrap();
        queue.push(3 * round + 1).unwrap();
        assert_eq!(queue.pop(), Some(3 * round));
        assert_eq!(queue.pop(), Some(3 * round + 1));
    }
    assert!(queue.is_empty());
}
