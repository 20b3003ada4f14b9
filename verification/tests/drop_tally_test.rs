use challenges::stack_queue::StackQueue;
use challenges::stack_vector::StackVector;
use std::cell::Cell;
use std::rc::Rc;

/// An element that records its own destruction, so a test can check that
/// every constructed element is destroyed exactly once.
struct Counted {
    drops: Rc<Cell<usize>>,
}

impl Drop for Counted {
    fn drop(&mut self) {
        self.drops.set(self.drops.get() + 1);
    }
}

fn construct(made: &Cell<usize>, drops: &Rc<Cell<usize>>) -> Counted {
    made.set(made.get() + 1);
    Counted {
        drops: Rc::clone(drops),
    }
}

#[test]
fn stack_destroys_every_element_once() {
    let made = Cell::new(0);
    let drops = Rc::new(Cell::new(0));
    {
        let mut stack = StackVector::<Counted, 8>::new();
        for _ in 0..5 {
            stack.push(construct(&made, &drops));
        }
        let popped = stack.pop();
        assert!(popped.is_some());
        drop(popped);
        stack.clear();
        stack.push(construct(&made, &drops));
        stack.push(construct(&made, &drops));
    }
    assert_eq!(made.get(), 7);
    assert_eq!(drops.get(), made.get());
}

#[test]
fn queue_destroys_every_element_once() {
    let made = Cell::new(0);
    let drops = Rc::new(Cell::new(0));
    {
        let mut queue = StackQueue::<Counted, 4>::new();
        for _ in 0..4 {
            queue.push(construct(&made, &drops)).unwrap();
        }
        // The overflowing element is consumed by the failed push.
        let refused = queue.push(construct(&made, &drops));
        assert!(refused.is_err());
        let popped = queue.pop();
        assert!(popped.is_some());
        drop(popped);
        queue.clear();
        queue.push(construct(&made, &drops)).unwrap();
    }
    assert_eq!(made.get(), 6);
    assert_eq!(drops.get(), made.get());
}

#[test]
fn bulk_construction_destroys_discarded_elements() {
    let made = Cell::new(0);
    let drops = Rc::new(Cell::new(0));
    {
        let mut input = Vec::new();
        for _ in 0..8 {
            input.push(construct(&made, &drops));
        }
        let queue = StackQueue::<Counted, 5>::from_iter(input);
        assert_eq!(queue.len(), 5);
        // The three discarded elements are already gone.
        assert_eq!(drops.get(), 3);
    }
    assert_eq!(made.get(), 8);
    assert_eq!(drops.get(), made.get());
}

#[test]
fn consuming_iteration_destroys_all() {
    let made = Cell::new(0);
    let drops = Rc::new(Cell::new(0));
    {
        let mut stack = StackVector::<Counted, 4>::new();
        for _ in 0..3 {
            stack.push(construct(&made, &drops));
        }
        let mut it = stack.into_iter();
        let first = it.next();
        assert!(first.is_some());
        drop(first);
        // The iterator still owns the two elements not yet handed out.
    }
    assert_eq!(made.get(), 3);
    assert_eq!(drops.get(), made.get());
}
