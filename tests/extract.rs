use smart_read::extract::{array_to_single_element, vec_deque_to_single_element, vec_to_single_element};
use std::cell::Cell;
use std::collections::VecDeque;
use std::rc::Rc;

struct Counted {
    id: usize,
    drops: Rc<Cell<usize>>,
}

impl Drop for Counted {
    fn drop(&mut self) {
        self.drops.set(self.drops.get() + 1);
    }
}

fn five(drops: &Rc<Cell<usize>>) -> Vec<Counted> {
    (0..5).map(|id| Counted { id, drops: drops.clone() }).collect()
}

#[test]
fn vec_extraction_moves_one_and_drops_the_rest() {
    let drops = Rc::new(Cell::new(0));
    let chosen = vec_to_single_element(five(&drops), 2);
    assert_eq!(chosen.id, 2);
    assert_eq!(drops.get(), 4);
    drop(chosen);
    assert_eq!(drops.get(), 5);
}

#[test]
fn vec_deque_extraction_moves_one_and_drops_the_rest() {
    let drops = Rc::new(Cell::new(0));
    let deque: VecDeque<Counted> = five(&drops).into_iter().collect();
    let chosen = vec_deque_to_single_element(deque, 2);
    assert_eq!(chosen.id, 2);
    assert_eq!(drops.get(), 4);
    drop(chosen);
    assert_eq!(drops.get(), 5);
}

#[test]
fn array_extraction_moves_one_and_drops_the_rest() {
    let drops = Rc::new(Cell::new(0));
    let array: [Counted; 5] = [0, 1, 2, 3, 4].map(|id| Counted { id, drops: drops.clone() });
    let chosen = array_to_single_element(array, 2);
    assert_eq!(chosen.id, 2);
    assert_eq!(drops.get(), 4);
    drop(chosen);
    assert_eq!(drops.get(), 5);
}

#[test]
fn extraction_of_last_and_first() {
    assert_eq!(vec_to_single_element(vec!["a", "b", "c"], 2), "c");
    assert_eq!(vec_to_single_element(vec!["a", "b", "c"], 0), "a");
}
