use utils::fixed_queue::FixedQueue;
use utils::pos::Direction;
use utils::smallvec::SmallVec;

#[test]
fn screen_directions() {
    assert_eq!(Direction::from_number(0), Direction::Right);
    assert_eq!(Direction::from_number(3), Direction::Up);
    assert_eq!(Direction::from_number(9), Direction::Wait);
    assert_eq!(Direction::from_char('v'), Some(Direction::Down));
    assert_eq!(Direction::from_char('.'), None);
    assert!(Direction::Left.is_horizontal());
    assert!(!Direction::Up.is_horizontal());
    assert_eq!(Direction::Right.turn_left(), Direction::Up);
    assert_eq!(Direction::Up.turn_right(), Direction::Right);
    assert_eq!(Direction::Wait.turn_right(), Direction::Wait);
    assert_eq!(Direction::Left + Direction::Up, Direction::Down);
    assert_eq!(Direction::Wait + Direction::Up, Direction::Up);
}

#[test]
fn fixed_queue_keeps_the_newest() {
    let mut q: FixedQueue<i64, 3> = FixedQueue([0, 0, 0]);
    q.push(5);
    q.push(7);
    q.push(2);
    q.push(11);
    assert_eq!(q.0, [11, 2, 7]);
    assert_eq!(q.top(), 11);
    assert_eq!(q.delta(), 9);
}

#[test]
fn small_vec_push_pop_swap() {
    let mut v: SmallVec<u32, 4> = SmallVec::new();
    assert!(v.is_empty());
    v.push(1);
    v.push(2);
    v.push(3);
    v.swap(0, 2);
    assert_eq!(v.pop(), 1);
    assert_eq!(v.len(), 2);
    let mut w: SmallVec<u32, 4> = SmallVec::new();
    w.push(9);
    v.append(w);
    assert_eq!(v.len(), 3);
    assert_eq!(v.pop(), 9);
    assert_eq!(v.pop(), 2);
    assert_eq!(v.pop(), 3);
    v.push(4);
    v.clear();
    assert!(v.is_empty());
}

use utils::smallest_items::SmallestItems;

#[test]
fn smallest_items_keeps_the_smallest() {
    let mut s: SmallestItems<i64, 3> = SmallestItems::new();
    for v in [9, 4, 7, 1, 8, 3] {
        s.push(v);
    }
    assert_eq!(s.len(), 3);
    let mut kept: Vec<i64> = s.iter().copied().collect();
    kept.sort();
    assert_eq!(kept, vec![1, 3, 4]);
    assert_eq!(s.largest_value_kept(), 4);
}

#[test]
fn small_vec_slices_and_index() {
    let mut v: SmallVec<u32, 4> = SmallVec::new();
    v.push(5);
    v.push(6);
    assert_eq!(v.as_slice(), &[5, 6]);
    assert_eq!(v[1], 6);
    v.as_slice_mut()[0] = 7;
    assert_eq!(v.iter().copied().collect::<Vec<u32>>(), vec![7, 6]);
}

#[test]
fn fixed_queue_default_then_push() {
    let mut q: FixedQueue<i64, 3> = FixedQueue::default();
    q.push(5);
    q.push(8);
    assert_eq!(q.0, [8, 5, 0]);
    assert_eq!(q.delta(), 3);
    assert_eq!(q.top(), 8);
}

#[test]
fn direction_names_and_numbers() {
    assert_eq!(Direction::Left.as_str(), "Left");
    assert_eq!(Direction::Up.as_number(), 3);
    assert_eq!(Direction::Wait.as_number(), 0);
}
