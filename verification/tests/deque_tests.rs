use algorithms::deque::{Deque, DequeT};

// size expectations for the deque handle itself
#[test]
fn sizes() {
    assert!(std::mem::size_of::<Deque<i64>>() <= 192);
}

#[test]
fn construct_deque_and_query() {
    let mut deque = Deque::<i32>::new();

    assert_eq!(deque.size(), 0);
    assert!(deque.is_empty());
    assert_eq!(deque.remove_first(), None);
    assert_eq!(deque.remove_last(), None);
}

#[test]
fn add_first_and_query() {
    let mut deque = Deque::<i32>::new();

    deque.add_first(1);

    assert_eq!(deque.size(), 1);
    assert!(!deque.is_empty());
    assert_eq!(deque.remove_first(), Some(1));
    assert_eq!(deque.size(), 0);
    assert!(deque.is_empty());
    assert_eq!(deque.remove_first(), None);
    assert_eq!(deque.size(), 0);
    assert!(deque.is_empty());
    assert_eq!(deque.remove_last(), None);
    assert_eq!(deque.size(), 0);
    assert!(deque.is_empty());
}

#[test]
fn add_last_and_query() {
    let mut deque = Deque::<i32>::new();

    deque.add_last(1);

    assert_eq!(deque.size(), 1);
    assert!(!deque.is_empty());
    assert_eq!(deque.remove_last(), Some(1));
    assert_eq!(deque.size(), 0);
    assert!(deque.is_empty());
    assert_eq!(deque.remove_last(), None);
    assert_eq!(deque.size(), 0);
    assert!(deque.is_empty());
    assert_eq!(deque.remove_first(), None);
    assert_eq!(deque.size(), 0);
    assert!(deque.is_empty());
}

#[test]
fn fifo_right() {
    let mut deque = Deque::<i32>::new();
    deque.add_first(1);
    deque.add_first(2);

    assert_eq!(deque.size(), 2);
    assert_eq!(deque.remove_last(), Some(1));
    assert_eq!(deque.size(), 1);
    assert_eq!(deque.remove_last(), Some(2));
    assert_eq!(deque.size(), 0);
    assert_eq!(deque.remove_last(), None);
}

#[test]
fn fifo_left() {
    let mut deque = Deque::<i32>::new();
    deque.add_last(1);
    deque.add_last(2);

    assert_eq!(deque.size(), 2);
    assert_eq!(deque.remove_first(), Some(1));
    assert_eq!(deque.size(), 1);
    assert_eq!(deque.remove_first(), Some(2));
    assert_eq!(deque.size(), 0);
    assert_eq!(deque.remove_first(), None);
}

#[test]
fn filo_right() {
    let mut deque = Deque::<i32>::new();
    deque.add_first(1);
    deque.add_first(2);

    assert_eq!(deque.size(), 2);
    assert_eq!(deque.remove_first(), Some(2));
    assert_eq!(deque.size(), 1);
    assert_eq!(deque.remove_first(), Some(1));
    assert_eq!(deque.size(), 0);
    assert_eq!(deque.remove_first(), None);
}

#[test]
fn filo_left() {
    let mut deque = Deque::<i32>::new();
    deque.add_last(1);
    deque.add_last(2);

    assert_eq!(deque.size(), 2);
    assert_eq!(deque.remove_last(), Some(2));
    assert_eq!(deque.size(), 1);
    assert_eq!(deque.remove_last(), Some(1));
    assert_eq!(deque.size(), 0);
    assert_eq!(deque.remove_last(), None);
}

#[test]
fn iter() {
    let mut deque = Deque::<i32>::new();
    deque.add_last(1);
    deque.add_last(2);
    deque.add_first(3);

    let mut output = String::new();

    let mut it = deque.iter();
    while let Some(i) = it.next() {
        output.push_str(&format!("{},", i));
    }

    assert_eq!(output, "3,1,2,")
}
