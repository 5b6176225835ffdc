use algorithms::step::Step;

#[test]
fn index() {
    let vec: Vec<i64> = vec![1, 2, 3, 4, 5];
    let step = Step::new(3, 0);

    assert_eq!(step.index(&vec, 0), 1);
    assert_eq!(step.index(&vec, 1), 4);
}

#[test]
fn index_offset() {
    let vec: Vec<i64> = vec![1, 2, 3, 4, 5, 6];
    let step = Step::new(3, 2);

    assert_eq!(step.index(&vec, 0), 3);
    assert_eq!(step.index(&vec, 1), 6);
}

#[test]
fn index_mut() {
    let mut vec: Vec<i64> = vec![1, 2, 3, 4, 5];
    {
        let step = Step::new(3, 1);

        step.set(&mut vec, 1, 10);
    }

    assert_eq!(vec, vec![1, 2, 3, 4, 10]);
}

#[test]
fn len() {
    let vec: Vec<i64> = vec![1, 2, 3, 4];
    assert_eq!(Step::new(1, 0).length(&vec), 4);
    assert_eq!(Step::new(2, 0).length(&vec), 2);
    assert_eq!(Step::new(3, 0).length(&vec), 2);
    assert_eq!(Step::new(4, 0).length(&vec), 1);
    assert_eq!(Step::new(5, 0).length(&vec), 1);
    assert_eq!(Step::new(20, 0).length(&vec), 1);
}

#[test]
fn len_offset() {
    let vec: Vec<i64> = vec![1, 2, 3, 4, 5, 6];
    assert_eq!(Step::new(1, 2).length(&vec), 4);
    assert_eq!(Step::new(2, 2).length(&vec), 2);
    assert_eq!(Step::new(3, 2).length(&vec), 2);
    assert_eq!(Step::new(4, 2).length(&vec), 1);
    assert_eq!(Step::new(5, 2).length(&vec), 1);
    assert_eq!(Step::new(20, 2).length(&vec), 1);
}
