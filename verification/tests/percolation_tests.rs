use algorithms::percolation::{Percolation, PercolationState};

#[test]
fn new_percolation_is_full() {
    let size = 5;
    let perc: PercolationState = Percolation::new(size);

    for row in 0..size {
        for col in 0..size {
            assert!(perc.is_full(row, col));
            assert!(!perc.is_open(row, col));
        }
    }
}

#[test]
fn open_once() {
    let size = 5;
    let mut perc: PercolationState = Percolation::new(size);

    assert!(perc.is_full(0, 0));
    assert_eq!(perc.number_of_open_sites(), 0);

    perc.open(0, 0);

    assert!(perc.is_open(0, 0));
    assert_eq!(perc.number_of_open_sites(), 1);
}

#[test]
fn open_twice() {
    let size = 5;
    let mut perc: PercolationState = Percolation::new(size);

    assert!(perc.is_full(0, 0));
    assert_eq!(perc.number_of_open_sites(), 0);

    perc.open(0, 0);
    perc.open(0, 0);

    assert!(perc.is_open(0, 0));
    assert_eq!(perc.number_of_open_sites(), 1);
}

#[test]
fn percolate_1() {
    let size = 1;
    let mut perc: PercolationState = Percolation::new(size);

    assert!(!perc.percolates());

    perc.open(0, 0);

    assert!(perc.percolates());
}

#[test]
fn percolate_3_s() {
    let size = 3;
    let mut perc: PercolationState = Percolation::new(size);

    assert!(!perc.percolates());

    perc.open(0, 0);
    perc.open(1, 0);
    perc.open(1, 1);
    perc.open(1, 2);
    perc.open(2, 2);

    assert!(perc.percolates());
}

#[test]
fn percolate_3_z() {
    let size = 3;
    let mut perc: PercolationState = Percolation::new(size);

    assert!(!perc.percolates());

    perc.open(0, 2);
    perc.open(1, 0);
    perc.open(1, 1);
    perc.open(1, 2);
    perc.open(2, 0);

    assert!(perc.percolates());
}
