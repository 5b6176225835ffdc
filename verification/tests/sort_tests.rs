use algorithms::index_ops::{Length, Swap};
use algorithms::insertion_sort::{insertion_sort, insertion_sort_step};
use algorithms::is_sorted::is_sorted;
use algorithms::merge_sort::{merge, merge_sort};
use algorithms::selection_sort::selection_sort;
use algorithms::shell_sort::{generate_hs, h_sort, shell_sort};
use algorithms::step::Step;
use rand::RngExt;

fn random_vec(rng: &mut rand::rngs::ThreadRng, size: usize) -> Vec<i64> {
    let mut vec: Vec<i64> = Vec::with_capacity(size);
    for _ in 0..size {
        vec.push(rng.random_range(-1000000..1000000));
    }
    vec
}

fn sort_some(rng: &mut rand::rngs::ThreadRng, sorting_function: fn(&mut Vec<i64>) -> ()) {
    for size in (0..20).map(|x| x * x) {
        let mut vec = random_vec(rng, size);
        sorting_function(&mut vec);
        assert!(is_sorted(&vec));
    }
}

fn step_values(view: &Step, vec: &Vec<i64>) -> Vec<i64> {
    let mut out: Vec<i64> = Vec::new();
    let len = view.length(vec);
    for i in 0..len {
        out.push(view.index(vec, i));
    }
    out
}

#[test]
fn vec_length() {
    let vec: Vec<i64> = vec![1, 2, 3, 4, 5];
    assert_eq!(vec.len(), vec.length());
}

#[test]
fn test_is_sorted() {
    assert!(is_sorted(&vec![1, 2, 5, 8, 17, 26]));
    assert!(!is_sorted(&vec![1, 2, 5, 8, 17, 26, 3]));
}

#[test]
fn vec_swap() {
    let mut vec: Vec<i64> = vec![1, 2, 3, 4];
    Swap::swap(&mut vec, 0, 2);
    assert_eq!(vec, vec![3, 2, 1, 4]);
}

#[test]
fn selection_sort_some() {
    let mut rng = rand::rng();
    sort_some(&mut rng, selection_sort);
}

#[test]
fn insertion_sort_small_example() {
    let mut vec: Vec<i64> = vec![8, 1, 5, 3, 4];
    insertion_sort(&mut vec);
    assert!(is_sorted(&vec));
}

#[test]
fn insertion_sort_some() {
    let mut rng = rand::rng();
    sort_some(&mut rng, insertion_sort);
}

#[test]
fn sorted_step() {
    let vec: Vec<i64> = vec![1, 6, 2, 7, 3, 8, 4, 9, 5, 10];

    {
        let step = Step::new(2, 0);
        assert!(is_sorted(&step_values(&step, &vec)));
    }
    {
        let step = Step::new(2, 1);
        assert!(is_sorted(&step_values(&step, &vec)));
    }
}

#[test]
fn handwritten() {
    let mut vec: Vec<i64> = vec![6, 8, 10, 1, 0, 3, 7, 3, 6, 1];

    {
        let step = Step::new(4, 0);
        insertion_sort_step(&mut vec, &step);
        assert!(is_sorted(&step_values(&step, &vec)));
    }

    {
        let step = Step::new(4, 1);
        insertion_sort_step(&mut vec, &step);
        assert!(is_sorted(&step_values(&step, &vec)));
    }

    {
        let step = Step::new(4, 2);
        insertion_sort_step(&mut vec, &step);
        assert!(is_sorted(&step_values(&step, &vec)));
    }

    {
        let step = Step::new(4, 3);
        insertion_sort_step(&mut vec, &step);
        assert!(is_sorted(&step_values(&step, &vec)));
    }

    assert_eq!(vec![0, 1, 7, 1, 6, 3, 10, 3, 6, 8], vec);

    {
        let step = Step::new(2, 0);
        insertion_sort_step(&mut vec, &step);
        assert!(is_sorted(&step_values(&step, &vec)));
    }

    {
        let step = Step::new(2, 1);
        insertion_sort_step(&mut vec, &step);
        assert!(is_sorted(&step_values(&step, &vec)));
    }

    assert_eq!(vec![0, 1, 6, 1, 6, 3, 7, 3, 10, 8], vec);

    {
        let step = Step::new(4, 0);
        assert!(is_sorted(&step_values(&step, &vec)));
    }

    {
        let step = Step::new(4, 1);
        assert!(is_sorted(&step_values(&step, &vec)));
    }

    {
        let step = Step::new(4, 2);
        assert!(is_sorted(&step_values(&step, &vec)));
    }

    {
        let step = Step::new(4, 3);
        assert!(is_sorted(&step_values(&step, &vec)));
    }

    {
        let step = Step::new(1, 0);
        insertion_sort_step(&mut vec, &step);
        assert!(is_sorted(&step_values(&step, &vec)));
    }

    assert!(is_sorted(&vec));
}

#[test]
fn shell_sort_small_example() {
    let mut vec: Vec<i64> = vec![8, 1, 5, 3, 4, 7, 3, 6, 9, 7, 6, 5, 4, 2];
    shell_sort(&mut vec);
    assert!(is_sorted(&vec));
}

#[test]
fn example_from_course() {
    let mut vec: Vec<i64> = vec![
        'S' as i64,
        'O' as i64,
        'R' as i64,
        'T' as i64,
        'E' as i64,
        'X' as i64,
        'A' as i64,
        'M' as i64,
        'P' as i64,
        'L' as i64,
        'E' as i64,
    ];
    h_sort(&mut vec, 7);
    assert_eq!(
        vec![
            'M' as i64,
            'O' as i64,
            'L' as i64,
            'E' as i64,
            'E' as i64,
            'X' as i64,
            'A' as i64,
            'S' as i64,
            'P' as i64,
            'R' as i64,
            'T' as i64,
        ],
        vec
    );
    h_sort(&mut vec, 3);
    assert_eq!(
        vec![
            'A' as i64,
            'E' as i64,
            'L' as i64,
            'E' as i64,
            'O' as i64,
            'P' as i64,
            'M' as i64,
            'S' as i64,
            'X' as i64,
            'R' as i64,
            'T' as i64,
        ],
        vec
    );
    h_sort(&mut vec, 1);
    assert_eq!(
        vec![
            'A' as i64,
            'E' as i64,
            'E' as i64,
            'L' as i64,
            'M' as i64,
            'O' as i64,
            'P' as i64,
            'R' as i64,
            'S' as i64,
            'T' as i64,
            'X' as i64,
        ],
        vec
    );
}

#[test]
fn h_generation() {
    assert_eq!(generate_hs(364), vec![1, 4, 13, 40, 121, 364])
}

#[test]
fn shell_sort_some() {
    let mut rng = rand::rng();
    sort_some(&mut rng, shell_sort);
}

#[test]
fn merge_some() {
    let mut vec: Vec<i64> = vec![1, 4, 7, 1, 2, 3];
    merge(&mut vec, 3);
    assert_eq!(vec, vec![1, 1, 2, 3, 4, 7]);
}

#[test]
fn merge_sort_is_sorted() {
    let mut vec: Vec<i64> = vec![7, 3, 5, 6, 2, 5, 1, 9];
    merge_sort(&mut vec);
    assert!(is_sorted(&vec));
}

#[test]
fn merge_sort_some() {
    let mut rng = rand::rng();
    sort_some(&mut rng, merge_sort);
}
