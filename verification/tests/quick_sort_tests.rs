use algorithms::is_sorted::is_sorted;
use algorithms::quick_sort::{partition, quick_select, quick_sort, three_way_partition};
use rand::RngExt;

fn is_partitioned(vec: &Vec<i64>, k: usize) -> bool {
    let size = vec.len();

    if size == 0 {
        true
    } else {
        assert!(k < size);

        let v = &vec[k];

        for i in 0..k {
            if vec[i] > *v {
                return false;
            }
        }

        for j in (k + 1)..size {
            if vec[j] < *v {
                return false;
            }
        }

        true
    }
}

fn is_three_way_partitioned(vec: &Vec<i64>, lt: usize, gt: usize) -> bool {
    let size = vec.len();
    if size == 0 {
        true
    } else {
        assert!(gt > lt);
        assert!(gt <= size);
        let v = &vec[lt];

        for j in 0..lt {
            if vec[j] >= *v {
                return false;
            }
        }

        for j in lt..gt {
            if vec[j] != *v {
                return false;
            }
        }

        for j in gt..size {
            if vec[j] <= *v {
                return false;
            }
        }

        true
    }
}

#[test]
fn partition_some() {
    {
        let mut vec: Vec<i64> = vec![1];
        let k = partition(&mut vec, 0, 1);

        assert!(is_partitioned(&vec, k));
    }
    {
        let mut vec: Vec<i64> = vec![1, 2];
        let k = partition(&mut vec, 0, 2);

        assert!(is_partitioned(&vec, k));
    }
    {
        let mut vec: Vec<i64> = vec![2, 1];
        let k = partition(&mut vec, 0, 2);

        assert!(is_partitioned(&vec, k));
    }
    {
        let mut vec: Vec<i64> = vec![1, 1, 2];
        let k = partition(&mut vec, 0, 3);

        assert!(is_partitioned(&vec, k));
    }
    {
        let mut vec: Vec<i64> = vec![2, 1, 2];
        let k = partition(&mut vec, 0, 3);

        assert!(is_partitioned(&vec, k));
    }
    {
        let mut vec: Vec<i64> = vec![2, 1, 1];
        let k = partition(&mut vec, 0, 3);

        assert!(is_partitioned(&vec, k));
    }
    {
        let mut vec: Vec<i64> = vec![1, 2, 2];
        let k = partition(&mut vec, 0, 3);

        assert!(is_partitioned(&vec, k));
    }
    {
        let mut vec: Vec<i64> = vec![4, 10, 2, 8, 3, 6, 8, 2, 3, 0, 3];
        let k = partition(&mut vec, 0, 11);

        assert_eq!(k, 6);
        assert_eq!(vec, vec![2, 3, 2, 0, 3, 3, 4, 8, 6, 8, 10]);

        let k = partition(&mut vec, 7, 11);
        assert_eq!(k, 8);
        assert_eq!(vec, vec![2, 3, 2, 0, 3, 3, 4, 6, 8, 8, 10]);

        let k = partition(&mut vec, 0, 6);
        assert_eq!(k, 1);
        assert_eq!(vec, vec![0, 2, 2, 3, 3, 3, 4, 6, 8, 8, 10]);
    }
}

#[test]
fn three_way_partition_some() {
    {
        let mut vec: Vec<i64> = vec![1];
        let (lt, gt) = three_way_partition(&mut vec, 0, 1);

        assert!(is_three_way_partitioned(&vec, lt, gt));
    }
    {
        let mut vec: Vec<i64> = vec![1, 2];
        let (lt, gt) = three_way_partition(&mut vec, 0, 2);

        assert!(is_three_way_partitioned(&vec, lt, gt));
    }
    {
        let mut vec: Vec<i64> = vec![2, 1];
        let (lt, gt) = three_way_partition(&mut vec, 0, 2);

        assert!(is_three_way_partitioned(&vec, lt, gt));
    }
    {
        let mut vec: Vec<i64> = vec![1, 1, 2];
        let (lt, gt) = three_way_partition(&mut vec, 0, 3);

        assert!(is_three_way_partitioned(&vec, lt, gt));
    }
    {
        let mut vec: Vec<i64> = vec![2, 1, 2];
        let (lt, gt) = three_way_partition(&mut vec, 0, 3);

        assert!(is_three_way_partitioned(&vec, lt, gt));
    }
    {
        let mut vec: Vec<i64> = vec![2, 1, 1];
        let (lt, gt) = three_way_partition(&mut vec, 0, 3);

        assert!(is_three_way_partitioned(&vec, lt, gt));
    }
    {
        let mut vec: Vec<i64> = vec![1, 2, 2];
        let (lt, gt) = three_way_partition(&mut vec, 0, 3);

        assert!(is_three_way_partitioned(&vec, lt, gt));
    }
    {
        let mut vec: Vec<i64> = vec![4, 10, 2, 8, 3, 6, 8, 2, 3, 0, 3];
        let (lt, gt) = three_way_partition(&mut vec, 0, 11);

        assert_eq!(lt, 6);
        assert_eq!(gt, 7);
        assert_eq!(vec, vec![3, 2, 0, 3, 3, 2, 4, 8, 6, 8, 10]);

        let (lt, gt) = three_way_partition(&mut vec, 7, 11);
        assert_eq!(lt, 8);
        assert_eq!(gt, 10);
        assert_eq!(vec, vec![3, 2, 0, 3, 3, 2, 4, 6, 8, 8, 10]);

        let (lt, gt) = three_way_partition(&mut vec, 0, 6);
        assert_eq!(lt, 3);
        assert_eq!(gt, 6);
        assert_eq!(vec, vec![2, 0, 2, 3, 3, 3, 4, 6, 8, 8, 10]);

        let (lt, gt) = three_way_partition(&mut vec, 0, 3);
        assert_eq!(lt, 1);
        assert_eq!(gt, 3);
        assert_eq!(vec, vec![0, 2, 2, 3, 3, 3, 4, 6, 8, 8, 10]);
    }
}

#[test]
fn quick_sort_some() {
    let mut rng = rand::rng();

    for size in (0..20).map(|x| x * x) {
        let mut vec: Vec<i64> = Vec::with_capacity(size);
        for _ in 0..size {
            vec.push(rng.random_range(-1000000i64..1000000));
        }
        quick_sort(&mut vec, &mut rng);
        assert!(is_sorted(&vec));
    }
}

#[test]
fn test_quick_select() {
    let mut rng = rand::rng();

    let mut vec: Vec<i64> = vec![1];
    let result = quick_select(&mut vec, 0, &mut rng);
    assert_eq!(result, 1);

    let mut vec: Vec<i64> = vec![3, 2, 6, 1];
    let result = quick_select(&mut vec, 2, &mut rng);
    assert_eq!(result, 3);

    let mut vec: Vec<i64> = vec![3, 2, 3, 6, 3, 7, 3];
    let result = quick_select(&mut vec, 3, &mut rng);
    assert_eq!(result, 3);

    let mut vec: Vec<i64> = vec![3, 2, 3, 6, 3, 7, 3];
    let result = quick_select(&mut vec, 5, &mut rng);
    assert_eq!(result, 6);
}
