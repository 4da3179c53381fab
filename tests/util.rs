use jhttp::util::partition_by;

#[test]
fn test_partition_by() {
    let v: Vec<i32> = vec![1, 2, 3];
    let vs: Vec<Vec<i32>> = partition_by(|v| v % 2 == 0, v);
    let actual_vs: Vec<Vec<i32>> = vec![vec![1], vec![3]];
    assert_eq!(vs, actual_vs);
}

#[test]
fn partition_by_edges() {
    let empty: Vec<i32> = vec![];
    assert_eq!(partition_by(|_| true, empty), vec![Vec::<i32>::new()]);
    assert_eq!(partition_by(|v: &i32| *v == 0, vec![0, 0]), vec![vec![], vec![], vec![]]);
    assert_eq!(partition_by(|v: &i32| *v < 0, vec![1, 2, -1, 3]), vec![vec![1, 2], vec![3]]);
}

use jhttp::util::partition;

#[test]
fn test_partition() {
    let v: Vec<i32> = vec![1, 2, 3];
    let vs: Vec<Vec<i32>> = partition(|v| (v % 2) as i64, v);
    let actual_vs: Vec<Vec<i32>> = vec![vec![1, 3], vec![2]];
    assert_eq!(vs, actual_vs);
}

#[test]
fn test_partition_struct() {
    #[derive(Clone, Debug, PartialEq)]
    struct Pt {
        x: u8,
        y: u8,
    }
    impl Eq for Pt {}

    let v = vec![Pt { x: 1, y: 2 }, Pt { x: 3, y: 4 }];
    let vs = partition(|v| (v.x < 3) as i64, v);
    let actual_vs = vec![vec![Pt { x: 1, y: 2 }], vec![Pt { x: 3, y: 4 }]];
    assert_eq!(vs, actual_vs);
}

#[test]
fn partition_orders_groups_by_descending_label() {
    let v: Vec<i64> = vec![5, -3, 7, 5, 0, -3, 5];
    let vs = partition(|v| *v, v);
    assert_eq!(vs, vec![vec![7], vec![5, 5, 5], vec![0], vec![-3, -3]]);
    let empty: Vec<i64> = vec![];
    assert_eq!(partition(|v| *v, empty), Vec::<Vec<i64>>::new());
    let vs = partition(|s: &&str| s.len() as i64, vec!["bb", "a", "cc", "d", "eee"]);
    assert_eq!(vs, vec![vec!["eee"], vec!["bb", "cc"], vec!["a", "d"]]);
}
