use baras::series::{forward_fill, group_in_first_order};

#[test]
fn gaps_repeat_the_last_sample() {
    assert_eq!(forward_fill(&[None, Some(3), None, None, Some(1), None], 9), vec![9, 3, 3, 3, 1, 1]);
    assert_eq!(forward_fill::<i32>(&[], 9), Vec::<i32>::new());
    assert_eq!(forward_fill(&[None, None], (100, 0)), vec![(100, 0), (100, 0)]);
    assert_eq!(forward_fill(&[Some(0.5f64), None], 1.0), vec![0.5, 0.5]);
}

#[test]
fn keys_keep_the_lane_of_their_first_row() {
    let lanes: Vec<(i64, Vec<usize>)> =
        group_in_first_order(&[7, 3, 7, 9, 3, 3]).into_iter().map(|g| (g.key, g.rows)).collect();
    assert_eq!(lanes, vec![(7, vec![0, 2]), (3, vec![1, 4, 5]), (9, vec![3])]);
    assert!(group_in_first_order(&[]).is_empty());
}
