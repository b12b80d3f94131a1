use baras::usage::group_casts_by_ability;

fn view(ids: &[i64]) -> Vec<(i64, Vec<usize>)> {
    group_casts_by_ability(ids).into_iter().map(|g| (g.ability_id, g.rows)).collect()
}

#[test]
fn casts_are_grouped_by_ascending_ability() {
    assert_eq!(view(&[]), Vec::<(i64, Vec<usize>)>::new());
    assert_eq!(view(&[5, 5, 9, 9, 9]), vec![(5, vec![0, 1]), (9, vec![2, 3, 4])]);
    assert_eq!(view(&[9, 5, 9, -3, 5]), vec![(-3, vec![3]), (5, vec![1, 4]), (9, vec![0, 2])]);
    assert_eq!(view(&[7]), vec![(7, vec![0])]);
}
