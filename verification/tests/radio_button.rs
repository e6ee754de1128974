use pixie_wrangler::radio_button::buttons_to_unselect;

#[test]
fn selecting_unselects_the_rest_of_the_group() {
    let changed = vec![(1, true, Some(vec![1, 2, 3])), (7, true, None), (5, true, Some(vec![4, 5]))];
    assert_eq!(buttons_to_unselect(&changed), vec![2, 3, 4]);
    assert!(buttons_to_unselect(&vec![]).is_empty());
    assert!(buttons_to_unselect(&vec![(9, true, Some(vec![9]))]).is_empty());
}

#[test]
fn unselecting_leaves_the_group_alone() {
    // A became selected, B changed by becoming unselected: only B is unselected
    let changed = vec![(1, true, Some(vec![1, 2])), (2, false, Some(vec![1, 2]))];
    assert_eq!(buttons_to_unselect(&changed), vec![2]);
    assert!(buttons_to_unselect(&vec![(2, false, Some(vec![1, 2]))]).is_empty());
}
