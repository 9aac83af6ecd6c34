use ftx_fetch::rank::top_by_volume;

#[test]
fn picks_the_largest_volumes_first() {
    let vols = vec![5i64, 30, 10, 20];
    assert_eq!(top_by_volume(&vols, 2), vec![1, 3]);
    assert_eq!(top_by_volume(&vols, 4), vec![1, 3, 2, 0]);
}

#[test]
fn ties_prefer_the_later_listing() {
    let vols = vec![10i64, 10, 5];
    assert_eq!(top_by_volume(&vols, 2), vec![1, 0]);
}

#[test]
fn count_beyond_the_listing_returns_everything() {
    let vols = vec![1i64, 2];
    assert_eq!(top_by_volume(&vols, 10), vec![1, 0]);
}

#[test]
fn zero_count_and_empty_listing_are_fine() {
    assert_eq!(top_by_volume(&vec![1i64, 2, 3], 0), Vec::<usize>::new());
    assert_eq!(top_by_volume(&Vec::new(), 5), Vec::<usize>::new());
}
