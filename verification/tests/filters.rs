use recs::ComponentFilter;

#[test]
fn filter_add_remove_contains() {
    let mut f = ComponentFilter::new();
    assert!(!f.contains(1));
    f.add(1);
    f.add(2);
    f.add(1);
    assert!(f.contains(1));
    assert!(f.contains(2));
    let mut kinds = f.iter();
    kinds.sort();
    assert_eq!(kinds, vec![1, 2]);
    f.remove(1);
    assert!(!f.contains(1));
    assert!(f.contains(2));
    f.remove(7);
    assert_eq!(f.iter(), vec![2]);
}

#[test]
fn filter_from_slice_collapses_duplicates() {
    let f = ComponentFilter::from_slice(&[3, 1, 3, 2, 1]);
    assert!(f.contains(1));
    assert!(f.contains(2));
    assert!(f.contains(3));
    assert!(!f.contains(4));
    let mut kinds = f.iter();
    kinds.sort();
    assert_eq!(kinds, vec![1, 2, 3]);
}

#[test]
fn empty_filter_selects_nothing_in_particular() {
    let f = ComponentFilter::new();
    assert_eq!(f.iter(), Vec::<u64>::new());
    assert!(!f.contains(0));
}
