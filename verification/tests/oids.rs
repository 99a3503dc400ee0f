use obweb::oids::OidList;

#[test]
fn a_new_list_is_empty() {
    let list = OidList::new();
    assert_eq!(list.len(), 0);
    assert_eq!(list.to_vec(), Vec::<u128>::new());
    assert!(!list.contains(0));
}

#[test]
fn push_appends_behind() {
    let mut list = OidList::new();
    list.push(7);
    list.push(3);
    list.push(u128::MAX);
    assert_eq!(list.len(), 3);
    assert_eq!(list.get(0), 7);
    assert_eq!(list.get(1), 3);
    assert_eq!(list.get(2), u128::MAX);
    assert_eq!(list.to_vec(), vec![7, 3, u128::MAX]);
}

#[test]
fn contains_looks_at_every_item() {
    let list = OidList::from_slice(&[5, 6, 7]);
    assert!(list.contains(5));
    assert!(list.contains(7));
    assert!(!list.contains(8));
}

#[test]
fn from_slice_keeps_the_order() {
    let list = OidList::from_slice(&[9, 1, 9, 4]);
    assert_eq!(list.to_vec(), vec![9, 1, 9, 4]);
    assert_eq!(OidList::from_slice(&[]).len(), 0);
}

#[test]
fn duplicate_is_an_equal_list() {
    let list = OidList::from_slice(&[2, 4, 8]);
    let copy = list.duplicate();
    assert_eq!(copy, list);
    assert_eq!(copy.to_vec(), vec![2, 4, 8]);
}

#[test]
fn without_drops_every_occurrence() {
    let list = OidList::from_slice(&[1, 2, 1, 3, 1]);
    assert_eq!(list.without(1).to_vec(), vec![2, 3]);
    assert_eq!(list.without(2).to_vec(), vec![1, 1, 3, 1]);
    assert_eq!(list.without(9).to_vec(), vec![1, 2, 1, 3, 1]);
    assert_eq!(OidList::from_slice(&[4]).without(4).len(), 0);
}
