use obweb::names::NameIndex;
use obweb::oids::OidList;

fn names_of(index: &NameIndex) -> Vec<String> {
    let mut names = Vec::new();
    for i in 0..index.len() {
        names.push(index.name_at(i).to_string());
    }
    names
}

#[test]
fn a_new_index_holds_nothing() {
    let index = NameIndex::new();
    assert_eq!(index.len(), 0);
    assert!(index.get("Alice").is_none());
}

#[test]
fn put_then_get() {
    let mut index = NameIndex::new();
    index.put("Bob", OidList::from_slice(&[2]));
    index.put("Alice", OidList::from_slice(&[1, 5]));
    assert_eq!(index.get("Alice").unwrap().to_vec(), vec![1, 5]);
    assert_eq!(index.get("Bob").unwrap().to_vec(), vec![2]);
    assert!(index.get("Carol").is_none());
    assert!(index.get("").is_none());
}

#[test]
fn put_under_a_known_name_replaces() {
    let mut index = NameIndex::new();
    index.put("Alice", OidList::from_slice(&[1]));
    index.put("Alice", OidList::from_slice(&[9, 8]));
    assert_eq!(index.len(), 1);
    assert_eq!(index.get("Alice").unwrap().to_vec(), vec![9, 8]);
}

#[test]
fn the_names_stand_in_the_order_of_str() {
    let mut index = NameIndex::new();
    for name in ["delta", "alpha", "Zed", "charlie", "", "bravo", "alphabet", "\u{e9}cole"] {
        index.put(name, OidList::from_slice(&[1]));
    }
    let mut expected = vec!["delta", "alpha", "Zed", "charlie", "", "bravo", "alphabet", "\u{e9}cole"];
    expected.sort();
    assert_eq!(names_of(&index), expected);
}

#[test]
fn remove_takes_the_name_out() {
    let mut index = NameIndex::new();
    index.put("a", OidList::from_slice(&[1]));
    index.put("b", OidList::from_slice(&[2]));
    index.put("c", OidList::from_slice(&[3]));
    index.remove("b");
    assert_eq!(names_of(&index), vec!["a", "c"]);
    assert!(index.get("b").is_none());
    assert_eq!(index.get("c").unwrap().to_vec(), vec![3]);
    index.remove("missing");
    assert_eq!(index.len(), 2);
}
