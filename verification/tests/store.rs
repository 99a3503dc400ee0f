use obweb::error::ErrorKind;
use obweb::object::{Lineage, Object, Post, Profile};
use obweb::store::{Knowledge, DEFAULT_PRIORITY, FIRST_KNOWN_ID};

fn profile(id: u128, name: &str) -> Object {
    Object::Profile(Profile {
        id,
        lineage: Lineage::root(id),
        name: name.to_string(),
        description: "about".to_string(),
    })
}

fn post(id: u128) -> Object {
    Object::Post(Post { id, lineage: Lineage::root(id) })
}

#[test]
fn a_new_store_knows_nothing() {
    let store = Knowledge::new();
    assert_eq!(store.max_known_id(), FIRST_KNOWN_ID);
    assert_eq!(FIRST_KNOWN_ID, 1);
    assert_eq!(store.lookup(0), None);
    assert_eq!(store.lookup(1), None);
    assert!(store.known(1).is_none());
    assert_eq!(store.lookup_by_name("Alice"), Vec::<u128>::new());
    assert_eq!(store.expiry_key(1), None);
    assert_eq!(store.short_name(1), None);
}

#[test]
fn gen_id_counts_up_from_the_floor() {
    let mut store = Knowledge::new();
    assert_eq!(store.gen_id(), 2);
    assert_eq!(store.gen_id(), 3);
    assert_eq!(store.max_known_id(), 3);
}

#[test]
fn gen_id_stays_above_what_was_observed() {
    let mut store = Knowledge::new();
    store.observe_id(100);
    assert_eq!(store.max_known_id(), 100);
    store.observe_id(40);
    assert_eq!(store.max_known_id(), 100);
    assert_eq!(store.gen_id(), 101);
}

#[test]
fn gen_id_stays_above_what_was_considered() {
    let mut store = Knowledge::new();
    store.consider(50, post(50), 7);
    assert_eq!(store.max_known_id(), 50);
    let id = store.gen_id();
    assert_eq!(id, 51);
    assert_eq!(store.lookup(id), None);
}

#[test]
fn consider_inserts_an_object() {
    let mut store = Knowledge::new();
    store.consider(5, profile(5, "Alice"), 1234);
    assert_eq!(store.lookup(5), Some(&profile(5, "Alice")));
    let known = store.known(5).unwrap();
    assert_eq!(known.date_seen, 1234);
    assert_eq!(known.priority, DEFAULT_PRIORITY);
    assert_eq!(known.queue_place, 128);
    assert_eq!(store.lookup_by_name("Alice"), vec![5]);
    assert_eq!(store.expiry_key(5), Some(1234));
    assert_eq!(store.lookup(6), None);
}

#[test]
fn consider_twice_lists_the_name_once() {
    let mut store = Knowledge::new();
    store.consider(5, profile(5, "Alice"), 10);
    store.consider(5, profile(5, "Alice"), 10);
    assert_eq!(store.lookup_by_name("Alice"), vec![5]);
    assert_eq!(store.lookup(5), Some(&profile(5, "Alice")));
    assert_eq!(store.expiry_key(5), Some(10));
}

#[test]
fn consider_again_refreshes_the_time() {
    let mut store = Knowledge::new();
    store.consider(5, profile(5, "Alice"), 10);
    store.consider(5, profile(5, "Alice"), 99);
    assert_eq!(store.known(5).unwrap().date_seen, 99);
    assert_eq!(store.expiry_key(5), Some(99));
    assert_eq!(store.lookup_by_name("Alice"), vec![5]);
}

#[test]
fn objects_that_share_a_name_are_listed_in_order() {
    let mut store = Knowledge::new();
    store.consider(9, profile(9, "Alice"), 1);
    store.consider(3, profile(3, "Alice"), 2);
    store.consider(4, profile(4, "Bob"), 3);
    assert_eq!(store.lookup_by_name("Alice"), vec![9, 3]);
    assert_eq!(store.lookup_by_name("Bob"), vec![4]);
    assert_eq!(store.lookup_by_name("alice"), Vec::<u128>::new());
}

#[test]
fn a_changed_name_moves_in_the_index() {
    let mut store = Knowledge::new();
    store.consider(9, profile(9, "Alice"), 1);
    store.consider(3, profile(3, "Alice"), 2);
    store.consider(9, profile(9, "Alicia"), 3);
    assert_eq!(store.lookup_by_name("Alice"), vec![3]);
    assert_eq!(store.lookup_by_name("Alicia"), vec![9]);
    store.consider(3, profile(3, "Alicia"), 4);
    assert_eq!(store.lookup_by_name("Alice"), Vec::<u128>::new());
    assert_eq!(store.lookup_by_name("Alicia"), vec![9, 3]);
}

#[test]
fn an_object_that_loses_its_name_leaves_the_index() {
    let mut store = Knowledge::new();
    store.consider(9, profile(9, "Alice"), 1);
    store.consider(9, post(9), 2);
    assert_eq!(store.lookup_by_name("Alice"), Vec::<u128>::new());
    assert_eq!(store.lookup(9), Some(&post(9)));
}

#[test]
fn an_object_without_name_is_not_indexed() {
    let mut store = Knowledge::new();
    store.consider(2, post(2), 1);
    assert_eq!(store.lookup(2), Some(&post(2)));
    assert_eq!(store.lookup_by_name(""), Vec::<u128>::new());
}

#[test]
fn the_empty_name_is_a_name() {
    let mut store = Knowledge::new();
    store.consider(2, profile(2, ""), 1);
    assert_eq!(store.lookup_by_name(""), vec![2]);
}

#[test]
fn set_priority_moves_between_queues_and_keeps_the_key() {
    let mut store = Knowledge::new();
    store.consider(5, post(5), 777);
    assert!(store.set_priority(5, -128).is_ok());
    let known = store.known(5).unwrap();
    assert_eq!(known.priority, -128);
    assert_eq!(known.queue_place, 0);
    assert_eq!(known.date_seen, 777);
    assert_eq!(store.expiry_key(5), Some(777));
    assert!(store.set_priority(5, 127).is_ok());
    assert_eq!(store.known(5).unwrap().queue_place, 255);
    assert_eq!(store.expiry_key(5), Some(777));
}

#[test]
fn a_known_object_keeps_its_priority_when_seen_again() {
    let mut store = Knowledge::new();
    store.consider(5, post(5), 1);
    assert!(store.set_priority(5, 9).is_ok());
    store.consider(5, post(5), 2);
    let known = store.known(5).unwrap();
    assert_eq!(known.priority, 9);
    assert_eq!(known.queue_place, 137);
    assert_eq!(known.date_seen, 2);
    assert_eq!(store.expiry_key(5), Some(2));
}

#[test]
fn set_priority_of_an_unknown_object_is_not_found() {
    let mut store = Knowledge::new();
    let e = store.set_priority(5, 1).unwrap_err();
    assert_eq!(e.kind, ErrorKind::NotFound(5));
    assert_eq!(e.message(), "no object is known under this identifier");
    assert_eq!(store.lookup(5), None);
}

#[test]
fn short_names_are_for_known_objects() {
    let mut store = Knowledge::new();
    store.consider(5, post(5), 1);
    assert!(store.set_short_name(5, "five").is_ok());
    assert_eq!(store.short_name(5), Some("five"));
    assert!(store.set_short_name(5, "V").is_ok());
    assert_eq!(store.short_name(5), Some("V"));
    let e = store.set_short_name(6, "six").unwrap_err();
    assert_eq!(e.kind, ErrorKind::NotFound(6));
    assert_eq!(e.key, "");
    assert_eq!(store.short_name(6), None);
}

#[test]
fn find_says_which_identifier_is_unknown() {
    let mut store = Knowledge::new();
    store.consider(5, post(5), 1);
    assert_eq!(store.find(5), Ok(&post(5)));
    let e = store.find(6).unwrap_err();
    assert_eq!(e.kind, ErrorKind::NotFound(6));
    assert_eq!(e.key, "");
    assert_eq!(e.subtree, None);
}

#[test]
fn the_branch_root_is_resolved_through_the_store() {
    let mut store = Knowledge::new();
    store.consider(1, post(1), 1);
    let edit = Object::Post(Post {
        id: 2,
        lineage: Lineage {
            branch_root: 1,
            editing_prior: obweb::oids::OidList::from_slice(&[1]),
        },
    });
    store.consider(2, edit, 2);
    assert_eq!(store.branch_root_of(2), Ok(&post(1)));
    assert_eq!(store.branch_root_of(1), Ok(&post(1)));
}

#[test]
fn a_branch_root_need_not_be_loaded() {
    let mut store = Knowledge::new();
    let edit = Object::Post(Post {
        id: 2,
        lineage: Lineage { branch_root: 77, editing_prior: obweb::oids::OidList::new() },
    });
    store.consider(2, edit, 2);
    assert_eq!(store.branch_root_of(2).unwrap_err().kind, ErrorKind::NotFound(77));
    assert_eq!(store.branch_root_of(3).unwrap_err().kind, ErrorKind::NotFound(3));
}

#[test]
fn the_names_come_in_order() {
    let mut store = Knowledge::new();
    store.consider(1, profile(1, "delta"), 1);
    store.consider(2, profile(2, "alpha"), 1);
    store.consider(3, profile(3, "Charlie"), 1);
    store.consider(4, profile(4, "alpha"), 1);
    store.consider(5, post(5), 1);
    assert_eq!(store.names_in_order(), vec!["Charlie", "alpha", "delta"]);
    store.consider(1, profile(1, "bravo"), 2);
    assert_eq!(store.names_in_order(), vec!["Charlie", "alpha", "bravo"]);
}

#[test]
fn evict_takes_an_object_out_of_everything() {
    let mut store = Knowledge::new();
    store.consider(9, profile(9, "Alice"), 1);
    store.consider(3, profile(3, "Alice"), 2);
    assert!(store.set_short_name(9, "nine").is_ok());
    assert!(store.set_priority(9, 5).is_ok());
    assert_eq!(store.evict(9), Some(profile(9, "Alice")));
    assert_eq!(store.lookup(9), None);
    assert_eq!(store.lookup_by_name("Alice"), vec![3]);
    assert_eq!(store.short_name(9), None);
    assert_eq!(store.expiry_key(9), None);
    assert_eq!(store.expiry_key(3), Some(2));
    assert_eq!(store.evict(9), None);
    assert_eq!(store.evict(3), Some(profile(3, "Alice")));
    assert_eq!(store.lookup_by_name("Alice"), Vec::<u128>::new());
    assert_eq!(store.names_in_order(), Vec::<String>::new());
}

#[test]
fn an_evicted_identifier_is_not_handed_out_again() {
    let mut store = Knowledge::new();
    store.consider(9, post(9), 1);
    assert_eq!(store.evict(9), Some(post(9)));
    assert_eq!(store.max_known_id(), 9);
    assert_eq!(store.gen_id(), 10);
}

#[test]
fn an_evicted_object_comes_back_with_the_default_priority() {
    let mut store = Knowledge::new();
    store.consider(9, post(9), 1);
    assert!(store.set_priority(9, -3).is_ok());
    assert_eq!(store.evict(9), Some(post(9)));
    store.consider(9, post(9), 2);
    assert_eq!(store.known(9).unwrap().priority, DEFAULT_PRIORITY);
    assert_eq!(store.expiry_key(9), Some(2));
}

#[test]
fn an_object_stands_in_the_queue_of_its_priority_only() {
    let mut store = Knowledge::new();
    store.consider(5, post(5), 40);
    assert_eq!(store.queued_under(0, 5), Some(40));
    assert_eq!(store.queued_under(1, 5), None);
    assert!(store.set_priority(5, 1).is_ok());
    assert_eq!(store.queued_under(0, 5), None);
    assert_eq!(store.queued_under(1, 5), Some(40));
    store.consider(5, post(5), 41);
    assert_eq!(store.queued_under(1, 5), Some(41));
    assert_eq!(store.queued_under(0, 5), None);
    assert_eq!(store.evict(5), Some(post(5)));
    assert_eq!(store.queued_under(1, 5), None);
    assert_eq!(store.queued_under(0, 5), None);
}

#[test]
fn each_object_has_its_own_place_in_a_queue() {
    let mut store = Knowledge::new();
    store.consider(5, post(5), 40);
    store.consider(6, post(6), 50);
    store.consider(7, post(7), -60);
    assert_eq!(store.queued_under(0, 5), Some(40));
    assert_eq!(store.queued_under(0, 6), Some(50));
    assert_eq!(store.queued_under(0, 7), Some(-60));
    assert_eq!(store.queued_under(0, 8), None);
}
