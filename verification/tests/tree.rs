use obweb::error::{ErrorKind, Fault};
use obweb::tree::Node;

fn labelled(key: &str, value: &str) -> Node {
    Node::branch(vec![Node::leaf(key), Node::leaf(value)])
}

fn sample() -> Node {
    Node::branch(vec![
        Node::leaf("profile"),
        labelled("name", "Alice"),
        Node::branch(vec![Node::leaf("empty")]),
        labelled("name", "Second"),
    ])
}

#[test]
fn initial_str_descends_through_first_children() {
    assert_eq!(Node::leaf("x").initial_str(), "x");
    let nested = Node::branch(vec![
        Node::branch(vec![Node::leaf("deep"), Node::leaf("other")]),
        Node::leaf("later"),
    ]);
    assert_eq!(nested.initial_str(), "deep");
    assert_eq!(Node::branch(vec![]).initial_str(), "");
    assert_eq!(Node::branch(vec![Node::branch(vec![])]).initial_str(), "");
}

#[test]
fn a_leaf_is_its_own_only_item() {
    let leaf = Node::leaf("x");
    assert!(leaf.is_leaf());
    assert_eq!(leaf.contents_len(), 1);
    assert_eq!(leaf.content(0), &Node::leaf("x"));
    assert_eq!(leaf.tail_len(), 0);
    assert_eq!(leaf.second(), None);
}

#[test]
fn the_tail_follows_the_first_child() {
    let tree = sample();
    assert!(!tree.is_leaf());
    assert_eq!(tree.contents_len(), 4);
    assert_eq!(tree.tail_len(), 3);
    assert_eq!(tree.tail_item(0), &labelled("name", "Alice"));
    assert_eq!(tree.tail_item(2), &labelled("name", "Second"));
    assert_eq!(tree.second(), Some(&labelled("name", "Alice")));
    assert_eq!(Node::branch(vec![]).tail_len(), 0);
}

#[test]
fn seek_finds_the_first_item_with_the_label() {
    let tree = sample();
    assert_eq!(tree.seek("name"), Some(&labelled("name", "Alice")));
    assert_eq!(tree.seek("profile"), Some(&Node::leaf("profile")));
    assert_eq!(tree.seek("missing"), None);
    assert_eq!(Node::leaf("x").seek("x"), Some(&Node::leaf("x")));
    assert_eq!(Node::leaf("x").seek("y"), None);
}

#[test]
fn seek_val_is_the_item_after_the_label() {
    let tree = sample();
    assert_eq!(tree.seek_val("name"), Some(&Node::leaf("Alice")));
    assert_eq!(tree.seek_val("empty"), None);
    assert_eq!(tree.seek_val("missing"), None);
    assert_eq!(tree.seek_val("profile"), None);
}

#[test]
fn find_says_that_the_field_is_missing() {
    let tree = sample();
    assert_eq!(tree.find("name"), Ok(&labelled("name", "Alice")));
    let e = tree.find("missing").unwrap_err();
    assert_eq!(e.kind, ErrorKind::Decode(Fault::MissingField));
    assert_eq!(e.key, "missing");
    assert_eq!(e.subtree, Some(sample()));
    assert_eq!(e.cause, None);
}

#[test]
fn find_val_says_which_part_is_missing() {
    let tree = sample();
    assert_eq!(tree.find_val("name"), Ok(&Node::leaf("Alice")));
    let e = tree.find_val("missing").unwrap_err();
    assert_eq!(e.kind, ErrorKind::Decode(Fault::MissingField));
    assert_eq!(e.subtree, Some(sample()));
    let e = tree.find_val("empty").unwrap_err();
    assert_eq!(e.kind, ErrorKind::Decode(Fault::MissingValue));
    assert_eq!(e.key, "empty");
    assert_eq!(e.subtree, Some(Node::branch(vec![Node::leaf("empty")])));
}

#[test]
fn is_labelled_compares_the_initial_text() {
    assert!(labelled("name", "Alice").is_labelled("name"));
    assert!(!labelled("name", "Alice").is_labelled("Alice"));
    assert!(Node::branch(vec![]).is_labelled(""));
}

#[test]
fn duplicate_copies_the_whole_tree() {
    let tree = sample();
    assert_eq!(tree.duplicate(), tree);
    assert_eq!(Node::leaf("x").duplicate(), Node::leaf("x"));
}
