use obweb::error::{ErrorKind, Fault, TokenFault};
use obweb::object::{Endorsement, Kind, Lineage, Object, Post, Profile, NAME_SEPARATOR};
use obweb::oids::OidList;
use obweb::tree::Node;

const ZERO: &str = "AAAAAAAAAAAAAAAAAAAAAA";
const ONE: &str = "AQAAAAAAAAAAAAAAAAAAAA";
const MAX: &str = "/////////////////////w";

fn field(key: &str, value: Node) -> Node {
    Node::branch(vec![Node::leaf(key), value])
}

fn alice_record() -> Node {
    Node::branch(vec![
        Node::leaf("profile"),
        field("id", Node::leaf(ZERO)),
        field("name", Node::leaf("Alice")),
        field("description", Node::leaf("bio")),
    ])
}

fn alice(id: u128) -> Profile {
    Profile {
        id,
        lineage: Lineage::root(id),
        name: "Alice".to_string(),
        description: "bio".to_string(),
    }
}

#[test]
fn the_separator_is_an_em_quad() {
    assert_eq!(NAME_SEPARATOR, '\u{2001}');
}

#[test]
fn a_profile_is_written_with_all_its_fields() {
    let p = Profile {
        id: 1,
        lineage: Lineage { branch_root: 0, editing_prior: OidList::from_slice(&[0, u128::MAX]) },
        name: "Alice".to_string(),
        description: "bio".to_string(),
    };
    let expected = Node::branch(vec![
        Node::leaf("profile"),
        field("id", Node::leaf(ONE)),
        field("branch_root", Node::leaf(ZERO)),
        Node::branch(vec![Node::leaf("editing_prior"), Node::leaf(ZERO), Node::leaf(MAX)]),
        field("name", Node::leaf("Alice")),
        field("description", Node::leaf("bio")),
    ]);
    assert_eq!(p.woodify(), expected);
    assert_eq!(Object::Profile(p).woodify(), expected);
}

#[test]
fn a_record_without_lineage_begins_its_own_branch() {
    let p = Profile::dewoodify_with_id(&alice_record(), 0).unwrap();
    assert_eq!(p, alice(0));
    assert_eq!(p.id(), 0);
    assert_eq!(p.lineage.branch_root, 0);
    assert_eq!(p.lineage.editing_prior.len(), 0);
}

#[test]
fn the_identifier_is_the_one_handed_in() {
    let p = Profile::dewoodify_with_id(&alice_record(), 77).unwrap();
    assert_eq!(p, alice(77));
}

#[test]
fn a_record_is_read_with_its_own_identifier() {
    let ob = Object::dewoodify(Kind::Profile, &alice_record()).unwrap();
    assert_eq!(ob, Object::Profile(alice(0)));
}

#[test]
fn profiles_survive_the_round_trip() {
    let profiles = vec![
        alice(0),
        alice(u128::MAX),
        Profile {
            id: 12345678901234567890,
            lineage: Lineage { branch_root: 3, editing_prior: OidList::from_slice(&[3, 9, 27]) },
            name: "two words".to_string(),
            description: String::new(),
        },
        Profile {
            id: 5,
            lineage: Lineage { branch_root: 5, editing_prior: OidList::from_slice(&[4]) },
            name: String::new(),
            description: "name".to_string(),
        },
        Profile {
            id: 6,
            lineage: Lineage::root(6),
            name: "description".to_string(),
            description: "id".to_string(),
        },
    ];
    for p in profiles {
        let tree = p.woodify();
        assert_eq!(Profile::dewoodify_with_id(&tree, p.id), Ok(p.duplicate()));
        assert_eq!(Object::dewoodify(Kind::Profile, &tree), Ok(Object::Profile(p)));
    }
}

#[test]
fn endorsements_and_posts_survive_the_round_trip() {
    let e = Object::Endorsement(Endorsement {
        id: 10,
        lineage: Lineage { branch_root: 2, editing_prior: OidList::from_slice(&[2, 3]) },
    });
    let tree = e.woodify();
    assert_eq!(tree.initial_str(), "endorsement");
    assert_eq!(Object::dewoodify(Kind::Endorsement, &tree), Ok(e));

    let p = Object::Post(Post { id: u128::MAX, lineage: Lineage::root(u128::MAX) });
    let tree = p.woodify();
    assert_eq!(tree.initial_str(), "post");
    assert_eq!(Object::dewoodify_with_id(Kind::Post, &tree, u128::MAX), Ok(p));
}

#[test]
fn the_kind_decides_how_a_record_is_read() {
    let tree = Object::Profile(alice(4)).woodify();
    let as_post = Object::dewoodify(Kind::Post, &tree).unwrap();
    assert_eq!(as_post, Object::Post(Post { id: 4, lineage: Lineage::root(4) }));
}

#[test]
fn the_words_of_a_name_are_joined_by_the_separator() {
    let record = Node::branch(vec![
        Node::leaf("profile"),
        Node::branch(vec![Node::leaf("name"), Node::leaf("Alice"), Node::leaf("B"), Node::leaf("Carol")]),
        field("description", Node::leaf("bio")),
    ]);
    let p = Profile::dewoodify_with_id(&record, 1).unwrap();
    assert_eq!(p.name, "Alice\u{2001}B\u{2001}Carol");
}

#[test]
fn a_name_field_without_words_is_the_empty_name() {
    let record = Node::branch(vec![
        Node::leaf("profile"),
        Node::branch(vec![Node::leaf("name")]),
        field("description", Node::leaf("bio")),
    ]);
    let p = Profile::dewoodify_with_id(&record, 1).unwrap();
    assert_eq!(p.name, "");
}

#[test]
fn a_word_of_a_name_may_be_a_branch() {
    let record = Node::branch(vec![
        Node::leaf("profile"),
        Node::branch(vec![
            Node::leaf("name"),
            Node::branch(vec![Node::leaf("Alice"), Node::leaf("note")]),
        ]),
        field("description", Node::leaf("bio")),
    ]);
    let p = Profile::dewoodify_with_id(&record, 1).unwrap();
    assert_eq!(p.name, "Alice");
}

#[test]
fn a_profile_without_name_is_malformed() {
    let record = Node::branch(vec![
        Node::leaf("profile"),
        field("description", Node::leaf("bio")),
    ]);
    let e = Profile::dewoodify_with_id(&record, 1).unwrap_err();
    assert_eq!(e.kind, ErrorKind::Decode(Fault::MissingField));
    assert_eq!(e.key, "name");
    assert_eq!(e.subtree, Some(record));
    assert_eq!(e.cause, None);
    assert_eq!(e.message(), "could not find a child with this key");
    assert!(!e.is_warning());
}

#[test]
fn a_profile_without_description_is_malformed() {
    let record = Node::branch(vec![Node::leaf("profile"), field("name", Node::leaf("A"))]);
    let e = Profile::dewoodify_with_id(&record, 1).unwrap_err();
    assert_eq!(e.kind, ErrorKind::Decode(Fault::MissingField));
    assert_eq!(e.key, "description");
    assert_eq!(e.subtree, Some(record));
}

#[test]
fn a_description_without_value_is_malformed() {
    let empty = Node::branch(vec![Node::leaf("description")]);
    let record = Node::branch(vec![
        Node::leaf("profile"),
        field("name", Node::leaf("A")),
        Node::branch(vec![Node::leaf("description")]),
    ]);
    let e = Profile::dewoodify_with_id(&record, 1).unwrap_err();
    assert_eq!(e.kind, ErrorKind::Decode(Fault::MissingValue));
    assert_eq!(e.key, "description");
    assert_eq!(e.subtree, Some(empty));
    assert_eq!(e.message(), "a second item was supposed to be present");
}

#[test]
fn a_description_that_is_a_branch_is_malformed() {
    let value = Node::branch(vec![Node::leaf("a"), Node::leaf("b")]);
    let record = Node::branch(vec![
        Node::leaf("profile"),
        field("name", Node::leaf("A")),
        field("description", Node::branch(vec![Node::leaf("a"), Node::leaf("b")])),
    ]);
    let e = Profile::dewoodify_with_id(&record, 1).unwrap_err();
    assert_eq!(e.kind, ErrorKind::Decode(Fault::NotALeaf));
    assert_eq!(e.key, "description");
    assert_eq!(e.subtree, Some(value));
    assert_eq!(e.message(), "sought string, found branch");
}

#[test]
fn a_malformed_branch_root_is_reported_before_the_name() {
    let record = Node::branch(vec![
        Node::leaf("profile"),
        field("branch_root", Node::leaf("AAAA")),
    ]);
    let e = Profile::dewoodify_with_id(&record, 1).unwrap_err();
    assert_eq!(e.kind, ErrorKind::Decode(Fault::WrongLength));
    assert_eq!(e.subtree, Some(Node::leaf("AAAA")));
    assert_eq!(e.message(), "an identifier token stands for 16 bytes");
}

#[test]
fn the_first_malformed_prior_is_reported() {
    let record = Node::branch(vec![
        Node::leaf("post"),
        Node::branch(vec![
            Node::leaf("editing_prior"),
            Node::leaf(ONE),
            Node::leaf("?"),
            Node::leaf("AAAA"),
        ]),
    ]);
    let e = Object::dewoodify_with_id(Kind::Post, &record, 1).unwrap_err();
    assert_eq!(e.kind, ErrorKind::Decode(Fault::BadToken));
    assert_eq!(e.subtree, Some(Node::leaf("?")));
    assert_eq!(e.cause, Some(TokenFault::InvalidByte { offset: 0, byte: b'?' }));
}

#[test]
fn a_record_without_id_cannot_be_read_by_itself() {
    let record = Node::branch(vec![
        Node::leaf("profile"),
        field("name", Node::leaf("A")),
        field("description", Node::leaf("d")),
    ]);
    let e = Object::dewoodify(Kind::Profile, &record).unwrap_err();
    assert_eq!(e.kind, ErrorKind::Decode(Fault::MissingField));
    assert_eq!(e.key, "id");
}

#[test]
fn the_lineage_is_read_where_it_is_stated() {
    let record = Node::branch(vec![
        Node::leaf("endorsement"),
        field("branch_root", Node::leaf(MAX)),
        Node::branch(vec![Node::leaf("editing_prior"), Node::leaf(ZERO), Node::leaf(ONE)]),
    ]);
    let lineage = Lineage::dewoodify_with_id(&record, 9).unwrap();
    assert_eq!(lineage.branch_root, u128::MAX);
    assert_eq!(lineage.editing_prior.to_vec(), vec![0, 1]);
}

#[test]
fn an_object_answers_for_its_kind() {
    let p = Object::Profile(Profile {
        id: 3,
        lineage: Lineage { branch_root: 1, editing_prior: OidList::from_slice(&[2]) },
        name: "N".to_string(),
        description: "D".to_string(),
    });
    assert_eq!(p.kind(), Kind::Profile);
    assert_eq!(p.id(), 3);
    assert_eq!(p.branch_root(), 1);
    assert_eq!(p.editing_prior().to_vec(), vec![2]);
    assert_eq!(p.name(), Some("N"));
    assert_eq!(Profile::type_provider_name(), "profile");
    let post = Object::Post(Post { id: 8, lineage: Lineage::root(8) });
    assert_eq!(post.kind(), Kind::Post);
    assert_eq!(post.name(), None);
    assert_eq!(post.branch_root(), 8);
    assert_eq!(post.duplicate(), post);
}

#[test]
fn a_profile_that_begins_its_branch_is_written_as_tag_id_name_description() {
    let expected = Node::branch(vec![
        Node::leaf("profile"),
        field("id", Node::leaf(ZERO)),
        field("name", Node::leaf("Alice")),
        field("description", Node::leaf("bio")),
    ]);
    assert_eq!(alice(0).woodify(), expected);
    assert_eq!(alice(0).woodify(), alice_record());
    assert_eq!(Object::Profile(alice(0)).woodify(), expected);
}

#[test]
fn the_branch_root_is_written_only_where_it_is_not_the_record_itself() {
    let p = Profile {
        id: 1,
        lineage: Lineage { branch_root: 0, editing_prior: OidList::new() },
        name: "N".to_string(),
        description: "D".to_string(),
    };
    let expected = Node::branch(vec![
        Node::leaf("profile"),
        field("id", Node::leaf(ONE)),
        field("branch_root", Node::leaf(ZERO)),
        field("name", Node::leaf("N")),
        field("description", Node::leaf("D")),
    ]);
    assert_eq!(p.woodify(), expected);
    assert_eq!(Profile::dewoodify_with_id(&expected, 1), Ok(p));
}

#[test]
fn what_a_record_edits_is_written_only_where_it_edits_anything() {
    let p = Profile {
        id: 1,
        lineage: Lineage { branch_root: 1, editing_prior: OidList::from_slice(&[0]) },
        name: "N".to_string(),
        description: "D".to_string(),
    };
    let expected = Node::branch(vec![
        Node::leaf("profile"),
        field("id", Node::leaf(ONE)),
        Node::branch(vec![Node::leaf("editing_prior"), Node::leaf(ZERO)]),
        field("name", Node::leaf("N")),
        field("description", Node::leaf("D")),
    ]);
    assert_eq!(p.woodify(), expected);
    assert_eq!(Profile::dewoodify_with_id(&expected, 1), Ok(p));
}

#[test]
fn a_post_that_begins_its_branch_is_written_as_tag_and_id() {
    let post = Object::Post(Post { id: u128::MAX, lineage: Lineage::root(u128::MAX) });
    let expected = Node::branch(vec![Node::leaf("post"), field("id", Node::leaf(MAX))]);
    assert_eq!(post.woodify(), expected);
    assert_eq!(Object::dewoodify(Kind::Post, &expected), Ok(post));
}
