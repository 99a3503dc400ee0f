use obweb::error::ErrorKind;
use obweb::object::Kind;
use obweb::registry::{add_provider, Registry};

#[test]
fn a_new_registry_knows_no_tag() {
    let registry = Registry::new();
    assert_eq!(registry.provider("profile"), None);
}

#[test]
fn a_registered_kind_is_found_under_its_tag() {
    let mut registry = Registry::new();
    assert!(add_provider(&mut registry, Kind::Profile).is_ok());
    assert_eq!(registry.provider("profile"), Some(Kind::Profile));
    assert_eq!(registry.provider("post"), None);
}

#[test]
fn registering_a_kind_twice_is_rejected() {
    let mut registry = Registry::new();
    assert!(add_provider(&mut registry, Kind::Post).is_ok());
    let e = add_provider(&mut registry, Kind::Post).unwrap_err();
    assert_eq!(e.kind, ErrorKind::DuplicateProviderTag);
    assert_eq!(e.key, "post");
    assert_eq!(e.subtree, None);
    assert_eq!(e.message(), "a provider is already registered under this tag");
}

#[test]
fn two_kinds_under_one_tag_are_rejected_and_the_first_stays() {
    let mut registry = Registry::new();
    assert!(registry.register("record", Kind::Profile).is_ok());
    let e = registry.register("record", Kind::Endorsement).unwrap_err();
    assert_eq!(e.kind, ErrorKind::DuplicateProviderTag);
    assert_eq!(e.key, "record");
    assert_eq!(registry.provider("record"), Some(Kind::Profile));
}

#[test]
fn the_standard_registry_knows_every_kind() {
    let registry = Registry::standard();
    assert_eq!(registry.provider("profile"), Some(Kind::Profile));
    assert_eq!(registry.provider("endorsement"), Some(Kind::Endorsement));
    assert_eq!(registry.provider("post"), Some(Kind::Post));
    assert_eq!(registry.provider("comment"), None);
}

#[test]
fn each_kind_has_its_own_tag() {
    assert_eq!(Kind::Profile.type_provider_name(), "profile");
    assert_eq!(Kind::Endorsement.type_provider_name(), "endorsement");
    assert_eq!(Kind::Post.type_provider_name(), "post");
}

#[test]
fn each_registration_makes_one_provider_more() {
    let mut registry = Registry::new();
    assert_eq!(registry.len(), 0);
    assert!(registry.register("a", Kind::Profile).is_ok());
    assert_eq!(registry.len(), 1);
    assert!(registry.register("b", Kind::Profile).is_ok());
    assert_eq!(registry.len(), 2);
    assert!(registry.register("a", Kind::Post).is_err());
    assert_eq!(registry.len(), 2);
    assert_eq!(Registry::standard().len(), 3);
}
