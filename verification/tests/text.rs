use obweb::text::{text_eq, text_side, Side};

#[test]
fn equal_texts_are_equal() {
    assert!(text_eq("", ""));
    assert!(text_eq("name", "name"));
    assert!(text_eq("na\u{2001}me", "na\u{2001}me"));
}

#[test]
fn different_texts_are_not_equal() {
    assert!(!text_eq("name", "nam"));
    assert!(!text_eq("name", "namf"));
    assert!(!text_eq("", "a"));
}

#[test]
fn text_side_is_the_order_of_str() {
    let words = ["", "A", "Alice", "Bob", "a", "ab", "b", "\u{e9}", "\u{2001}"];
    for a in words.iter() {
        for b in words.iter() {
            let expected = if a < b {
                Side::Before
            } else if a == b {
                Side::Same
            } else {
                Side::After
            };
            assert_eq!(text_side(a, b), expected);
        }
    }
}

#[test]
fn a_prefix_comes_before() {
    assert_eq!(text_side("ab", "abc"), Side::Before);
    assert_eq!(text_side("abc", "ab"), Side::After);
}
