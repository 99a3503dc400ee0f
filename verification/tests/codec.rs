use obweb::codec::{decode_id, encode_id, id_from_bytes, Base64Bi};
use obweb::error::{ErrorKind, Fault, TokenFault};
use obweb::tree::Node;

#[test]
fn zero_is_twenty_two_times_a() {
    assert_eq!(encode_id(0), "AAAAAAAAAAAAAAAAAAAAAA");
}

#[test]
fn the_greatest_identifier_ends_in_w() {
    assert_eq!(encode_id(u128::MAX), "/////////////////////w");
}

#[test]
fn the_bytes_are_little_endian() {
    assert_eq!(encode_id(1), "AQAAAAAAAAAAAAAAAAAAAA");
    assert_eq!(encode_id(1u128 << 120), "AAAAAAAAAAAAAAAAAAAAAQ");
}

#[test]
fn every_token_has_twenty_two_characters() {
    for id in [0u128, 1, 255, 256, 0xdead_beef, u128::MAX / 3, u128::MAX - 1, u128::MAX] {
        assert_eq!(encode_id(id).len(), 22);
    }
}

#[test]
fn decode_gives_back_what_encode_took() {
    for id in [0u128, 1, 2, 255, 256, 0xdead_beef, 1u128 << 64, u128::MAX / 3, u128::MAX - 1, u128::MAX]
    {
        assert_eq!(decode_id(&encode_id(id)), Ok(id));
    }
}

#[test]
fn decode_reads_a_token_written_by_hand() {
    assert_eq!(decode_id("AAAAAAAAAAAAAAAAAAAAAA"), Ok(0));
    assert_eq!(decode_id("/////////////////////w"), Ok(u128::MAX));
    assert_eq!(decode_id("AQAAAAAAAAAAAAAAAAAAAA"), Ok(1));
}

fn failure(token: &str) -> (ErrorKind, Option<TokenFault>) {
    let e = decode_id(token).unwrap_err();
    assert_eq!(e.key, "");
    assert_eq!(e.subtree, None);
    (e.kind, e.cause)
}

#[test]
fn a_token_that_is_too_short_has_the_wrong_length() {
    assert_eq!(failure("AAAA"), (ErrorKind::Decode(Fault::WrongLength), None));
    assert_eq!(failure(""), (ErrorKind::Decode(Fault::WrongLength), None));
    assert_eq!(failure("AAAAAAAAAAAAAAAAAAAA"), (ErrorKind::Decode(Fault::WrongLength), None));
}

#[test]
fn a_token_that_is_too_long_has_the_wrong_length() {
    // 24 characters stand for 18 bytes
    assert_eq!(
        failure("AAAAAAAAAAAAAAAAAAAAAAAA"),
        (ErrorKind::Decode(Fault::WrongLength), None)
    );
    let long = "A".repeat(4000);
    assert_eq!(failure(&long), (ErrorKind::Decode(Fault::WrongLength), None));
}

#[test]
fn a_character_outside_the_alphabet_is_reported_with_its_place() {
    assert_eq!(
        failure("AAAAAAAAAA!AAAAAAAAAAA"),
        (
            ErrorKind::Decode(Fault::BadToken),
            Some(TokenFault::InvalidByte { offset: 10, byte: b'!' })
        )
    );
}

#[test]
fn a_length_that_no_encoding_has_is_reported() {
    assert_eq!(
        failure("AAAAA"),
        (ErrorKind::Decode(Fault::BadToken), Some(TokenFault::InvalidLength))
    );
}

#[test]
fn stray_bits_in_the_last_symbol_are_reported() {
    assert_eq!(
        failure("AAAAAAAAAAAAAAAAAAAAAB"),
        (
            ErrorKind::Decode(Fault::BadToken),
            Some(TokenFault::InvalidLastSymbol { offset: 21, byte: b'B' })
        )
    );
}

#[test]
fn sixteen_bytes_are_an_identifier() {
    let mut bytes = [0u8; 16];
    bytes[0] = 2;
    bytes[1] = 1;
    assert_eq!(id_from_bytes(&bytes), Ok(258));
    assert_eq!(id_from_bytes(&[0xff; 16]), Ok(u128::MAX));
}

#[test]
fn any_other_number_of_bytes_is_none() {
    assert_eq!(id_from_bytes(&[]), Err(Fault::WrongLength));
    assert_eq!(id_from_bytes(&[0u8; 15]), Err(Fault::WrongLength));
    assert_eq!(id_from_bytes(&[0u8; 17]), Err(Fault::WrongLength));
}

#[test]
fn the_leaf_codec_writes_the_token() {
    assert_eq!(Base64Bi.woodify(&0), Node::leaf("AAAAAAAAAAAAAAAAAAAAAA"));
    assert_eq!(Base64Bi.dewoodify(&Node::leaf("/////////////////////w")), Ok(u128::MAX));
}

#[test]
fn the_leaf_codec_reads_the_initial_text() {
    let wrapped = Node::branch(vec![Node::leaf("AQAAAAAAAAAAAAAAAAAAAA"), Node::leaf("note")]);
    assert_eq!(Base64Bi.dewoodify(&wrapped), Ok(1));
}

#[test]
fn the_leaf_codec_keeps_the_subtree_and_the_cause() {
    let bad = Node::leaf("not base64!");
    let e = Base64Bi.dewoodify(&bad).unwrap_err();
    assert_eq!(e.kind, ErrorKind::Decode(Fault::BadToken));
    assert_eq!(e.subtree, Some(Node::leaf("not base64!")));
    assert_eq!(e.cause, Some(TokenFault::InvalidByte { offset: 3, byte: b' ' }));
    assert_eq!(e.message(), "couldn't parse the Base64 data");

    let short = Node::leaf("AAAA");
    let e = Base64Bi.dewoodify(&short).unwrap_err();
    assert_eq!(e.kind, ErrorKind::Decode(Fault::WrongLength));
    assert_eq!(e.subtree, Some(Node::leaf("AAAA")));
    assert_eq!(e.cause, None);
}

#[test]
fn a_token_is_of_the_standard_alphabet_without_padding() {
    for id in [0u128, 1, 62, 63, 0xfb, 0xff, 0xdead_beef, u128::MAX / 5, u128::MAX] {
        let token = encode_id(id);
        assert!(token
            .chars()
            .all(|c| c.is_ascii_alphanumeric() || c == '+' || c == '/'));
        assert!(!token.contains('='));
    }
    // 0xfb in the first byte gives the sextet 62, which is written `+`
    assert_eq!(encode_id(0xfb), "+wAAAAAAAAAAAAAAAAAAAA");
}
