//! The identifier codec: a 128-bit identifier as a text token and back.
//!
//! A token is the standard base64 alphabet, without padding, over the 16 bytes
//! of the identifier in little-endian order. The base64 work is done by the
//! `base64` crate; what is proved here rests on the contracts of
//! [`base64_encode`] and [`base64_decode`], which are believed, not proved.

use vstd::prelude::*;
use vstd::bytes::{
    lemma_auto_spec_u128_to_from_le_bytes, spec_u128_from_le_bytes, spec_u128_to_le_bytes,
    u128_from_le_bytes, u128_to_le_bytes,
};
use crate::error::{bare_token_error, token_error, Error, Fault, TokenFault};
use crate::tree::{Node, Tree};
use crate::OID;

verus! {

/// Number of bytes in an identifier.
pub const ID_BYTES: usize = 16;

/// Number of characters in the token of an identifier.
pub const TOKEN_LEN: usize = 22;

/// The text that `base64::encode_config` gives for `bytes` under
/// `STANDARD_NO_PAD`.
pub uninterp spec fn base64_text(bytes: Seq<u8>) -> Seq<char>;

/// What `base64::decode_config` gives for `text` under `STANDARD_NO_PAD`: the
/// bytes, or the fault it reports.
pub uninterp spec fn base64_bytes(text: Seq<char>) -> Result<Seq<u8>, TokenFault>;

/// Outcome of decoding a text: the bytes, or the fault found.
type Decoded = Result<Vec<u8>, TokenFault>;

/// Length of the unpadded base64 text of `n` bytes: four characters for every
/// three bytes, and two or three for a remainder of one or two.
pub open spec fn base64_len(n: nat) -> nat {
    (n / 3) * 4 + if n % 3 == 0 {
        0nat
    } else {
        (n % 3 + 1) as nat
    }
}

/// Whether `c` is of the standard base64 alphabet: a letter, a digit, `+` or
/// `/`. The padding character `=` is not.
pub open spec fn is_base64_char(c: char) -> bool {
    ||| 'A' <= c <= 'Z'
    ||| 'a' <= c <= 'z'
    ||| '0' <= c <= '9'
    ||| c == '+'
    ||| c == '/'
}

/// Whether every character of `text` is of the standard base64 alphabet.
pub open spec fn is_base64_text(text: Seq<char>) -> bool {
    forall|i: int| 0 <= i < text.len() ==> is_base64_char(#[trigger] text[i])
}

/// Calls `base64::encode_config` with `STANDARD_NO_PAD`.
///
/// Believed of it: the text is a function of the bytes alone, named
/// [`base64_text`]; it has the length that the crate's `encoded_size` computes
/// for a configuration without padding; every character of it is of the
/// standard alphabet, which is the crate's encode table, and none is padding;
/// and it is a text that the crate's decoder, under the same configuration,
/// turns back into these bytes. The input is kept short so that the length
/// cannot overflow, on which the crate panics.
#[verifier::external_body]
fn base64_encode(bytes: &[u8]) -> (text: String)
    requires
        bytes@.len() <= 0x1000_0000,
    ensures
        text@ == base64_text(bytes@),
        text@.len() == base64_len(bytes@.len()),
        is_base64_text(text@),
        base64_bytes(text@) == (Ok::<Seq<u8>, TokenFault>(bytes@)),
{
    base64::encode_config(bytes, base64::STANDARD_NO_PAD)
}

/// Calls `base64::decode_config` with `STANDARD_NO_PAD`, which allocates its
/// output and so accepts input of any length.
///
/// Believed of it: the outcome is a function of the text alone, named
/// [`base64_bytes`], the crate's error being handed on variant by variant.
#[verifier::external_body]
fn base64_decode(text: &str) -> (r: Decoded)
    ensures
        (match r {
            Ok(bytes) => base64_bytes(text@) == (Ok::<Seq<u8>, TokenFault>(bytes@)),
            Err(fault) => base64_bytes(text@) == (Err::<Seq<u8>, TokenFault>(fault)),
        }),
{
    match base64::decode_config(text, base64::STANDARD_NO_PAD) {
        Ok(bytes) => Ok(bytes),
        Err(base64::DecodeError::InvalidByte(offset, byte)) => Err(
            TokenFault::InvalidByte { offset, byte },
        ),
        Err(base64::DecodeError::InvalidLength) => Err(TokenFault::InvalidLength),
        Err(base64::DecodeError::InvalidLastSymbol(offset, byte)) => Err(
            TokenFault::InvalidLastSymbol { offset, byte },
        ),
    }
}

/// The token of an identifier.
pub open spec fn id_token(id: OID) -> Seq<char> {
    base64_text(spec_u128_to_le_bytes(id))
}

/// The identifier that 16 bytes stand for; any other number of bytes stands for
/// none.
pub open spec fn bytes_id(bytes: Seq<u8>) -> Result<OID, Fault> {
    if bytes.len() == ID_BYTES {
        Ok(spec_u128_from_le_bytes(bytes))
    } else {
        Err(Fault::WrongLength)
    }
}

/// The identifier that a token stands for, or why it stands for none: it is
/// not base64, or it does not decode to exactly 16 bytes.
pub open spec fn token_id(text: Seq<char>) -> Result<OID, (Fault, Option<TokenFault>)> {
    match base64_bytes(text) {
        Ok(bytes) => match bytes_id(bytes) {
            Ok(id) => Ok(id),
            Err(fault) => Err((fault, None)),
        },
        Err(cause) => Err((Fault::BadToken, Some(cause))),
    }
}

/// Whether the token of `id` stands for `id`. It does for every token that
/// [`encode_id`] has returned.
pub open spec fn round_trips(id: OID) -> bool {
    token_id(id_token(id)) == Ok::<OID, (Fault, Option<TokenFault>)>(id)
}

/// The identifier that decoded bytes stand for. The length is tested before a
/// byte is read.
pub fn id_from_bytes(bytes: &[u8]) -> (r: Result<OID, Fault>)
    ensures
        r == bytes_id(bytes@),
{
    if bytes.len() == ID_BYTES {
        Ok(u128_from_le_bytes(bytes))
    } else {
        Err(Fault::WrongLength)
    }
}

/// Encodes an identifier as its token: 22 characters of the standard base64
/// alphabet, without padding, which [`decode_id`] turns back into the
/// identifier.
pub fn encode_id(id: OID) -> (token: String)
    ensures
        token@ == id_token(id),
        token@.len() == TOKEN_LEN,
        is_base64_text(token@),
        round_trips(id),
{
    let bytes = u128_to_le_bytes(id);
    proof {
        lemma_auto_spec_u128_to_from_le_bytes();
    }
    base64_encode(bytes.as_slice())
}

/// Decodes a token: the identifier, or the reason for which there is none.
fn decode_token(token: &str) -> (r: Result<OID, (Fault, Option<TokenFault>)>)
    ensures
        r == token_id(token@),
{
    match base64_decode(token) {
        Ok(bytes) => match id_from_bytes(bytes.as_slice()) {
            Ok(id) => Ok(id),
            Err(fault) => Err((fault, None)),
        },
        Err(cause) => Err((Fault::BadToken, Some(cause))),
    }
}

/// Decodes a token. A text that is not base64, or that does not stand for
/// exactly 16 bytes, is an error; the length of what was decoded is tested
/// before it is read as an identifier.
pub fn decode_id(token: &str) -> (r: Result<OID, Error>)
    ensures
        match token_id(token@) {
            Ok(id) => r == Ok::<OID, Error>(id),
            Err((fault, cause)) => r matches Err(e) && e@ == bare_token_error(fault, cause),
        },
{
    match decode_token(token) {
        Ok(id) => Ok(id),
        Err((fault, cause)) => Err(Error::bare_token(fault, cause)),
    }
}

/// The codec between identifiers and the leaves that hold their tokens.
pub struct Base64Bi;

impl Base64Bi {
    /// A leaf that holds the token of `v`, from which [`Base64Bi::dewoodify`]
    /// gets `v` back.
    pub fn woodify(&self, v: &OID) -> (n: Node)
        ensures
            n@ == Tree::Leaf(id_token(*v)),
            id_token(*v).len() == TOKEN_LEN,
            is_base64_text(id_token(*v)),
            round_trips(*v),
    {
        let token = encode_id(*v);
        Node::leaf(token.as_str())
    }

    /// The identifier whose token is the initial text of `v`.
    pub fn dewoodify(&self, v: &Node) -> (r: Result<OID, Error>)
        ensures
            match token_id(v@.initial_str()) {
                Ok(id) => r == Ok::<OID, Error>(id),
                Err((fault, cause)) => r matches Err(e) && e@ == token_error(fault, cause, v@),
            },
    {
        match decode_token(v.initial_str()) {
            Ok(id) => Ok(id),
            Err((fault, cause)) => Err(Error::token(fault, cause, v)),
        }
    }
}

} // verus!
