//! Errors of the store, its codecs and its loader.
//!
//! An error is a value to be inspected: it names what went wrong, the field or
//! tag concerned, the subtree that was being read, and the fault reported by the
//! token decoder where that was the cause.

use vstd::prelude::*;
use crate::tree::{Node, Tree};
use crate::OID;

verus! {

/// What the base64 decoder found wrong with a token.
#[derive(Copy, Clone, Debug, PartialEq, Eq, Structural)]
pub enum TokenFault {
    /// A character outside the alphabet, with its byte offset.
    InvalidByte { offset: usize, byte: u8 },
    /// A length that no encoding has.
    InvalidLength,
    /// A last symbol with bits set that no encoding leaves set.
    InvalidLastSymbol { offset: usize, byte: u8 },
}

/// In what way a piece of input is malformed.
#[derive(Copy, Clone, Debug, PartialEq, Eq, Structural)]
pub enum Fault {
    /// No item is labelled with the key.
    MissingField,
    /// The item labelled with the key holds nothing after its label.
    MissingValue,
    /// A text was expected and a branch was found.
    NotALeaf,
    /// The token is not base64.
    BadToken,
    /// The token does not stand for exactly 16 bytes.
    WrongLength,
}

#[derive(Copy, Clone, Debug, PartialEq, Eq, Structural)]
pub enum ErrorKind {
    /// Malformed input under a known type tag.
    Decode(Fault),
    /// A type tag or directive that nothing is registered for.
    UnknownType,
    /// A second provider under a tag that already has one.
    DuplicateProviderTag,
    /// No identifier above the high-water mark is left to hand out.
    IdCollision(OID),
    /// The store holds no object under this identifier.
    NotFound(OID),
}

#[derive(Debug, PartialEq, Eq)]
pub struct Error {
    pub kind: ErrorKind,
    /// The field or tag concerned; empty where there is none.
    pub key: String,
    /// The tree that was being read.
    pub subtree: Option<Node>,
    /// The decoder's own report, where it is the cause.
    pub cause: Option<TokenFault>,
}

/// The mathematical value of an [`Error`].
pub struct ErrorView {
    pub kind: ErrorKind,
    pub key: Seq<char>,
    pub subtree: Option<Tree>,
    pub cause: Option<TokenFault>,
}

impl View for Error {
    type V = ErrorView;

    open spec fn view(&self) -> ErrorView {
        ErrorView {
            kind: self.kind,
            key: self.key@,
            subtree: match self.subtree {
                Some(n) => Some(n@),
                None => None,
            },
            cause: self.cause,
        }
    }
}

/// The error for input `subtree` that is malformed at `key`.
pub open spec fn decode_error(fault: Fault, key: Seq<char>, subtree: Tree) -> ErrorView {
    ErrorView { kind: ErrorKind::Decode(fault), key, subtree: Some(subtree), cause: None }
}

/// The error for a token that does not stand for an identifier, where the
/// token was read from `subtree`.
pub open spec fn token_error(fault: Fault, cause: Option<TokenFault>, subtree: Tree) -> ErrorView {
    ErrorView { kind: ErrorKind::Decode(fault), key: Seq::empty(), subtree: Some(subtree), cause }
}

/// The error for a token that does not stand for an identifier, where the
/// token came from no tree.
pub open spec fn bare_token_error(fault: Fault, cause: Option<TokenFault>) -> ErrorView {
    ErrorView { kind: ErrorKind::Decode(fault), key: Seq::empty(), subtree: None, cause }
}

/// The error for a record or directive under a tag that nothing handles.
pub open spec fn unknown_type_error(tag: Seq<char>, subtree: Tree) -> ErrorView {
    ErrorView { kind: ErrorKind::UnknownType, key: tag, subtree: Some(subtree), cause: None }
}

/// An error that concerns no tree.
pub open spec fn plain_error(kind: ErrorKind, key: Seq<char>) -> ErrorView {
    ErrorView { kind, key, subtree: None, cause: None }
}

/// An error that concerns neither a tree nor a key.
pub open spec fn bare_error(kind: ErrorKind) -> ErrorView {
    plain_error(kind, Seq::empty())
}

/// What [`Error::message`] says of each kind.
pub open spec fn kind_text(kind: ErrorKind) -> Seq<char> {
    match kind {
        ErrorKind::Decode(Fault::MissingField) => "could not find a child with this key"@,
        ErrorKind::Decode(Fault::MissingValue) => "a second item was supposed to be present"@,
        ErrorKind::Decode(Fault::NotALeaf) => "sought string, found branch"@,
        ErrorKind::Decode(Fault::BadToken) => "couldn't parse the Base64 data"@,
        ErrorKind::Decode(Fault::WrongLength) => "an identifier token stands for 16 bytes"@,
        ErrorKind::UnknownType => "unrecognized type tag or directive"@,
        ErrorKind::DuplicateProviderTag => "a provider is already registered under this tag"@,
        ErrorKind::IdCollision(_) => "no identifier is left above the highest known one"@,
        ErrorKind::NotFound(_) => "no object is known under this identifier"@,
    }
}

impl Error {
    /// The error for input `subtree` that is malformed at `key`.
    pub fn decode(fault: Fault, key: &str, subtree: &Node) -> (e: Error)
        ensures
            e@ == decode_error(fault, key@, subtree@),
    {
        Error {
            kind: ErrorKind::Decode(fault),
            key: key.to_owned(),
            subtree: Some(subtree.duplicate()),
            cause: None,
        }
    }

    /// The error for a token that does not stand for an identifier, where the
    /// token was read from `subtree`.
    pub fn token(fault: Fault, cause: Option<TokenFault>, subtree: &Node) -> (e: Error)
        ensures
            e@ == token_error(fault, cause, subtree@),
    {
        Error {
            kind: ErrorKind::Decode(fault),
            key: String::new(),
            subtree: Some(subtree.duplicate()),
            cause,
        }
    }

    /// The error for a token that does not stand for an identifier, where the
    /// token came from no tree.
    pub fn bare_token(fault: Fault, cause: Option<TokenFault>) -> (e: Error)
        ensures
            e@ == bare_token_error(fault, cause),
    {
        Error { kind: ErrorKind::Decode(fault), key: String::new(), subtree: None, cause }
    }

    /// The error for a record or directive under a tag that nothing handles.
    pub fn unknown_type(tag: &str, subtree: &Node) -> (e: Error)
        ensures
            e@ == unknown_type_error(tag@, subtree@),
    {
        Error {
            kind: ErrorKind::UnknownType,
            key: tag.to_owned(),
            subtree: Some(subtree.duplicate()),
            cause: None,
        }
    }

    /// An error that concerns no tree.
    pub fn plain(kind: ErrorKind, key: &str) -> (e: Error)
        ensures
            e@ == plain_error(kind, key@),
    {
        Error { kind, key: key.to_owned(), subtree: None, cause: None }
    }

    /// An error that concerns neither a tree nor a key.
    pub fn bare(kind: ErrorKind) -> (e: Error)
        ensures
            e@ == bare_error(kind),
    {
        Error { kind, key: String::new(), subtree: None, cause: None }
    }

    /// Whether loading can go on after this error: only an unknown tag or
    /// directive is a mere warning.
    pub fn is_warning(&self) -> (b: bool)
        ensures
            b == (self@.kind == ErrorKind::UnknownType),
    {
        match self.kind {
            ErrorKind::UnknownType => true,
            _ => false,
        }
    }

    /// A sentence that says what went wrong.
    pub fn message(&self) -> (text: String)
        ensures
            text@ == kind_text(self@.kind),
    {
        let text: &str = match self.kind {
            ErrorKind::Decode(Fault::MissingField) => "could not find a child with this key",
            ErrorKind::Decode(Fault::MissingValue) => "a second item was supposed to be present",
            ErrorKind::Decode(Fault::NotALeaf) => "sought string, found branch",
            ErrorKind::Decode(Fault::BadToken) => "couldn't parse the Base64 data",
            ErrorKind::Decode(Fault::WrongLength) => "an identifier token stands for 16 bytes",
            ErrorKind::UnknownType => "unrecognized type tag or directive",
            ErrorKind::DuplicateProviderTag => "a provider is already registered under this tag",
            ErrorKind::IdCollision(_) => "no identifier is left above the highest known one",
            ErrorKind::NotFound(_) => "no object is known under this identifier",
        };
        text.to_owned()
    }
}

} // verus!
