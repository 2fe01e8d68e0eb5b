use vstd::prelude::*;

use crate::keys::{KeyErrorKind, KeyParseError};
use crate::token::Token;

verus! {

/// Errors of the decoder.
#[derive(Debug, PartialEq, Eq)]
pub enum DecodeError {
    /// A token that no rule of the grammar allows where it stands.
    Unexpected(Token),
    /// The tokens ran out where the grammar needs one more.
    UnexpectedStart,
    /// A key push that the context's key type refuses, with the context's name.
    PubKeyCtxError(KeyParseError, &'static str),
    /// A `CHECKMULTISIG` over more than 20 keys.
    CmsTooManyKeys(u32),
}

/// An error as the grammar states it: the outside error inside a key error
/// is reduced to which kind of key failed.
pub enum ErrorKind {
    Unexpected(Token),
    UnexpectedStart,
    PubKeyCtxError(KeyErrorKind, Seq<char>),
    CmsTooManyKeys(u32),
}

impl DecodeError {
    pub open spec fn kind(&self) -> ErrorKind {
        match self {
            DecodeError::Unexpected(t) => ErrorKind::Unexpected(*t),
            DecodeError::UnexpectedStart => ErrorKind::UnexpectedStart,
            DecodeError::PubKeyCtxError(e, name) => ErrorKind::PubKeyCtxError(e.kind(), name@),
            DecodeError::CmsTooManyKeys(n) => ErrorKind::CmsTooManyKeys(*n),
        }
    }
}

} // verus!
