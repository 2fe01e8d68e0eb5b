use vstd::prelude::*;

use crate::sealed::Sealed;

verus! {

#[verifier::external_type_specification]
#[verifier::external_body]
pub struct ExFullKeyError(bitcoin::util::key::Error);

#[verifier::external_type_specification]
#[verifier::external_body]
pub struct ExSecpError(bitcoin::secp256k1::Error);

/// The serialization of the ECDSA public key that `bitcoin::ecdsa::PublicKey::from_slice`
/// reads from `sl`, or `None` where it refuses the bytes.
pub uninterp spec fn full_key_from_slice(sl: Seq<u8>) -> Option<Seq<u8>>;

/// The serialization of the x-only public key that
/// `bitcoin::schnorr::PublicKey::from_slice` reads from `sl`, or `None` where it
/// refuses the bytes.
pub uninterp spec fn xonly_key_from_slice(sl: Seq<u8>) -> Option<Seq<u8>>;

/// A 33-byte serialization with prefix 02 or 03, or a 65-byte one with prefix
/// 04: the forms in which a parsed ECDSA key is serialized back.
pub open spec fn full_key_canonical(sl: Seq<u8>) -> bool {
    ||| sl.len() == 33 && (sl[0] == 2 || sl[0] == 3)
    ||| sl.len() == 65 && sl[0] == 4
}

/// Calls `bitcoin::ecdsa::PublicKey::from_slice` and, on success, serializes the
/// key with `to_bytes`. Trusted: the result is the one `full_key_from_slice`
/// names for these bytes; a slice of another length than 33 or 65 is refused;
/// the serialization has the length of the slice (33 bytes for a compressed
/// key, 65 for an uncompressed one), and it is the slice itself where the
/// slice is already in that form (prefix 02/03, or 04). Which secp256k1 points
/// are accepted is not stated.
#[verifier::external_body]
fn ecdsa_key_from_slice(sl: &[u8]) -> (r: Result<Vec<u8>, bitcoin::util::key::Error>)
    ensures
        match r {
            Ok(v) => {
                &&& full_key_from_slice(sl@) == Some(v@)
                &&& sl@.len() == 33 || sl@.len() == 65
                &&& v@.len() == sl@.len()
                &&& full_key_canonical(sl@) ==> v@ == sl@
            },
            Err(_) => full_key_from_slice(sl@) is None,
        },
{
    match bitcoin::ecdsa::PublicKey::from_slice(sl) {
        Ok(k) => Ok(k.to_bytes()),
        Err(e) => Err(e),
    }
}

/// Calls `bitcoin::schnorr::PublicKey::from_slice` and, on success, serializes
/// the key with `serialize`. Trusted: the result is the one
/// `xonly_key_from_slice` names for these bytes, a slice of another length
/// than 32 is refused, and an accepted key serializes back to the slice. Which
/// points are accepted is not stated.
#[verifier::external_body]
fn schnorr_key_from_slice(sl: &[u8]) -> (r: Result<[u8; 32], bitcoin::secp256k1::Error>)
    ensures
        match r {
            Ok(v) => xonly_key_from_slice(sl@) == Some(v@) && sl@.len() == 32 && v@ == sl@,
            Err(_) => xonly_key_from_slice(sl@) is None,
        },
{
    match bitcoin::schnorr::PublicKey::from_slice(sl) {
        Ok(k) => Ok(k.serialize()),
        Err(e) => Err(e),
    }
}

/// Decoding error while parsing keys
#[derive(Debug, PartialEq, Eq, PartialOrd, Ord, Hash)]
pub enum KeyParseError {
    /// Bitcoin PublicKey parse error
    FullKeyParseError(bitcoin::util::key::Error),
    /// Xonly key parse Error
    XonlyKeyParseError(bitcoin::secp256k1::Error),
}

/// Which kind of key failed to parse (the outside error itself is not looked into).
pub enum KeyErrorKind {
    Full,
    XOnly,
}

impl KeyParseError {
    pub open spec fn kind(self) -> KeyErrorKind {
        match self {
            KeyParseError::FullKeyParseError(_) => KeyErrorKind::Full,
            KeyParseError::XonlyKeyParseError(_) => KeyErrorKind::XOnly,
        }
    }

    /// The message of the error: which kind of key failed to parse.
    pub fn to_string(&self) -> (r: String)
        ensures
            r@ == match self.kind() {
                KeyErrorKind::Full => "FullKey Parse Error"@,
                KeyErrorKind::XOnly => "XonlyKey Parse Error"@,
            },
    {
        match self {
            KeyParseError::FullKeyParseError(_) => String::from_str("FullKey Parse Error"),
            KeyParseError::XonlyKeyParseError(_) => String::from_str("XonlyKey Parse Error"),
        }
    }
}

/// Trait for parsing keys from byte slices
pub trait ParseableKey: Sized + Sealed {
    /// The canonical serialization of the key.
    spec fn key_bytes(&self) -> Seq<u8>;

    /// The serialization of the key read from `sl`, or `None` where `sl` holds none.
    spec fn spec_from_slice(sl: Seq<u8>) -> Option<Seq<u8>>;

    /// `sl` is already in the form in which a key read from it is serialized.
    spec fn spec_keeps_bytes(sl: Seq<u8>) -> bool;

    /// The kind of error reported for bytes that hold no key.
    spec fn spec_error_kind() -> KeyErrorKind;

    /// A key read from bytes in canonical form serializes back to those bytes.
    proof fn lemma_keeps_bytes(sl: Seq<u8>)
        requires
            Self::spec_keeps_bytes(sl),
            Self::spec_from_slice(sl) is Some,
        ensures
            Self::spec_from_slice(sl) == Some(sl),
    ;

    /// Parse a key from slice
    fn from_slice(sl: &[u8]) -> (r: Result<Self, KeyParseError>)
        ensures
            match r {
                Ok(k) => Self::spec_from_slice(sl@) == Some(k.key_bytes()),
                Err(e) => Self::spec_from_slice(sl@) is None && e.kind() == Self::spec_error_kind(),
            },
    ;
}

/// An ECDSA public key (compressed or not), held by its serialization.
#[derive(Debug, PartialEq, Eq, PartialOrd, Ord, Hash)]
pub struct FullKey {
    bytes: Vec<u8>,
}

impl FullKey {
    /// A serialization is 33 bytes (compressed) or 65 bytes (uncompressed) long.
    #[verifier::type_invariant]
    spec fn well_formed(self) -> bool {
        self.bytes@.len() == 33 || self.bytes@.len() == 65
    }

    /// The serialization of the key.
    pub fn as_bytes(&self) -> (r: &[u8])
        ensures
            r@ == self.key_bytes(),
            r@.len() == 33 || r@.len() == 65,
    {
        proof {
            use_type_invariant(self);
        }
        self.bytes.as_slice()
    }
}

/// A BIP340 x-only public key, held by its 32-byte serialization.
#[derive(Clone, Copy, Debug, PartialEq, Eq, PartialOrd, Ord, Hash)]
pub struct XOnlyKey {
    bytes: [u8; 32],
}

impl Clone for FullKey {
    fn clone(&self) -> (r: Self)
        ensures
            r.key_bytes() == self.key_bytes(),
    {
        proof {
            use_type_invariant(self);
        }
        let bytes = self.bytes.clone();
        proof {
            assert(bytes@ =~= self.bytes@);
        }
        FullKey { bytes }
    }
}

impl XOnlyKey {
    /// The serialization of the key.
    pub fn as_bytes(&self) -> (r: &[u8])
        ensures
            r@ == self.key_bytes(),
    {
        self.bytes.as_slice()
    }
}

impl Sealed for FullKey {
}

impl Sealed for XOnlyKey {
}

impl ParseableKey for FullKey {
    closed spec fn key_bytes(&self) -> Seq<u8> {
        self.bytes@
    }

    /// The bytes themselves where they are in canonical form, else the
    /// serialization that the key parser gives.
    open spec fn spec_from_slice(sl: Seq<u8>) -> Option<Seq<u8>> {
        match full_key_from_slice(sl) {
            Some(v) => Some(if full_key_canonical(sl) { sl } else { v }),
            None => None,
        }
    }

    open spec fn spec_keeps_bytes(sl: Seq<u8>) -> bool {
        full_key_canonical(sl)
    }

    open spec fn spec_error_kind() -> KeyErrorKind {
        KeyErrorKind::Full
    }

    proof fn lemma_keeps_bytes(sl: Seq<u8>) {
    }

    fn from_slice(sl: &[u8]) -> (r: Result<Self, KeyParseError>) {
        match ecdsa_key_from_slice(sl) {
            Ok(bytes) => Ok(FullKey { bytes }),
            Err(e) => Err(KeyParseError::FullKeyParseError(e)),
        }
    }
}

impl ParseableKey for XOnlyKey {
    closed spec fn key_bytes(&self) -> Seq<u8> {
        self.bytes@
    }

    /// An x-only key serializes back to the bytes it was read from.
    open spec fn spec_from_slice(sl: Seq<u8>) -> Option<Seq<u8>> {
        match xonly_key_from_slice(sl) {
            Some(v) => Some(sl),
            None => None,
        }
    }

    open spec fn spec_keeps_bytes(sl: Seq<u8>) -> bool {
        true
    }

    open spec fn spec_error_kind() -> KeyErrorKind {
        KeyErrorKind::XOnly
    }

    proof fn lemma_keeps_bytes(sl: Seq<u8>) {
    }

    fn from_slice(sl: &[u8]) -> (r: Result<Self, KeyParseError>) {
        match schnorr_key_from_slice(sl) {
            Ok(bytes) => Ok(XOnlyKey { bytes }),
            Err(e) => Err(KeyParseError::XonlyKeyParseError(e)),
        }
    }
}

/// The script context a fragment is decoded in: it fixes the key type.
pub trait ScriptContext {
    type Key: ParseableKey;

    spec fn spec_name() -> Seq<char>;

    /// The name of the context, as reported in key errors.
    fn name_str() -> (r: &'static str)
        ensures
            r@ == Self::spec_name(),
    ;
}

/// Bare and P2SH scripts: ECDSA keys.
pub struct Legacy;

/// Segwit v0 scripts: ECDSA keys.
pub struct Segwitv0;

/// Tapscript: x-only keys.
pub struct Tap;

impl ScriptContext for Legacy {
    type Key = FullKey;

    open spec fn spec_name() -> Seq<char> {
        "Legacy"@
    }

    fn name_str() -> (r: &'static str) {
        "Legacy"
    }
}

impl ScriptContext for Segwitv0 {
    type Key = FullKey;

    open spec fn spec_name() -> Seq<char> {
        "Segwitv0"@
    }

    fn name_str() -> (r: &'static str) {
        "Segwitv0"
    }
}

impl ScriptContext for Tap {
    type Key = XOnlyKey;

    open spec fn spec_name() -> Seq<char> {
        "TapscriptCtx"@
    }

    fn name_str() -> (r: &'static str) {
        "TapscriptCtx"
    }
}

} // verus!
