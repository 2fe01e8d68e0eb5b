use miniscript_decode::ast::Terminal;
use miniscript_decode::decode::{parse, return_none};
use miniscript_decode::error::DecodeError;
use miniscript_decode::keys::{FullKey, KeyParseError, Legacy, ParseableKey, Segwitv0, Tap, XOnlyKey};
use miniscript_decode::token::is_and_v;
use miniscript_decode::{Token, TokenIter};

const G_X: &str = "79be667ef9dcbbac55a06295ce870b07029bfcdb2dce28d959f2815b16f81798";
const G_Y: &str = "483ada7726a3c4655da4fbfc0e1108a8fd17b448a68554199c47d08ffb10d4b8";

fn hex(s: &str) -> Vec<u8> {
    (0..s.len() / 2)
        .map(|i| u8::from_str_radix(&s[2 * i..2 * i + 2], 16).unwrap())
        .collect()
}

fn g_compressed() -> [u8; 33] {
    hex(&format!("02{}", G_X)).try_into().unwrap()
}

fn g_uncompressed() -> [u8; 65] {
    hex(&format!("04{}{}", G_X, G_Y)).try_into().unwrap()
}

fn g_xonly() -> [u8; 32] {
    hex(G_X).try_into().unwrap()
}

/// The key read from canonical bytes, which it serializes back to.
fn fk(b: &[u8]) -> FullKey {
    let k = FullKey::from_slice(b).unwrap();
    assert_eq!(k.as_bytes(), b);
    k
}

fn xk(b: &[u8]) -> XOnlyKey {
    let k = XOnlyKey::from_slice(b).unwrap();
    assert_eq!(k.as_bytes(), b);
    k
}

fn iter(script: Vec<Token>) -> TokenIter {
    TokenIter::new(script)
}

fn legacy(script: Vec<Token>) -> (Result<Terminal<FullKey>, DecodeError>, usize) {
    let mut it = iter(script);
    let r = parse::<Legacy>(&mut it);
    (r, it.len())
}

fn tap(script: Vec<Token>) -> (Result<Terminal<XOnlyKey>, DecodeError>, usize) {
    let mut it = iter(script);
    let r = parse::<Tap>(&mut it);
    (r, it.len())
}

fn bx(t: Terminal<FullKey>) -> Box<Terminal<FullKey>> {
    Box::new(t)
}

#[test]
fn true_and_false() {
    assert_eq!(legacy(vec![Token::Num(1)]), (Ok(Terminal::True), 0));
    assert_eq!(legacy(vec![Token::Num(0)]), (Ok(Terminal::False), 0));
}

#[test]
fn empty_script_is_unexpected_start() {
    assert_eq!(legacy(vec![]), (Err(DecodeError::UnexpectedStart), 0));
}

#[test]
fn stray_token_is_unexpected() {
    assert_eq!(legacy(vec![Token::Add]).0, Err(DecodeError::Unexpected(Token::Add)));
    assert_eq!(legacy(vec![Token::Num(2)]).0, Err(DecodeError::Unexpected(Token::Num(2))));
}

#[test]
fn compressed_key() {
    let (r, left) = legacy(vec![Token::Bytes33(g_compressed())]);
    assert_eq!(r, Ok(Terminal::PkK(fk(&g_compressed()))));
    assert_eq!(left, 0);
}

#[test]
fn uncompressed_key_keeps_its_form() {
    let (r, _) = legacy(vec![Token::Bytes65(g_uncompressed())]);
    assert_eq!(r, Ok(Terminal::PkK(fk(&g_uncompressed()))));
}

#[test]
fn key_with_checksig() {
    let mut it = iter(vec![Token::Bytes33(g_compressed()), Token::CheckSig]);
    let r = parse::<Segwitv0>(&mut it);
    assert_eq!(r, Ok(Terminal::Check(bx(Terminal::PkK(fk(&g_compressed()))))));
}

#[test]
fn xonly_key_in_tapscript() {
    let (r, _) = tap(vec![Token::Bytes32(g_xonly()), Token::CheckSig]);
    assert_eq!(r, Ok(Terminal::Check(Box::new(Terminal::PkK(xk(&g_xonly()))))));
}

#[test]
fn full_key_refused_in_tapscript() {
    let (r, _) = tap(vec![Token::Bytes33(g_compressed())]);
    assert!(matches!(
        r,
        Err(DecodeError::PubKeyCtxError(KeyParseError::XonlyKeyParseError(_), "TapscriptCtx"))
    ));
}

#[test]
fn xonly_key_refused_in_legacy() {
    let (r, _) = legacy(vec![Token::Bytes32(g_xonly())]);
    assert!(matches!(
        r,
        Err(DecodeError::PubKeyCtxError(KeyParseError::FullKeyParseError(_), "Legacy"))
    ));
}

#[test]
fn bad_key_prefix_refused() {
    let mut bytes = g_compressed();
    bytes[0] = 0x05;
    let mut it = iter(vec![Token::Bytes33(bytes)]);
    let r = parse::<Segwitv0>(&mut it);
    assert!(matches!(
        r,
        Err(DecodeError::PubKeyCtxError(KeyParseError::FullKeyParseError(_), "Segwitv0"))
    ));
}

#[test]
fn timelocks() {
    assert_eq!(
        legacy(vec![Token::Num(144), Token::CheckSequenceVerify]).0,
        Ok(Terminal::Older(144))
    );
    assert_eq!(
        legacy(vec![Token::Num(500000), Token::CheckLockTimeVerify]).0,
        Ok(Terminal::After(500000))
    );
    assert_eq!(
        legacy(vec![Token::CheckSequenceVerify]).0,
        Err(DecodeError::UnexpectedStart)
    );
}

#[test]
fn hash_locks() {
    let h32 = [7u8; 32];
    let h20 = [9u8; 20];
    let tail = |mut v: Vec<Token>| {
        let mut s = vec![Token::Size, Token::Num(32), Token::Equal, Token::Verify];
        s.append(&mut v);
        s
    };
    assert_eq!(
        legacy(tail(vec![Token::Sha256, Token::Bytes32(h32), Token::Equal])).0,
        Ok(Terminal::Sha256(h32))
    );
    assert_eq!(
        legacy(tail(vec![Token::Hash256, Token::Bytes32(h32), Token::Equal])).0,
        Ok(Terminal::Hash256(h32))
    );
    assert_eq!(
        legacy(tail(vec![Token::Ripemd160, Token::Hash20(h20), Token::Equal])).0,
        Ok(Terminal::Ripemd160(h20))
    );
    assert_eq!(
        legacy(tail(vec![Token::Hash160, Token::Hash20(h20), Token::Equal])).0,
        Ok(Terminal::Hash160(h20))
    );
    assert_eq!(
        legacy(tail(vec![Token::Hash160, Token::Hash20(h20), Token::Equal, Token::Verify])).0,
        Ok(Terminal::Verify(bx(Terminal::Hash160(h20))))
    );
    assert_eq!(
        legacy(tail(vec![Token::Sha256, Token::Bytes32(h32), Token::Equal, Token::Verify])).0,
        Ok(Terminal::Verify(bx(Terminal::Sha256(h32))))
    );
}

#[test]
fn hash_lock_with_wrong_size_is_unexpected() {
    let h32 = [7u8; 32];
    let script = vec![
        Token::Size,
        Token::Num(33),
        Token::Equal,
        Token::Verify,
        Token::Sha256,
        Token::Bytes32(h32),
        Token::Equal,
    ];
    assert_eq!(legacy(script).0, Err(DecodeError::Unexpected(Token::Num(33))));
}

#[test]
fn pubkey_hash() {
    let h20 = [3u8; 20];
    let script = vec![Token::Dup, Token::Hash160, Token::Hash20(h20), Token::Equal, Token::Verify];
    assert_eq!(legacy(script), (Ok(Terminal::PkH(h20)), 0));
}

#[test]
fn and_v_of_verify_and_false() {
    let script = vec![Token::Num(1), Token::Verify, Token::Num(0)];
    assert_eq!(
        legacy(script),
        (Ok(Terminal::AndV(bx(Terminal::Verify(bx(Terminal::True))), bx(Terminal::False))), 0)
    );
}

#[test]
fn and_v_chains_to_the_left() {
    // The decoder nests an `and_v` chain on its first part: [a] [b] [c] gives
    // and_v(and_v(a, b), c).
    let script = vec![
        Token::Num(1),
        Token::Verify,
        Token::Num(0),
        Token::Verify,
        Token::Num(144),
        Token::CheckSequenceVerify,
    ];
    assert_eq!(
        legacy(script).0,
        Ok(Terminal::AndV(
            bx(Terminal::AndV(
                bx(Terminal::Verify(bx(Terminal::True))),
                bx(Terminal::Verify(bx(Terminal::False)))
            )),
            bx(Terminal::Older(144))
        ))
    );
}

#[test]
fn multisig() {
    let script = vec![
        Token::Num(1),
        Token::Bytes33(g_compressed()),
        Token::Bytes65(g_uncompressed()),
        Token::Num(2),
        Token::CheckMultiSig,
    ];
    assert_eq!(
        legacy(script),
        (
            Ok(Terminal::Multi(
                1,
                vec![
                    fk(&g_compressed()),
                    fk(&g_uncompressed())
                ]
            )),
            0
        )
    );
}

#[test]
fn multisig_with_too_many_keys() {
    assert_eq!(
        legacy(vec![Token::Num(21), Token::CheckMultiSig]).0,
        Err(DecodeError::CmsTooManyKeys(21))
    );
}

#[test]
fn multisig_with_a_non_key() {
    let script = vec![Token::Num(1), Token::Num(5), Token::Num(1), Token::CheckMultiSig];
    assert_eq!(legacy(script).0, Err(DecodeError::Unexpected(Token::Num(5))));
}

#[test]
fn threshold() {
    let script = vec![Token::Num(1), Token::Num(0), Token::Add, Token::Num(1), Token::Equal];
    assert_eq!(
        legacy(script),
        (Ok(Terminal::Thresh(1, vec![Terminal::True, Terminal::False])), 0)
    );
}

#[test]
fn threshold_verify() {
    let script = vec![
        Token::Num(0),
        Token::Num(1),
        Token::Add,
        Token::Num(144),
        Token::CheckSequenceVerify,
        Token::Add,
        Token::Num(2),
        Token::Equal,
        Token::Verify,
    ];
    assert_eq!(
        legacy(script).0,
        Ok(Terminal::Verify(bx(Terminal::Thresh(
            2,
            vec![Terminal::False, Terminal::True, Terminal::Older(144)]
        ))))
    );
}

#[test]
fn wrappers() {
    assert_eq!(
        legacy(vec![Token::ToAltStack, Token::Num(1), Token::FromAltStack]).0,
        Ok(Terminal::Alt(bx(Terminal::True)))
    );
    assert_eq!(
        legacy(vec![Token::Swap, Token::Num(1)]).0,
        Ok(Terminal::Swap(bx(Terminal::True)))
    );
    assert_eq!(
        legacy(vec![Token::Dup, Token::If, Token::Num(1), Token::EndIf]).0,
        Ok(Terminal::DupIf(bx(Terminal::True)))
    );
    assert_eq!(
        legacy(vec![Token::Size, Token::ZeroNotEqual, Token::If, Token::Num(0), Token::EndIf]).0,
        Ok(Terminal::NonZero(bx(Terminal::False)))
    );
    assert_eq!(
        legacy(vec![Token::Num(1), Token::ZeroNotEqual]).0,
        Ok(Terminal::ZeroNotEqual(bx(Terminal::True)))
    );
}

#[test]
fn alt_without_toaltstack() {
    assert_eq!(
        legacy(vec![Token::Num(1), Token::FromAltStack]).0,
        Err(DecodeError::UnexpectedStart)
    );
    assert_eq!(
        legacy(vec![Token::Dup, Token::Num(1), Token::FromAltStack]).0,
        Err(DecodeError::Unexpected(Token::Dup))
    );
}

#[test]
fn boolean_combinators() {
    assert_eq!(
        legacy(vec![Token::Num(1), Token::Num(0), Token::BoolOr]).0,
        Ok(Terminal::OrB(bx(Terminal::True), bx(Terminal::False)))
    );
    assert_eq!(
        legacy(vec![Token::Num(0), Token::Num(1), Token::BoolAnd]).0,
        Ok(Terminal::AndB(bx(Terminal::False), bx(Terminal::True)))
    );
}

#[test]
fn if_based_disjunctions() {
    assert_eq!(
        legacy(vec![Token::If, Token::Num(1), Token::Else, Token::Num(0), Token::EndIf]).0,
        Ok(Terminal::OrI(bx(Terminal::True), bx(Terminal::False)))
    );
    assert_eq!(
        legacy(vec![Token::Num(1), Token::IfDup, Token::NotIf, Token::Num(0), Token::EndIf]).0,
        Ok(Terminal::OrD(bx(Terminal::True), bx(Terminal::False)))
    );
    assert_eq!(
        legacy(vec![Token::Num(1), Token::NotIf, Token::Num(0), Token::EndIf]).0,
        Ok(Terminal::OrC(bx(Terminal::True), bx(Terminal::False)))
    );
}

#[test]
fn and_or() {
    let script = vec![
        Token::Num(1),
        Token::NotIf,
        Token::Num(0),
        Token::Else,
        Token::Num(144),
        Token::CheckSequenceVerify,
        Token::EndIf,
    ];
    assert_eq!(
        legacy(script).0,
        Ok(Terminal::AndOr(bx(Terminal::True), bx(Terminal::Older(144)), bx(Terminal::False)))
    );
}

#[test]
fn endif_without_if() {
    assert_eq!(
        legacy(vec![Token::Num(1), Token::EndIf]).0,
        Err(DecodeError::UnexpectedStart)
    );
    assert_eq!(
        legacy(vec![Token::Add, Token::Num(1), Token::EndIf]).0,
        Err(DecodeError::Unexpected(Token::Add))
    );
}

#[test]
fn tokens_before_the_fragment_are_left() {
    // The decoder stops where no `and_v` can go on: an `ELSE` before the fragment.
    let (r, left) = legacy(vec![Token::Num(7), Token::Else, Token::Num(1)]);
    assert_eq!(r, Ok(Terminal::True));
    assert_eq!(left, 2);
}

#[test]
fn return_none_finds_nothing() {
    assert_eq!(return_none::<u32>(0), None);
    assert_eq!(return_none::<FullKey>(17), None);
}

#[test]
fn token_iter_hands_tokens_out_from_the_end() {
    let mut it = iter(vec![Token::Dup, Token::Num(3), Token::Swap]);
    assert_eq!(it.len(), 3);
    assert_eq!(it.peek(), Some(&Token::Swap));
    assert_eq!(it.next(), Some(Token::Swap));
    assert_eq!(it.next(), Some(Token::Num(3)));
    it.un_next(Token::Num(3));
    assert_eq!(it.len(), 2);
    assert_eq!(it.next(), Some(Token::Num(3)));
    assert_eq!(it.next(), Some(Token::Dup));
    assert_eq!(it.next(), None);
    assert_eq!(it.peek(), None);
}

#[test]
fn and_v_continues_unless_branch_token() {
    assert!(is_and_v(&iter(vec![Token::Num(1)])));
    assert!(!is_and_v(&iter(vec![])));
    assert!(!is_and_v(&iter(vec![Token::If])));
    assert!(!is_and_v(&iter(vec![Token::NotIf])));
    assert!(!is_and_v(&iter(vec![Token::Else])));
    assert!(!is_and_v(&iter(vec![Token::ToAltStack])));
}

#[test]
fn hybrid_key_is_read_as_uncompressed() {
    // A hybrid encoding (prefix 06 for an even y) is accepted by the key parser,
    // and the key keeps its canonical uncompressed serialization.
    let mut hybrid = g_uncompressed();
    hybrid[0] = 0x06;
    let (r, _) = legacy(vec![Token::Bytes65(hybrid)]);
    match &r {
        Ok(Terminal::PkK(k)) => assert_eq!(k.as_bytes(), &g_uncompressed()[..]),
        other => panic!("unexpected result {:?}", other),
    }
    assert_eq!(r, Ok(Terminal::PkK(fk(&g_uncompressed()))));
}

#[test]
fn key_error_messages() {
    match tap(vec![Token::Bytes33(g_compressed())]).0 {
        Err(DecodeError::PubKeyCtxError(e, _)) => assert_eq!(e.to_string(), "XonlyKey Parse Error"),
        other => panic!("unexpected result {:?}", other),
    }
    match legacy(vec![Token::Bytes32(g_xonly())]).0 {
        Err(DecodeError::PubKeyCtxError(e, _)) => assert_eq!(e.to_string(), "FullKey Parse Error"),
        other => panic!("unexpected result {:?}", other),
    }
}

#[test]
fn xonly_key_off_the_curve_refused() {
    let (r, _) = tap(vec![Token::Bytes32([0xff; 32])]);
    assert!(matches!(
        r,
        Err(DecodeError::PubKeyCtxError(KeyParseError::XonlyKeyParseError(_), "TapscriptCtx"))
    ));
}

#[test]
fn canonical_key_push_is_kept_byte_for_byte() {
    let mut odd = g_compressed();
    odd[0] = 0x03;
    match legacy(vec![Token::Bytes33(odd)]).0 {
        Ok(Terminal::PkK(k)) => assert_eq!(k.as_bytes(), &odd[..]),
        other => panic!("unexpected result {:?}", other),
    }
    match tap(vec![Token::Bytes32(g_xonly())]).0 {
        Ok(Terminal::PkK(k)) => assert_eq!(k.as_bytes(), &g_xonly()[..]),
        other => panic!("unexpected result {:?}", other),
    }
}

#[test]
fn error_leaves_an_unread_tail() {
    let mut it = iter(vec![Token::Num(1), Token::Dup, Token::Add]);
    assert_eq!(parse::<Legacy>(&mut it), Err(DecodeError::Unexpected(Token::Add)));
    assert_eq!(it.len(), 2);
    assert_eq!(it.next(), Some(Token::Dup));
}
