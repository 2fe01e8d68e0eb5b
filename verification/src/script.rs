//! The script of a Miniscript tree, as the lexer hands its tokens out: from
//! the last opcode to the first one. A key push stands for the key that the
//! context's key type reads from its bytes.
use vstd::prelude::*;

use crate::ast::Ast;
use crate::keys::{ParseableKey, ScriptContext};
use crate::token::Token;

verus! {

/// `tok` pushes bytes from which the context reads the key `k`.
pub open spec fn key_push<C: ScriptContext>(tok: Token, k: Seq<u8>) -> bool {
    match tok {
        Token::Bytes32(b) => C::Key::spec_from_slice(b@) == Some(k),
        Token::Bytes33(b) => C::Key::spec_from_slice(b@) == Some(k),
        Token::Bytes65(b) => C::Key::spec_from_slice(b@) == Some(k),
        _ => false,
    }
}

/// The bytes that a key push pushes.
pub open spec fn push_bytes(tok: Token) -> Seq<u8> {
    match tok {
        Token::Bytes32(b) => b@,
        Token::Bytes33(b) => b@,
        Token::Bytes65(b) => b@,
        _ => Seq::empty(),
    }
}

/// `tok` is a key push of a `CHECKMULTISIG` (33 or 65 bytes) for the key `k`.
pub open spec fn multi_key_push<C: ScriptContext>(tok: Token, k: Seq<u8>) -> bool {
    match tok {
        Token::Bytes33(b) => C::Key::spec_from_slice(b@) == Some(k),
        Token::Bytes65(b) => C::Key::spec_from_slice(b@) == Some(k),
        _ => false,
    }
}

/// The tokens `ts` push the keys `ks`, one each, in the same order.
pub open spec fn key_tokens_hold<C: ScriptContext>(ts: Seq<Token>, ks: Seq<Seq<u8>>) -> bool {
    &&& ts.len() == ks.len()
    &&& forall|i: int| 0 <= i < ts.len() ==> #[trigger] multi_key_push::<C>(ts[i], ks[i])
}

/// The number of tokens in the script of `t`.
pub open spec fn script_len(t: Ast) -> nat
    decreases t,
{
    match t {
        Ast::True => 1,
        Ast::False => 1,
        Ast::PkK(_) => 1,
        Ast::PkH(_) => 5,
        Ast::After(_) => 2,
        Ast::Older(_) => 2,
        Ast::Sha256(_) => 7,
        Ast::Hash256(_) => 7,
        Ast::Ripemd160(_) => 7,
        Ast::Hash160(_) => 7,
        Ast::Alt(x) => script_len(*x) + 2,
        Ast::Swap(x) => script_len(*x) + 1,
        Ast::Check(x) => script_len(*x) + 1,
        Ast::DupIf(x) => script_len(*x) + 3,
        Ast::Verify(x) => script_len(*x) + 1,
        Ast::NonZero(x) => script_len(*x) + 4,
        Ast::ZeroNotEqual(x) => script_len(*x) + 1,
        Ast::AndV(x, y) => script_len(*x) + script_len(*y),
        Ast::AndB(x, y) => script_len(*x) + script_len(*y) + 1,
        Ast::AndOr(x, y, z) => script_len(*x) + script_len(*y) + script_len(*z) + 3,
        Ast::OrB(x, z) => script_len(*x) + script_len(*z) + 1,
        Ast::OrD(x, z) => script_len(*x) + script_len(*z) + 3,
        Ast::OrC(x, z) => script_len(*x) + script_len(*z) + 2,
        Ast::OrI(x, z) => script_len(*x) + script_len(*z) + 3,
        Ast::Thresh(_, subs) => parts_len(subs) + 2,
        Ast::Multi(_, keys) => keys.len() + 3,
    }
}

/// The number of tokens of the parts of a threshold: every part but the
/// first has an `ADD` after it.
pub open spec fn parts_len(subs: Seq<Ast>) -> nat
    decreases subs,
{
    if subs.len() == 0 {
        0
    } else {
        script_len(subs[0]) + adds_len(subs.subrange(1, subs.len() as int))
    }
}

/// The number of tokens of parts that each have an `ADD` after them.
pub open spec fn adds_len(s: Seq<Ast>) -> nat
    decreases s,
{
    if s.len() == 0 {
        0
    } else {
        script_len(s[0]) + 1 + adds_len(s.subrange(1, s.len() as int))
    }
}

/// The tokens of `toks` from `a` up to `e` (not included) are the script of
/// `t`, in the order in which they are handed out.
pub open spec fn enc_at<C: ScriptContext>(t: Ast, toks: Seq<Token>, a: int, e: int) -> bool
    decreases t,
{
    &&& 0 <= a <= e <= toks.len()
    &&& e - a == script_len(t)
    &&& match t {
        Ast::True => toks[a] == Token::Num(1),
        Ast::False => toks[a] == Token::Num(0),
        Ast::PkK(k) => key_push::<C>(toks[a], k),
        // DUP HASH160 <h> EQUALVERIFY
        Ast::PkH(h) => {
            &&& toks[a] is Verify
            &&& toks[a + 1] is Equal
            &&& toks[a + 2] matches Token::Hash20(b) && b@ == h
            &&& toks[a + 3] is Hash160
            &&& toks[a + 4] is Dup
        },
        // n CHECKLOCKTIMEVERIFY
        Ast::After(n) => toks[a] is CheckLockTimeVerify && toks[a + 1] == Token::Num(n),
        // n CHECKSEQUENCEVERIFY
        Ast::Older(n) => toks[a] is CheckSequenceVerify && toks[a + 1] == Token::Num(n),
        // SIZE 32 EQUALVERIFY SHA256 <h> EQUAL
        Ast::Sha256(h) => {
            &&& toks[a] is Equal
            &&& toks[a + 1] matches Token::Bytes32(b) && b@ == h
            &&& toks[a + 2] is Sha256
            &&& size_check(toks, a + 3)
        },
        Ast::Hash256(h) => {
            &&& toks[a] is Equal
            &&& toks[a + 1] matches Token::Bytes32(b) && b@ == h
            &&& toks[a + 2] is Hash256
            &&& size_check(toks, a + 3)
        },
        Ast::Ripemd160(h) => {
            &&& toks[a] is Equal
            &&& toks[a + 1] matches Token::Hash20(b) && b@ == h
            &&& toks[a + 2] is Ripemd160
            &&& size_check(toks, a + 3)
        },
        Ast::Hash160(h) => {
            &&& toks[a] is Equal
            &&& toks[a + 1] matches Token::Hash20(b) && b@ == h
            &&& toks[a + 2] is Hash160
            &&& size_check(toks, a + 3)
        },
        // TOALTSTACK [x] FROMALTSTACK
        Ast::Alt(x) => toks[a] is FromAltStack && enc_at::<C>(*x, toks, a + 1, e - 1) && toks[e - 1] is ToAltStack,
        // SWAP [x]
        Ast::Swap(x) => enc_at::<C>(*x, toks, a, e - 1) && toks[e - 1] is Swap,
        // [x] CHECKSIG
        Ast::Check(x) => toks[a] is CheckSig && enc_at::<C>(*x, toks, a + 1, e),
        // DUP IF [x] ENDIF
        Ast::DupIf(x) => {
            &&& toks[a] is EndIf
            &&& enc_at::<C>(*x, toks, a + 1, e - 2)
            &&& toks[e - 2] is If
            &&& toks[e - 1] is Dup
        },
        // [x] VERIFY
        Ast::Verify(x) => toks[a] is Verify && enc_at::<C>(*x, toks, a + 1, e),
        // SIZE 0NOTEQUAL IF [x] ENDIF
        Ast::NonZero(x) => {
            &&& toks[a] is EndIf
            &&& enc_at::<C>(*x, toks, a + 1, e - 3)
            &&& toks[e - 3] is If
            &&& toks[e - 2] is ZeroNotEqual
            &&& toks[e - 1] is Size
        },
        // [x] 0NOTEQUAL
        Ast::ZeroNotEqual(x) => toks[a] is ZeroNotEqual && enc_at::<C>(*x, toks, a + 1, e),
        // [x] [y]
        Ast::AndV(x, y) => {
            let m = a + script_len(*y);
            enc_at::<C>(*y, toks, a, m) && enc_at::<C>(*x, toks, m, e)
        },
        // [x] [y] BOOLAND
        Ast::AndB(x, y) => {
            let m = a + 1 + script_len(*y);
            toks[a] is BoolAnd && enc_at::<C>(*y, toks, a + 1, m) && enc_at::<C>(*x, toks, m, e)
        },
        // [x] NOTIF [z] ELSE [y] ENDIF
        Ast::AndOr(x, y, z) => {
            let m1 = a + 1 + script_len(*y);
            let m2 = m1 + 1 + script_len(*z);
            &&& toks[a] is EndIf
            &&& enc_at::<C>(*y, toks, a + 1, m1)
            &&& toks[m1] is Else
            &&& enc_at::<C>(*z, toks, m1 + 1, m2)
            &&& toks[m2] is NotIf
            &&& enc_at::<C>(*x, toks, m2 + 1, e)
        },
        // [x] [z] BOOLOR
        Ast::OrB(x, z) => {
            let m = a + 1 + script_len(*z);
            toks[a] is BoolOr && enc_at::<C>(*z, toks, a + 1, m) && enc_at::<C>(*x, toks, m, e)
        },
        // [x] IFDUP NOTIF [z] ENDIF
        Ast::OrD(x, z) => {
            let m = a + 1 + script_len(*z);
            &&& toks[a] is EndIf
            &&& enc_at::<C>(*z, toks, a + 1, m)
            &&& toks[m] is NotIf
            &&& toks[m + 1] is IfDup
            &&& enc_at::<C>(*x, toks, m + 2, e)
        },
        // [x] NOTIF [z] ENDIF
        Ast::OrC(x, z) => {
            let m = a + 1 + script_len(*z);
            &&& toks[a] is EndIf
            &&& enc_at::<C>(*z, toks, a + 1, m)
            &&& toks[m] is NotIf
            &&& enc_at::<C>(*x, toks, m + 1, e)
        },
        // IF [x] ELSE [z] ENDIF
        Ast::OrI(x, z) => {
            let m = a + 1 + script_len(*z);
            &&& toks[a] is EndIf
            &&& enc_at::<C>(*z, toks, a + 1, m)
            &&& toks[m] is Else
            &&& enc_at::<C>(*x, toks, m + 1, e - 1)
            &&& toks[e - 1] is If
        },
        // [s0] [s1] ADD ... [sn] ADD k EQUAL
        Ast::Thresh(k, subs) => {
            &&& subs.len() >= 1
            &&& toks[a] is Equal
            &&& toks[a + 1] matches Token::Num(m) && m as nat == k
            &&& parts_at::<C>(subs, toks, a + 2, e)
        },
        // k <key1> ... <keyn> n CHECKMULTISIG
        Ast::Multi(k, keys) => {
            &&& toks[a] is CheckMultiSig
            &&& toks[a + 1] matches Token::Num(n) && n as nat == keys.len()
            &&& key_tokens_hold::<C>(toks.subrange(a + 2, e - 1), keys.reverse())
            &&& toks[e - 1] matches Token::Num(m) && m as nat == k
        },
    }
}

/// `SIZE 32 EQUALVERIFY`, handed out from `a` on.
pub open spec fn size_check(toks: Seq<Token>, a: int) -> bool {
    &&& toks[a] is Verify
    &&& toks[a + 1] is Equal
    &&& toks[a + 2] == Token::Num(32)
    &&& toks[a + 3] is Size
}

/// The parts of a threshold, from `a` up to `e`: the first part comes last,
/// and each of the others is handed out after its `ADD`.
pub open spec fn parts_at<C: ScriptContext>(subs: Seq<Ast>, toks: Seq<Token>, a: int, e: int) -> bool
    decreases subs,
{
    &&& subs.len() >= 1
    &&& 0 <= a <= e <= toks.len()
    &&& e - a == parts_len(subs)
    &&& enc_at::<C>(subs[0], toks, e - script_len(subs[0]), e)
    &&& adds_at::<C>(subs.subrange(1, subs.len() as int), toks, a, e - script_len(subs[0]))
}

/// Parts that each come after an `ADD`, from `a` up to `e`: the first of
/// `s` comes last.
pub open spec fn adds_at<C: ScriptContext>(s: Seq<Ast>, toks: Seq<Token>, a: int, e: int) -> bool
    decreases s,
{
    &&& 0 <= a <= e <= toks.len()
    &&& e - a == adds_len(s)
    &&& (s.len() > 0 ==> {
        let b = e - script_len(s[0]);
        &&& toks[b - 1] is Add
        &&& enc_at::<C>(s[0], toks, b, e)
        &&& adds_at::<C>(s.subrange(1, s.len() as int), toks, a, b - 1)
    })
}

} // verus!
