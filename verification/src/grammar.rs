//! The grammar that the decoder follows, as recursive spec functions over the
//! token sequence. Each function reads from position `pos` and, on success,
//! returns the tree it built with the number of tokens it read.
use vstd::prelude::*;

use crate::ast::Ast;
use crate::error::ErrorKind;
use crate::keys::{ParseableKey, ScriptContext};
use crate::token::{spec_is_and_v, Token};

verus! {

/// Tokens left from `pos` on.
pub open spec fn rem(toks: Seq<Token>, pos: nat) -> nat {
    if pos < toks.len() {
        (toks.len() - pos) as nat
    } else {
        0
    }
}

/// The error for the token expected at `p`: it is missing, or it is another one.
pub open spec fn unexpected(toks: Seq<Token>, p: nat) -> ErrorKind {
    if p < toks.len() {
        ErrorKind::Unexpected(toks[p as int])
    } else {
        ErrorKind::UnexpectedStart
    }
}

/// The tail `VERIFY EQUAL 32 SIZE` of a hash lock, expected from `p` on:
/// `None` where it is there, else the error at the first token that differs.
pub open spec fn hash_tail(toks: Seq<Token>, p: nat) -> Option<ErrorKind> {
    if !(p < toks.len() && toks[p as int] is Verify) {
        Some(unexpected(toks, p))
    } else if !(p + 1 < toks.len() && toks[(p + 1) as int] is Equal) {
        Some(unexpected(toks, p + 1))
    } else if !(p + 2 < toks.len() && toks[(p + 2) as int] == Token::Num(32)) {
        Some(unexpected(toks, p + 2))
    } else if !(p + 3 < toks.len() && toks[(p + 3) as int] is Size) {
        Some(unexpected(toks, p + 3))
    } else {
        None
    }
}

/// The leaf for a key push of the bytes `b`.
pub open spec fn key_leaf<C: ScriptContext>(b: Seq<u8>) -> Result<Ast, ErrorKind> {
    match C::Key::spec_from_slice(b) {
        Some(k) => Ok(Ast::PkK(k)),
        None => Err(ErrorKind::PubKeyCtxError(C::Key::spec_error_kind(), C::spec_name())),
    }
}

/// `n` key pushes of a `CHECKMULTISIG`, from `p` on, in token order.
pub open spec fn multi_keys<C: ScriptContext>(toks: Seq<Token>, p: nat, n: nat) -> Result<Seq<Seq<u8>>, ErrorKind>
    decreases n,
{
    if n == 0 {
        Ok(Seq::empty())
    } else if p >= toks.len() {
        Err(ErrorKind::UnexpectedStart)
    } else {
        let key = match toks[p as int] {
            Token::Bytes33(b) => C::Key::spec_from_slice(b@),
            Token::Bytes65(b) => C::Key::spec_from_slice(b@),
            _ => None,
        };
        if !(toks[p as int] is Bytes33 || toks[p as int] is Bytes65) {
            Err(ErrorKind::Unexpected(toks[p as int]))
        } else if key is None {
            Err(ErrorKind::PubKeyCtxError(C::Key::spec_error_kind(), C::spec_name()))
        } else {
            match multi_keys::<C>(toks, p + 1, (n - 1) as nat) {
                Ok(rest) => Ok(seq![key->0] + rest),
                Err(e) => Err(e),
            }
        }
    }
}

/// One expression that starts at `pos`. `Ok((t, n))`: the expression `t` is
/// made of the `n + 1` tokens from `pos` on.
pub open spec fn expr<C: ScriptContext>(toks: Seq<Token>, pos: nat) -> Result<(Ast, nat), ErrorKind>
    decreases rem(toks, pos), 1nat,
{
    if pos >= toks.len() {
        Err(ErrorKind::UnexpectedStart)
    } else {
        match toks[pos as int] {
            Token::Bytes33(b) => match key_leaf::<C>(b@) {
                Ok(t) => Ok((t, 0nat)),
                Err(e) => Err(e),
            },
            Token::Bytes65(b) => match key_leaf::<C>(b@) {
                Ok(t) => Ok((t, 0nat)),
                Err(e) => Err(e),
            },
            Token::Bytes32(b) => match key_leaf::<C>(b@) {
                Ok(t) => Ok((t, 0nat)),
                Err(e) => Err(e),
            },
            Token::CheckSig => match expr::<C>(toks, pos + 1) {
                Ok((x, c)) => Ok((Ast::Check(Box::new(x)), c + 1)),
                Err(e) => Err(e),
            },
            Token::Verify => verify_expr::<C>(toks, pos),
            Token::ZeroNotEqual => match expr::<C>(toks, pos + 1) {
                Ok((x, c)) => Ok((Ast::ZeroNotEqual(Box::new(x)), c + 1)),
                Err(e) => Err(e),
            },
            Token::CheckSequenceVerify => {
                if pos + 1 < toks.len() && toks[(pos + 1) as int] is Num {
                    Ok((Ast::Older(toks[(pos + 1) as int]->Num_0), 1nat))
                } else {
                    Err(unexpected(toks, pos + 1))
                }
            },
            Token::CheckLockTimeVerify => {
                if pos + 1 < toks.len() && toks[(pos + 1) as int] is Num {
                    Ok((Ast::After(toks[(pos + 1) as int]->Num_0), 1nat))
                } else {
                    Err(unexpected(toks, pos + 1))
                }
            },
            Token::Equal => equal_expr::<C>(toks, pos),
            Token::FromAltStack => match expr::<C>(toks, pos + 1) {
                Ok((x, c1)) => {
                    let (x2, c2) = maybe_swap(toks, x, pos + 2 + c1);
                    match maybe_and_v::<C>(toks, x2, pos + 2 + c1 + c2) {
                        Ok((x3, c3)) => {
                            let p = pos + 2 + c1 + c2 + c3;
                            if p < toks.len() && toks[p as int] is ToAltStack {
                                Ok((Ast::Alt(Box::new(x3)), c1 + c2 + c3 + 2))
                            } else {
                                Err(unexpected(toks, p))
                            }
                        },
                        Err(e) => Err(e),
                    }
                },
                Err(e) => Err(e),
            },
            Token::Num(0) => Ok((Ast::False, 0nat)),
            Token::Num(1) => Ok((Ast::True, 0nat)),
            Token::EndIf => match expr::<C>(toks, pos + 1) {
                Ok((x, c1)) => {
                    let (x2, c2) = maybe_swap(toks, x, pos + 2 + c1);
                    match maybe_and_v::<C>(toks, x2, pos + 2 + c1 + c2) {
                        Ok((x3, c3)) => match endif::<C>(toks, x3, pos + 2 + c1 + c2 + c3) {
                            Ok((t, c4)) => Ok((t, c1 + c2 + c3 + c4 + 1)),
                            Err(e) => Err(e),
                        },
                        Err(e) => Err(e),
                    }
                },
                Err(e) => Err(e),
            },
            Token::BoolAnd => match expr::<C>(toks, pos + 1) {
                Ok((y, c1)) => {
                    let (y2, c2) = maybe_swap(toks, y, pos + 2 + c1);
                    match expr::<C>(toks, pos + 2 + c1 + c2) {
                        Ok((x, c3)) => Ok((Ast::AndB(Box::new(x), Box::new(y2)), c1 + c2 + c3 + 2)),
                        Err(e) => Err(e),
                    }
                },
                Err(e) => Err(e),
            },
            Token::BoolOr => match expr::<C>(toks, pos + 1) {
                Ok((y, c1)) => {
                    let (y2, c2) = maybe_swap(toks, y, pos + 2 + c1);
                    match expr::<C>(toks, pos + 2 + c1 + c2) {
                        Ok((x, c3)) => Ok((Ast::OrB(Box::new(x), Box::new(y2)), c1 + c2 + c3 + 2)),
                        Err(e) => Err(e),
                    }
                },
                Err(e) => Err(e),
            },
            Token::CheckMultiSig => {
                if !(pos + 1 < toks.len() && toks[(pos + 1) as int] is Num) {
                    Err(unexpected(toks, pos + 1))
                } else {
                    let n = toks[(pos + 1) as int]->Num_0;
                    if n > 20 {
                        Err(ErrorKind::CmsTooManyKeys(n))
                    } else {
                        match multi_keys::<C>(toks, pos + 2, n as nat) {
                            Ok(keys) => {
                                let p = pos + 2 + n;
                                if p < toks.len() && toks[p as int] is Num {
                                    Ok((Ast::Multi(toks[p as int]->Num_0 as nat, keys.reverse()), n as nat + 2))
                                } else {
                                    Err(unexpected(toks, p as nat))
                                }
                            },
                            Err(e) => Err(e),
                        }
                    }
                }
            },
            _ => Err(ErrorKind::Unexpected(toks[pos as int])),
        }
    }
}

/// An expression whose first token, at `pos`, is `VERIFY`.
pub open spec fn verify_expr<C: ScriptContext>(toks: Seq<Token>, pos: nat) -> Result<(Ast, nat), ErrorKind>
    decreases rem(toks, pos), 0nat,
{
    if pos + 1 >= toks.len() || pos >= toks.len() {
        Err(ErrorKind::UnexpectedStart)
    } else if toks[(pos + 1) as int] is Equal {
        let p2 = pos + 2;
        if p2 >= toks.len() {
            Err(ErrorKind::UnexpectedStart)
        } else {
            match toks[p2 as int] {
                Token::Hash20(h) => {
                    let p3 = pos + 3;
                    if p3 >= toks.len() {
                        Err(ErrorKind::UnexpectedStart)
                    } else if toks[p3 as int] is Hash160 {
                        let p4 = pos + 4;
                        if p4 >= toks.len() {
                            Err(ErrorKind::UnexpectedStart)
                        } else if toks[p4 as int] is Dup {
                            Ok((Ast::PkH(h@), 4nat))
                        } else if toks[p4 as int] is Verify {
                            match hash_tail(toks, p4) {
                                None => Ok((Ast::Verify(Box::new(Ast::Hash160(h@))), 7nat)),
                                Some(e) => Err(e),
                            }
                        } else {
                            Err(ErrorKind::Unexpected(toks[p4 as int]))
                        }
                    } else if toks[p3 as int] is Ripemd160 {
                        match hash_tail(toks, p3 + 1) {
                            None => Ok((Ast::Verify(Box::new(Ast::Ripemd160(h@))), 7nat)),
                            Some(e) => Err(e),
                        }
                    } else {
                        Err(ErrorKind::Unexpected(toks[p3 as int]))
                    }
                },
                Token::Bytes32(h) => {
                    let p3 = pos + 3;
                    if p3 >= toks.len() {
                        Err(ErrorKind::UnexpectedStart)
                    } else if toks[p3 as int] is Sha256 {
                        match hash_tail(toks, p3 + 1) {
                            None => Ok((Ast::Verify(Box::new(Ast::Sha256(h@))), 7nat)),
                            Some(e) => Err(e),
                        }
                    } else if toks[p3 as int] is Hash256 {
                        match hash_tail(toks, p3 + 1) {
                            None => Ok((Ast::Verify(Box::new(Ast::Hash256(h@))), 7nat)),
                            Some(e) => Err(e),
                        }
                    } else {
                        Err(ErrorKind::Unexpected(toks[p3 as int]))
                    }
                },
                Token::Num(k) => match thresh_w::<C>(toks, k as nat, Seq::empty(), pos + 3) {
                    Ok((t, c)) => Ok((Ast::Verify(Box::new(t)), c + 2)),
                    Err(e) => Err(e),
                },
                _ => Err(ErrorKind::Unexpected(toks[p2 as int])),
            }
        }
    } else {
        match expr::<C>(toks, pos + 1) {
            Ok((x, c)) => Ok((Ast::Verify(Box::new(x)), c + 1)),
            Err(e) => Err(e),
        }
    }
}

/// An expression whose first token, at `pos`, is `EQUAL`: a hash lock or a threshold.
pub open spec fn equal_expr<C: ScriptContext>(toks: Seq<Token>, pos: nat) -> Result<(Ast, nat), ErrorKind>
    decreases rem(toks, pos), 0nat,
{
    let p1 = pos + 1;
    let p2 = pos + 2;
    if p1 >= toks.len() || pos >= toks.len() {
        Err(ErrorKind::UnexpectedStart)
    } else {
        match toks[p1 as int] {
            Token::Bytes32(h) => {
                if p2 >= toks.len() {
                    Err(ErrorKind::UnexpectedStart)
                } else if toks[p2 as int] is Sha256 {
                    match hash_tail(toks, p2 + 1) {
                        None => Ok((Ast::Sha256(h@), 6nat)),
                        Some(e) => Err(e),
                    }
                } else if toks[p2 as int] is Hash256 {
                    match hash_tail(toks, p2 + 1) {
                        None => Ok((Ast::Hash256(h@), 6nat)),
                        Some(e) => Err(e),
                    }
                } else {
                    Err(ErrorKind::Unexpected(toks[p2 as int]))
                }
            },
            Token::Hash20(h) => {
                if p2 >= toks.len() {
                    Err(ErrorKind::UnexpectedStart)
                } else if toks[p2 as int] is Ripemd160 {
                    match hash_tail(toks, p2 + 1) {
                        None => Ok((Ast::Ripemd160(h@), 6nat)),
                        Some(e) => Err(e),
                    }
                } else if toks[p2 as int] is Hash160 {
                    match hash_tail(toks, p2 + 1) {
                        None => Ok((Ast::Hash160(h@), 6nat)),
                        Some(e) => Err(e),
                    }
                } else {
                    Err(ErrorKind::Unexpected(toks[p2 as int]))
                }
            },
            Token::Num(k) => match thresh_w::<C>(toks, k as nat, Seq::empty(), p2) {
                Ok((t, c)) => Ok((t, c + 1)),
                Err(e) => Err(e),
            },
            _ => Err(ErrorKind::Unexpected(toks[p1 as int])),
        }
    }
}

/// `SWAP` wrappers after an expression `x` that ends before `pos`: reads every
/// `SWAP` from `pos` on and wraps `x` once per `SWAP`.
pub open spec fn maybe_swap(toks: Seq<Token>, x: Ast, pos: nat) -> (Ast, nat)
    decreases rem(toks, pos),
{
    if pos < toks.len() && toks[pos as int] is Swap {
        let (y, c) = maybe_swap(toks, Ast::Swap(Box::new(x)), pos + 1);
        (y, c + 1)
    } else {
        (x, 0nat)
    }
}

/// An optional `and_v` that takes `x` (ending before `pos`) as its right part.
pub open spec fn maybe_and_v<C: ScriptContext>(toks: Seq<Token>, x: Ast, pos: nat) -> Result<(Ast, nat), ErrorKind>
    decreases rem(toks, pos), 2nat,
{
    if spec_is_and_v(toks, pos as int) {
        match expr::<C>(toks, pos) {
            Ok((w, c1)) => match and_v::<C>(toks, x, w, pos + 1 + c1) {
                Ok((y, c2)) => Ok((y, c1 + 1 + c2)),
                Err(e) => Err(e),
            },
            Err(e) => Err(e),
        }
    } else {
        Ok((x, 0nat))
    }
}

/// An `and_v` of `newer` (just read) and `older` (read before it), which
/// goes on to the left while more of the script follows.
pub open spec fn and_v<C: ScriptContext>(toks: Seq<Token>, older: Ast, newer: Ast, pos: nat) -> Result<(Ast, nat), ErrorKind>
    decreases rem(toks, pos), 2nat,
{
    if spec_is_and_v(toks, pos as int) {
        match expr::<C>(toks, pos) {
            Ok((w, c1)) => match and_v::<C>(toks, newer, w, pos + 1 + c1) {
                Ok((z, c2)) => Ok((Ast::AndV(Box::new(z), Box::new(older)), c1 + 1 + c2)),
                Err(e) => Err(e),
            },
            Err(e) => Err(e),
        }
    } else {
        Ok((Ast::AndV(Box::new(newer), Box::new(older)), 0nat))
    }
}

/// The body of a threshold after its `k EQUAL`: `subs` are the parts read so far,
/// from the script's last one on.
pub open spec fn thresh_w<C: ScriptContext>(toks: Seq<Token>, k: nat, subs: Seq<Ast>, pos: nat) -> Result<(Ast, nat), ErrorKind>
    decreases rem(toks, pos), 2nat,
{
    if pos >= toks.len() {
        Err(ErrorKind::UnexpectedStart)
    } else if toks[pos as int] is Add {
        match expr::<C>(toks, pos + 1) {
            Ok((x, c1)) => {
                let (x2, c2) = maybe_swap(toks, x, pos + 2 + c1);
                match thresh_w::<C>(toks, k, subs.push(x2), pos + 2 + c1 + c2) {
                    Ok((t, c3)) => Ok((t, c1 + c2 + c3 + 2)),
                    Err(e) => Err(e),
                }
            },
            Err(e) => Err(e),
        }
    } else {
        match expr::<C>(toks, pos) {
            Ok((x, c1)) => {
                let (x2, c2) = maybe_swap(toks, x, pos + 1 + c1);
                Ok((Ast::Thresh(k, subs.push(x2).reverse()), c1 + c2 + 1))
            },
            Err(e) => Err(e),
        }
    }
}

/// What follows the branch `x` that an `ENDIF` closes, from `pos` on.
pub open spec fn endif<C: ScriptContext>(toks: Seq<Token>, x: Ast, pos: nat) -> Result<(Ast, nat), ErrorKind>
    decreases rem(toks, pos), 2nat,
{
    if pos >= toks.len() {
        Err(ErrorKind::UnexpectedStart)
    } else {
        match toks[pos as int] {
            Token::Else => match expr::<C>(toks, pos + 1) {
                Ok((z, c1)) => {
                    let (z2, c2) = maybe_swap(toks, z, pos + 2 + c1);
                    match maybe_and_v::<C>(toks, z2, pos + 2 + c1 + c2) {
                        Ok((z3, c3)) => match endif_else::<C>(toks, x, z3, pos + 2 + c1 + c2 + c3) {
                            Ok((t, c4)) => Ok((t, c1 + c2 + c3 + c4 + 2)),
                            Err(e) => Err(e),
                        },
                        Err(e) => Err(e),
                    }
                },
                Err(e) => Err(e),
            },
            Token::If => {
                if pos + 1 >= toks.len() {
                    Err(ErrorKind::UnexpectedStart)
                } else if toks[(pos + 1) as int] is Dup {
                    Ok((Ast::DupIf(Box::new(x)), 2nat))
                } else if toks[(pos + 1) as int] is ZeroNotEqual {
                    if pos + 2 < toks.len() && toks[(pos + 2) as int] is Size {
                        Ok((Ast::NonZero(Box::new(x)), 3nat))
                    } else {
                        Err(unexpected(toks, pos + 2))
                    }
                } else {
                    Err(ErrorKind::Unexpected(toks[(pos + 1) as int]))
                }
            },
            Token::NotIf => match endif_notif::<C>(toks, x, pos + 1) {
                Ok((t, c)) => Ok((t, c + 1)),
                Err(e) => Err(e),
            },
            _ => Err(ErrorKind::Unexpected(toks[pos as int])),
        }
    }
}

/// After `ENDIF [x] NOTIF`: an `or_d` (with `IFDUP`) or an `or_c`.
pub open spec fn endif_notif<C: ScriptContext>(toks: Seq<Token>, x: Ast, pos: nat) -> Result<(Ast, nat), ErrorKind>
    decreases rem(toks, pos), 2nat,
{
    if pos >= toks.len() {
        Err(ErrorKind::UnexpectedStart)
    } else if toks[pos as int] is IfDup {
        match expr::<C>(toks, pos + 1) {
            Ok((w, c)) => Ok((Ast::OrD(Box::new(w), Box::new(x)), c + 2)),
            Err(e) => Err(e),
        }
    } else {
        match expr::<C>(toks, pos) {
            Ok((w, c)) => Ok((Ast::OrC(Box::new(w), Box::new(x)), c + 1)),
            Err(e) => Err(e),
        }
    }
}

/// After `ENDIF [x] ELSE [z]`: an `or_i` (with `IF`) or an `andor` (with `NOTIF`).
pub open spec fn endif_else<C: ScriptContext>(toks: Seq<Token>, x: Ast, z: Ast, pos: nat) -> Result<(Ast, nat), ErrorKind>
    decreases rem(toks, pos), 2nat,
{
    if pos >= toks.len() {
        Err(ErrorKind::UnexpectedStart)
    } else if toks[pos as int] is If {
        Ok((Ast::OrI(Box::new(z), Box::new(x)), 1nat))
    } else if toks[pos as int] is NotIf {
        match expr::<C>(toks, pos + 1) {
            Ok((w, c)) => Ok((Ast::AndOr(Box::new(w), Box::new(x), Box::new(z)), c + 2)),
            Err(e) => Err(e),
        }
    } else {
        Err(ErrorKind::Unexpected(toks[pos as int]))
    }
}

/// The tree that the decoder builds from `toks`, with the number of tokens it
/// reads, or the error it stops with: one expression from the start, its
/// `SWAP` wrappers, and an optional `and_v`. Tokens after that are left unread.
pub open spec fn spec_parse<C: ScriptContext>(toks: Seq<Token>) -> Result<(Ast, nat), ErrorKind> {
    match expr::<C>(toks, 0) {
        Ok((x, c1)) => {
            let (x2, c2) = maybe_swap(toks, x, 1 + c1);
            match maybe_and_v::<C>(toks, x2, 1 + c1 + c2) {
                Ok((x3, c3)) => Ok((x3, 1 + c1 + c2 + c3)),
                Err(e) => Err(e),
            }
        },
        Err(e) => Err(e),
    }
}

/// An `and_v` chain stops where the script has no more `and_v` to the left.
pub proof fn lemma_and_v_ends<C: ScriptContext>(toks: Seq<Token>, older: Ast, newer: Ast, pos: nat)
    ensures
        and_v::<C>(toks, older, newer, pos) matches Ok((z, c)) ==> !spec_is_and_v(toks, (pos + c) as int),
    decreases rem(toks, pos),
{
    if spec_is_and_v(toks, pos as int) {
        if let Ok((w, c1)) = expr::<C>(toks, pos) {
            lemma_and_v_ends::<C>(toks, newer, w, pos + 1 + c1);
        }
    }
}

} // verus!
