//! The decoder reads nothing but the script of the tree it returns.
use vstd::prelude::*;

use crate::ast::Ast;
use crate::grammar::{
    and_v, lemma_and_v_ends, endif, endif_else, endif_notif, equal_expr, expr, maybe_and_v, maybe_swap, multi_keys,
    rem, spec_parse, thresh_w, verify_expr,
};
use crate::keys::{ParseableKey, ScriptContext};
use crate::script::{adds_at, enc_at, key_push, key_tokens_hold, multi_key_push, parts_at, push_bytes};
use crate::token::{spec_is_and_v, Token};

verus! {

/// Whatever the decoder returns, the tokens it read are the script of that
/// tree: the first `n` tokens handed out, and nothing else, encode it.
pub proof fn parse_reads_its_script<C: ScriptContext>(toks: Seq<Token>)
    ensures
        spec_parse::<C>(toks) matches Ok((t, n)) ==> n <= toks.len() && enc_at::<C>(t, toks, 0, n as int),
{
    lemma_expr_sound::<C>(toks, 0);
    if let Ok((x, c1)) = expr::<C>(toks, 0) {
        lemma_maybe_swap_sound::<C>(toks, x, 0, 1 + c1);
        let (x2, c2) = maybe_swap(toks, x, 1 + c1);
        lemma_maybe_and_v_sound::<C>(toks, x2, 0, 1 + c1 + c2);
    }
}

/// A key push whose bytes are already in canonical form (for ECDSA keys: 33
/// bytes with prefix 02/03 or 65 bytes with prefix 04; for x-only keys: any
/// accepted push) holds exactly the key read from it, so that writing the key
/// back gives the same push, byte for byte.
pub proof fn canonical_key_push_is_its_key<C: ScriptContext>(tok: Token, k: Seq<u8>)
    requires
        key_push::<C>(tok, k) || multi_key_push::<C>(tok, k),
        C::Key::spec_keeps_bytes(push_bytes(tok)),
    ensures
        k == push_bytes(tok),
{
    C::Key::lemma_keeps_bytes(push_bytes(tok));
}

/// The decoder reads as far as the fragment goes: where it stops, the
/// script has ended or the next token is `IF`, `NOTIF`, `ELSE` or `TOALTSTACK`.
pub proof fn parse_stops_where_no_and_v_goes_on<C: ScriptContext>(toks: Seq<Token>)
    ensures
        spec_parse::<C>(toks) matches Ok((t, n)) ==> n == toks.len() || toks[n as int] is If
            || toks[n as int] is NotIf || toks[n as int] is Else || toks[n as int] is ToAltStack,
{
    parse_reads_its_script::<C>(toks);
    if let Ok((x, c1)) = expr::<C>(toks, 0) {
        let (x2, c2) = maybe_swap(toks, x, 1 + c1);
        let q = 1 + c1 + c2;
        if spec_is_and_v(toks, q as int) {
            if let Ok((w, c)) = expr::<C>(toks, q) {
                lemma_and_v_ends::<C>(toks, x2, w, q + 1 + c);
            }
        }
    }
}

/// The `SWAP`s read after `x` wrap it, and their tokens join its script.
proof fn lemma_maybe_swap_sound<C: ScriptContext>(toks: Seq<Token>, x: Ast, a: int, pos: nat)
    requires
        enc_at::<C>(x, toks, a, pos as int),
    ensures
        ({
            let (y, c) = maybe_swap(toks, x, pos);
            enc_at::<C>(y, toks, a, (pos + c) as int)
        }),
    decreases rem(toks, pos),
{
    if pos < toks.len() && toks[pos as int] is Swap {
        lemma_maybe_swap_sound::<C>(toks, Ast::Swap(Box::new(x)), a, pos + 1);
    }
}

/// The keys of a `CHECKMULTISIG` are pushed by the tokens they were read from.
proof fn lemma_multi_keys_sound<C: ScriptContext>(toks: Seq<Token>, p: nat, n: nat)
    requires
        p <= toks.len(),
    ensures
        multi_keys::<C>(toks, p, n) matches Ok(ks) ==> p + n <= toks.len()
            && key_tokens_hold::<C>(toks.subrange(p as int, (p + n) as int), ks),
    decreases n,
{
    if n > 0 && p < toks.len() {
        lemma_multi_keys_sound::<C>(toks, p + 1, (n - 1) as nat);
        if let Ok(ks) = multi_keys::<C>(toks, p, n) {
            let rest = multi_keys::<C>(toks, p + 1, (n - 1) as nat)->Ok_0;
            let ts = toks.subrange(p as int, (p + n) as int);
            assert forall|i: int| 0 <= i < ts.len() implies #[trigger] multi_key_push::<C>(ts[i], ks[i]) by {
                if i > 0 {
                    assert(ts[i] == toks.subrange(p + 1int, (p + n) as int)[i - 1]);
                    assert(ks[i] == rest[i - 1]);
                }
            }
        }
    }
}

/// A `CHECKMULTISIG` is read back as its multisig.
proof fn lemma_multi_sound<C: ScriptContext>(toks: Seq<Token>, pos: nat)
    requires
        pos < toks.len(),
        toks[pos as int] is CheckMultiSig,
    ensures
        expr::<C>(toks, pos) matches Ok((t, c)) ==> enc_at::<C>(t, toks, pos as int, (pos + c + 1) as int),
{
    if pos + 1 < toks.len() && toks[pos + 1int] is Num {
        let n = toks[pos + 1int]->Num_0;
        if n <= 20 {
            lemma_multi_keys_sound::<C>(toks, pos + 2, n as nat);
            if let Ok(ks) = multi_keys::<C>(toks, pos + 2, n as nat) {
                assert(ks.reverse().reverse() =~= ks);
            }
        }
    }
}

/// One expression is read back as the tree whose script its tokens are.
proof fn lemma_expr_sound<C: ScriptContext>(toks: Seq<Token>, pos: nat)
    ensures
        expr::<C>(toks, pos) matches Ok((t, c)) ==> enc_at::<C>(t, toks, pos as int, (pos + c + 1) as int),
    decreases rem(toks, pos), 1nat,
{
    if pos < toks.len() {
        match toks[pos as int] {
            Token::CheckSig => lemma_expr_sound::<C>(toks, pos + 1),
            Token::ZeroNotEqual => lemma_expr_sound::<C>(toks, pos + 1),
            Token::Verify => lemma_verify_sound::<C>(toks, pos),
            Token::Equal => lemma_equal_sound::<C>(toks, pos),
            Token::FromAltStack => lemma_alt_sound::<C>(toks, pos),
            Token::EndIf => lemma_endif_expr_sound::<C>(toks, pos),
            Token::BoolAnd => lemma_bool_sound::<C>(toks, pos),
            Token::BoolOr => lemma_bool_sound::<C>(toks, pos),
            Token::CheckMultiSig => lemma_multi_sound::<C>(toks, pos),
            _ => {},
        }
    }
}

/// An expression that starts with `VERIFY`.
proof fn lemma_verify_sound<C: ScriptContext>(toks: Seq<Token>, pos: nat)
    requires
        pos < toks.len(),
        toks[pos as int] is Verify,
    ensures
        expr::<C>(toks, pos) matches Ok((t, c)) ==> enc_at::<C>(t, toks, pos as int, (pos + c + 1) as int),
    decreases rem(toks, pos), 0nat,
{
    assert(expr::<C>(toks, pos) == verify_expr::<C>(toks, pos));
    if pos + 1 < toks.len() {
        if toks[pos + 1int] is Equal {
            if pos + 2 < toks.len() {
                match toks[pos + 2int] {
                    Token::Num(k) => {
                        assert(Seq::<Ast>::empty().reverse() =~= Seq::<Ast>::empty());
                        lemma_thresh_w_sound::<C>(toks, k as nat, Seq::empty(), pos + 1int, pos + 3);
                    },
                    Token::Hash20(h) => {
                        let a = pos + 1int;
                        assert(enc_at::<C>(Ast::Hash160(h@), toks, a, a + 7) ==> enc_at::<C>(
                            Ast::Verify(Box::new(Ast::Hash160(h@))), toks, a - 1, a + 7));
                        assert(enc_at::<C>(Ast::Ripemd160(h@), toks, a, a + 7) ==> enc_at::<C>(
                            Ast::Verify(Box::new(Ast::Ripemd160(h@))), toks, a - 1, a + 7));
                    },
                    Token::Bytes32(h) => {
                        let a = pos + 1int;
                        assert(enc_at::<C>(Ast::Sha256(h@), toks, a, a + 7) ==> enc_at::<C>(
                            Ast::Verify(Box::new(Ast::Sha256(h@))), toks, a - 1, a + 7));
                        assert(enc_at::<C>(Ast::Hash256(h@), toks, a, a + 7) ==> enc_at::<C>(
                            Ast::Verify(Box::new(Ast::Hash256(h@))), toks, a - 1, a + 7));
                    },
                    _ => {},
                }
            }
        } else {
            lemma_expr_sound::<C>(toks, pos + 1);
        }
    }
}

/// An expression that starts with `EQUAL`: a hash lock or a threshold.
proof fn lemma_equal_sound<C: ScriptContext>(toks: Seq<Token>, pos: nat)
    requires
        pos < toks.len(),
        toks[pos as int] is Equal,
    ensures
        expr::<C>(toks, pos) matches Ok((t, c)) ==> enc_at::<C>(t, toks, pos as int, (pos + c + 1) as int),
    decreases rem(toks, pos), 0nat,
{
    assert(expr::<C>(toks, pos) == equal_expr::<C>(toks, pos));
    if pos + 1 < toks.len() {
        match toks[pos + 1int] {
            Token::Num(k) => {
                assert(Seq::<Ast>::empty().reverse() =~= Seq::<Ast>::empty());
                lemma_thresh_w_sound::<C>(toks, k as nat, Seq::empty(), pos as int, pos + 2);
            },
            _ => {},
        }
    }
}

/// `TOALTSTACK [x] FROMALTSTACK`.
proof fn lemma_alt_sound<C: ScriptContext>(toks: Seq<Token>, pos: nat)
    requires
        pos < toks.len(),
        toks[pos as int] is FromAltStack,
    ensures
        expr::<C>(toks, pos) matches Ok((t, c)) ==> enc_at::<C>(t, toks, pos as int, (pos + c + 1) as int),
    decreases rem(toks, pos), 0nat,
{
    lemma_expr_sound::<C>(toks, pos + 1);
    if let Ok((x, c1)) = expr::<C>(toks, pos + 1) {
        let q1 = pos + 2 + c1;
        lemma_maybe_swap_sound::<C>(toks, x, pos + 1int, q1);
        let (x2, c2) = maybe_swap(toks, x, q1);
        lemma_maybe_and_v_sound::<C>(toks, x2, pos + 1int, q1 + c2);
    }
}

/// An expression that starts with `ENDIF`.
proof fn lemma_endif_expr_sound<C: ScriptContext>(toks: Seq<Token>, pos: nat)
    requires
        pos < toks.len(),
        toks[pos as int] is EndIf,
    ensures
        expr::<C>(toks, pos) matches Ok((t, c)) ==> enc_at::<C>(t, toks, pos as int, (pos + c + 1) as int),
    decreases rem(toks, pos), 0nat,
{
    lemma_expr_sound::<C>(toks, pos + 1);
    if let Ok((x, c1)) = expr::<C>(toks, pos + 1) {
        let q1 = pos + 2 + c1;
        lemma_maybe_swap_sound::<C>(toks, x, pos + 1int, q1);
        let (x2, c2) = maybe_swap(toks, x, q1);
        let q2 = q1 + c2;
        lemma_maybe_and_v_sound::<C>(toks, x2, pos + 1int, q2);
        if let Ok((x3, c3)) = maybe_and_v::<C>(toks, x2, q2) {
            lemma_endif_sound::<C>(toks, x3, pos as int, q2 + c3);
        }
    }
}

/// `[x] [y] BOOLAND` and `[x] [y] BOOLOR`.
proof fn lemma_bool_sound<C: ScriptContext>(toks: Seq<Token>, pos: nat)
    requires
        pos < toks.len(),
        toks[pos as int] is BoolAnd || toks[pos as int] is BoolOr,
    ensures
        expr::<C>(toks, pos) matches Ok((t, c)) ==> enc_at::<C>(t, toks, pos as int, (pos + c + 1) as int),
    decreases rem(toks, pos), 0nat,
{
    lemma_expr_sound::<C>(toks, pos + 1);
    if let Ok((y, c1)) = expr::<C>(toks, pos + 1) {
        let q1 = pos + 2 + c1;
        lemma_maybe_swap_sound::<C>(toks, y, pos + 1int, q1);
        let (y2, c2) = maybe_swap(toks, y, q1);
        lemma_expr_sound::<C>(toks, q1 + c2);
    }
}

/// An optional `and_v` whose right part is `x`.
proof fn lemma_maybe_and_v_sound<C: ScriptContext>(toks: Seq<Token>, x: Ast, a: int, pos: nat)
    requires
        enc_at::<C>(x, toks, a, pos as int),
    ensures
        maybe_and_v::<C>(toks, x, pos) matches Ok((y, c)) ==> enc_at::<C>(y, toks, a, (pos + c) as int),
    decreases rem(toks, pos), 2nat,
{
    if spec_is_and_v(toks, pos as int) {
        lemma_expr_sound::<C>(toks, pos);
        if let Ok((w, c1)) = expr::<C>(toks, pos) {
            lemma_and_v_sound::<C>(toks, x, w, a, pos as int, pos + 1 + c1);
        }
    }
}

/// An `and_v` chain over `older` (from `a`) and `newer` (from `m`).
proof fn lemma_and_v_sound<C: ScriptContext>(toks: Seq<Token>, older: Ast, newer: Ast, a: int, m: int, pos: nat)
    requires
        enc_at::<C>(older, toks, a, m),
        enc_at::<C>(newer, toks, m, pos as int),
    ensures
        and_v::<C>(toks, older, newer, pos) matches Ok((y, c)) ==> enc_at::<C>(y, toks, a, (pos + c) as int),
    decreases rem(toks, pos), 2nat,
{
    if spec_is_and_v(toks, pos as int) {
        lemma_expr_sound::<C>(toks, pos);
        if let Ok((w, c1)) = expr::<C>(toks, pos) {
            lemma_and_v_sound::<C>(toks, newer, w, m, pos as int, pos + 1 + c1);
        }
    }
}

/// The parts of a threshold whose `k EQUAL` stand at `a`; the parts read so
/// far, `subs`, end before `pos`.
proof fn lemma_thresh_w_sound<C: ScriptContext>(toks: Seq<Token>, k: nat, subs: Seq<Ast>, a: int, pos: nat)
    requires
        0 <= a,
        a + 2 <= pos,
        toks[a] is Equal,
        toks[a + 1] matches Token::Num(m) && m as nat == k,
        adds_at::<C>(subs.reverse(), toks, a + 2, pos as int),
    ensures
        thresh_w::<C>(toks, k, subs, pos) matches Ok((t, c)) ==> enc_at::<C>(t, toks, a, (pos + c) as int),
    decreases rem(toks, pos), 2nat,
{
    if pos < toks.len() {
        if toks[pos as int] is Add {
            lemma_expr_sound::<C>(toks, pos + 1);
            if let Ok((x, c1)) = expr::<C>(toks, pos + 1) {
                let q1 = pos + 2 + c1;
                lemma_maybe_swap_sound::<C>(toks, x, pos + 1int, q1);
                let (x2, c2) = maybe_swap(toks, x, q1);
                let q = q1 + c2;
                let s2 = subs.push(x2);
                assert(s2.reverse()[0] == x2);
                assert(s2.reverse().subrange(1, s2.len() as int) =~= subs.reverse());
                assert(adds_at::<C>(s2.reverse(), toks, a + 2, q as int));
                lemma_thresh_w_sound::<C>(toks, k, s2, a, q);
            }
        } else {
            lemma_expr_sound::<C>(toks, pos);
            if let Ok((x, c1)) = expr::<C>(toks, pos) {
                let q1 = pos + 1 + c1;
                lemma_maybe_swap_sound::<C>(toks, x, pos as int, q1);
                let (x2, c2) = maybe_swap(toks, x, q1);
                let s = subs.push(x2).reverse();
                assert(s[0] == x2);
                assert(s.subrange(1, s.len() as int) =~= subs.reverse());
                assert(parts_at::<C>(s, toks, a + 2, (q1 + c2) as int));
            }
        }
    }
}

/// What follows the branch `x` that the `ENDIF` at `a` closes.
proof fn lemma_endif_sound<C: ScriptContext>(toks: Seq<Token>, x: Ast, a: int, pos: nat)
    requires
        0 <= a < toks.len(),
        toks[a] is EndIf,
        enc_at::<C>(x, toks, a + 1, pos as int),
    ensures
        endif::<C>(toks, x, pos) matches Ok((t, c)) ==> enc_at::<C>(t, toks, a, (pos + c) as int),
    decreases rem(toks, pos), 2nat,
{
    if pos < toks.len() {
        match toks[pos as int] {
            Token::Else => {
                lemma_expr_sound::<C>(toks, pos + 1);
                if let Ok((z, c1)) = expr::<C>(toks, pos + 1) {
                    let q1 = pos + 2 + c1;
                    lemma_maybe_swap_sound::<C>(toks, z, pos + 1int, q1);
                    let (z2, c2) = maybe_swap(toks, z, q1);
                    let q2 = q1 + c2;
                    lemma_maybe_and_v_sound::<C>(toks, z2, pos + 1int, q2);
                    if let Ok((z3, c3)) = maybe_and_v::<C>(toks, z2, q2) {
                        lemma_endif_else_sound::<C>(toks, x, z3, a, pos as int, q2 + c3);
                    }
                }
            },
            Token::NotIf => lemma_endif_notif_sound::<C>(toks, x, a, pos),
            _ => {},
        }
    }
}

/// After `ENDIF [x] NOTIF`, the `NOTIF` at `pos`: an `or_d` or an `or_c`.
proof fn lemma_endif_notif_sound<C: ScriptContext>(toks: Seq<Token>, x: Ast, a: int, pos: nat)
    requires
        0 <= a < toks.len(),
        toks[a] is EndIf,
        enc_at::<C>(x, toks, a + 1, pos as int),
        pos < toks.len(),
        toks[pos as int] is NotIf,
    ensures
        endif_notif::<C>(toks, x, pos + 1) matches Ok((t, c)) ==> enc_at::<C>(t, toks, a, (pos + 1 + c) as int),
    decreases rem(toks, pos), 1nat,
{
    if pos + 1 < toks.len() {
        if toks[pos + 1int] is IfDup {
            lemma_expr_sound::<C>(toks, pos + 2);
        } else {
            lemma_expr_sound::<C>(toks, pos + 1);
        }
    }
}

/// After `ENDIF [x] ELSE [z]`, the `ELSE` at `m`: an `or_i` or an `andor`.
proof fn lemma_endif_else_sound<C: ScriptContext>(toks: Seq<Token>, x: Ast, z: Ast, a: int, m: int, r: nat)
    requires
        0 <= a < toks.len(),
        toks[a] is EndIf,
        enc_at::<C>(x, toks, a + 1, m),
        m < toks.len(),
        toks[m] is Else,
        enc_at::<C>(z, toks, m + 1, r as int),
    ensures
        endif_else::<C>(toks, x, z, r) matches Ok((t, c)) ==> enc_at::<C>(t, toks, a, (r + c) as int),
    decreases rem(toks, r), 2nat,
{
    if r < toks.len() && toks[r as int] is NotIf {
        lemma_expr_sound::<C>(toks, r + 1);
    }
}

} // verus!
