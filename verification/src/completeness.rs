//! The decoder reads back every fragment from its script: for a tree in the
//! shape that Miniscript fragments have (defined below over the tree alone),
//! the tokens of its script decode to that very tree.
use vstd::prelude::*;

use crate::ast::Ast;
use crate::grammar::{
    and_v, endif, endif_else, endif_notif, equal_expr, expr, maybe_and_v, maybe_swap, multi_keys, spec_parse, thresh_w,
    verify_expr,
};
use crate::keys::{ParseableKey, ScriptContext};
use crate::script::{adds_at, adds_len, enc_at, key_tokens_hold, multi_key_push, parts_at, script_len};
use crate::token::{spec_is_and_v, Token};

verus! {

/// A tree that stands on its own as one expression: a leaf, a wrapper over
/// an expression, a combinator over fragments, a threshold over parts, or a
/// multisig of at most 20 keys. `and_v` and `SWAP` are not expressions by
/// themselves: they join expressions into parts and fragments.
pub open spec fn expression(t: Ast) -> bool
    decreases t, 0nat,
{
    match t {
        Ast::True => true,
        Ast::False => true,
        Ast::PkK(_) => true,
        Ast::PkH(_) => true,
        Ast::After(_) => true,
        Ast::Older(_) => true,
        Ast::Sha256(_) => true,
        Ast::Hash256(_) => true,
        Ast::Ripemd160(_) => true,
        Ast::Hash160(_) => true,
        Ast::Check(x) => expression(*x),
        Ast::Verify(x) => expression(*x),
        Ast::ZeroNotEqual(x) => expression(*x),
        Ast::Alt(b) => fragment(*b),
        Ast::DupIf(b) => fragment(*b),
        Ast::NonZero(b) => fragment(*b),
        Ast::AndB(x, y) => expression(*x) && part(*y),
        Ast::OrB(x, y) => expression(*x) && part(*y),
        Ast::OrD(x, z) => expression(*x) && fragment(*z),
        Ast::OrC(x, z) => expression(*x) && fragment(*z),
        Ast::OrI(x, z) => fragment(*x) && fragment(*z),
        Ast::AndOr(x, y, z) => expression(*x) && fragment(*y) && fragment(*z),
        Ast::Thresh(_, subs) => subs.len() >= 1 && forall|i: int| 0 <= i < subs.len() ==> part(#[trigger] subs[i]),
        Ast::Multi(_, keys) => keys.len() <= 20,
        Ast::Swap(_) => false,
        Ast::AndV(_, _) => false,
    }
}

/// An expression under any number of `SWAP`s. Under a `SWAP`, the expression
/// must not end with a part of its own that may take `SWAP`s (else that part
/// takes the `SWAP`).
pub open spec fn part(t: Ast) -> bool
    decreases t, 1nat,
{
    match t {
        Ast::Swap(u) => part(*u) && !swap_greedy(swap_core(*u)),
        _ => expression(t),
    }
}

/// Expressions joined by `and_v`, nested to the left: `and_v(and_v(e1, e2), e3)`.
pub open spec fn conjunction(t: Ast) -> bool
    decreases t, 1nat,
{
    match t {
        Ast::AndV(c, w) => conjunction(*c) && expression(*w),
        _ => expression(t),
    }
}

/// A fragment: a part, or a conjunction joined by `and_v` to a part.
pub open spec fn fragment(t: Ast) -> bool
    decreases t, 2nat,
{
    match t {
        Ast::AndV(c, s) => conjunction(*c) && part(*s),
        _ => part(t),
    }
}

/// The script of `t` ends with a part that may take `SWAP`s: the last part of
/// a threshold, or a `SWAP` itself.
pub open spec fn swap_greedy(t: Ast) -> bool
    decreases t,
{
    match t {
        Ast::Thresh(_, _) => true,
        Ast::Swap(_) => true,
        Ast::Check(x) => swap_greedy(*x),
        Ast::Verify(x) => swap_greedy(*x),
        Ast::ZeroNotEqual(x) => swap_greedy(*x),
        Ast::AndV(x, _) => swap_greedy(*x),
        Ast::AndB(x, _) => swap_greedy(*x),
        Ast::OrB(x, _) => swap_greedy(*x),
        Ast::OrD(x, _) => swap_greedy(*x),
        Ast::OrC(x, _) => swap_greedy(*x),
        Ast::AndOr(x, _, _) => swap_greedy(*x),
        _ => false,
    }
}

/// The tree under all the `SWAP`s on top of `t`.
pub open spec fn swap_core(t: Ast) -> Ast
    decreases t,
{
    match t {
        Ast::Swap(u) => swap_core(*u),
        _ => t,
    }
}

/// The number of `SWAP`s on top of `t`.
pub open spec fn depth(t: Ast) -> nat
    decreases t,
{
    match t {
        Ast::Swap(u) => depth(*u) + 1,
        _ => 0,
    }
}

/// `x` under `d` `SWAP`s, the innermost added first.
pub open spec fn swaps(x: Ast, d: nat) -> Ast
    decreases d,
{
    if d == 0 {
        x
    } else {
        swaps(Ast::Swap(Box::new(x)), (d - 1) as nat)
    }
}

/// The expression of a conjunction that is read first.
pub open spec fn head(c: Ast) -> Ast {
    match c {
        Ast::AndV(_, w) => *w,
        _ => c,
    }
}

/// No `SWAP` stands at `e`.
pub open spec fn no_swap_at(toks: Seq<Token>, e: int) -> bool {
    !(0 <= e < toks.len() && toks[e] is Swap)
}

/// What the decoder reads as a fragment from `pos`: an expression, its `SWAP`s
/// and an optional `and_v`.
pub open spec fn read_fragment<C: ScriptContext>(toks: Seq<Token>, pos: nat) -> Result<(Ast, nat), crate::error::ErrorKind> {
    match expr::<C>(toks, pos) {
        Ok((x, c1)) => {
            let (x2, c2) = maybe_swap(toks, x, pos + 1 + c1);
            match maybe_and_v::<C>(toks, x2, pos + 1 + c1 + c2) {
                Ok((x3, c3)) => Ok((x3, 1 + c1 + c2 + c3)),
                Err(e) => Err(e),
            }
        },
        Err(e) => Err(e),
    }
}

/// The decoder reads back every fragment from its script. Let the first `e`
/// tokens of `toks` be the script of the fragment `t`, and let the script end
/// there or go on with `IF`, `NOTIF`, `ELSE` or `TOALTSTACK`. Then the decoder
/// returns `t` and reads exactly those `e` tokens.
pub proof fn parse_reads_back_every_fragment<C: ScriptContext>(t: Ast, toks: Seq<Token>, e: nat)
    requires
        fragment(t),
        enc_at::<C>(t, toks, 0, e as int),
        e == toks.len() || toks[e as int] is If || toks[e as int] is NotIf || toks[e as int] is Else
            || toks[e as int] is ToAltStack,
    ensures
        spec_parse::<C>(toks) == Ok::<(Ast, nat), crate::error::ErrorKind>((t, e)),
{
    lemma_fragment_reads::<C>(t, toks, 0, e);
}

/// A script whose last opcode starts no fragment is refused at that token;
/// an empty one is refused for want of a token.
pub proof fn parse_refuses_what_starts_no_fragment<C: ScriptContext>(toks: Seq<Token>)
    ensures
        toks.len() == 0 ==> spec_parse::<C>(toks) == Err::<(Ast, nat), crate::error::ErrorKind>(
            crate::error::ErrorKind::UnexpectedStart),
        toks.len() > 0 && (toks[0] is Add || toks[0] is NumEqual || toks[0] is CheckSigAdd || toks[0] is Drop
            || toks[0] is Dup || toks[0] is If || toks[0] is IfDup || toks[0] is NotIf || toks[0] is Else
            || toks[0] is Size || toks[0] is Swap || toks[0] is ToAltStack || toks[0] is Ripemd160
            || toks[0] is Hash160 || toks[0] is Sha256 || toks[0] is Hash256 || toks[0] is Hash20
            || (toks[0] matches Token::Num(n) && n >= 2)) ==> spec_parse::<C>(toks) == Err::<(Ast, nat), crate::error::ErrorKind>(
            crate::error::ErrorKind::Unexpected(toks[0])),
{
}

/// A `CHECKMULTISIG` over more than 20 keys is refused with its key count.
pub proof fn parse_refuses_multisig_over_20_keys<C: ScriptContext>(toks: Seq<Token>, n: u32)
    requires
        toks.len() >= 2,
        toks[0] is CheckMultiSig,
        toks[1] == Token::Num(n),
        n > 20,
    ensures
        spec_parse::<C>(toks) == Err::<(Ast, nat), crate::error::ErrorKind>(crate::error::ErrorKind::CmsTooManyKeys(n)),
{
}

/// A key push whose bytes the context's key type refuses is refused with
/// the key type's error kind and the context's name.
pub proof fn parse_refuses_a_bad_key<C: ScriptContext>(toks: Seq<Token>)
    requires
        toks.len() >= 1,
        toks[0] is Bytes32 || toks[0] is Bytes33 || toks[0] is Bytes65,
        C::Key::spec_from_slice(crate::script::push_bytes(toks[0])) is None,
    ensures
        spec_parse::<C>(toks) == Err::<(Ast, nat), crate::error::ErrorKind>(
            crate::error::ErrorKind::PubKeyCtxError(C::Key::spec_error_kind(), C::spec_name()),
        ),
{
}

proof fn lemma_swaps_out(x: Ast, d: nat)
    ensures
        swaps(Ast::Swap(Box::new(x)), d) == Ast::Swap(Box::new(swaps(x, d))),
    decreases d,
{
    if d > 0 {
        lemma_swaps_out(Ast::Swap(Box::new(x)), (d - 1) as nat);
    }
}

/// The script of `t` is the script of its core followed by its `SWAP`s.
proof fn lemma_core<C: ScriptContext>(t: Ast, toks: Seq<Token>, a: int, e: int)
    requires
        enc_at::<C>(t, toks, a, e),
    ensures
        t == swaps(swap_core(t), depth(t)),
        enc_at::<C>(swap_core(t), toks, a, e - depth(t)),
        forall|i: int| e - depth(t) <= i < e ==> #[trigger] toks[i] is Swap,
    decreases t,
{
    if let Ast::Swap(u) = t {
        lemma_core::<C>(*u, toks, a, e - 1);
        lemma_swaps_out(swap_core(*u), depth(*u));
    }
}

/// `maybe_swap` takes a run of `d` `SWAP`s that ends before a token other than `SWAP`.
proof fn lemma_swap_run(toks: Seq<Token>, x: Ast, p: nat, d: nat)
    requires
        forall|i: int| p <= i < p + d ==> #[trigger] toks[i] is Swap,
        no_swap_at(toks, (p + d) as int),
        p + d <= toks.len(),
    ensures
        maybe_swap(toks, x, p) == (swaps(x, d), d),
    decreases d,
{
    if d > 0 {
        assert(toks[p as int] is Swap);
        lemma_swap_run(toks, Ast::Swap(Box::new(x)), p + 1, (d - 1) as nat);
    }
}

/// A part is `SWAP`s over an expression.
proof fn lemma_part_core(t: Ast)
    requires
        part(t),
    ensures
        expression(swap_core(t)),
        depth(t) > 0 ==> !swap_greedy(swap_core(t)),
    decreases t,
{
    if let Ast::Swap(u) = t {
        lemma_part_core(*u);
    }
}

/// The first token of an expression is none of those that end or join one.
proof fn lemma_expression_start<C: ScriptContext>(t: Ast, toks: Seq<Token>, a: int, e: int)
    requires
        expression(t),
        enc_at::<C>(t, toks, a, e),
    ensures
        a < e,
        !(toks[a] is Swap),
        !(toks[a] is Add),
        !(toks[a] is IfDup),
        spec_is_and_v(toks, a),
{
}

/// The first token of a part is the first token of its expression.
proof fn lemma_part_start<C: ScriptContext>(t: Ast, toks: Seq<Token>, a: int, e: int)
    requires
        part(t),
        enc_at::<C>(t, toks, a, e),
    ensures
        a < e,
        !(toks[a] is Swap),
        !(toks[a] is Add),
        spec_is_and_v(toks, a),
{
    lemma_core::<C>(t, toks, a, e);
    lemma_part_core(t);
    lemma_expression_start::<C>(swap_core(t), toks, a, e - depth(t));
}

/// Key pushes of a `CHECKMULTISIG` are read back as their keys.
proof fn lemma_keys_read<C: ScriptContext>(toks: Seq<Token>, p: nat, ks: Seq<Seq<u8>>)
    requires
        p + ks.len() <= toks.len(),
        key_tokens_hold::<C>(toks.subrange(p as int, (p + ks.len()) as int), ks),
    ensures
        multi_keys::<C>(toks, p, ks.len()) == Ok::<Seq<Seq<u8>>, crate::error::ErrorKind>(ks),
    decreases ks.len(),
{
    if ks.len() > 0 {
        let ts = toks.subrange(p as int, (p + ks.len()) as int);
        let rest = ks.drop_first();
        let ts2 = toks.subrange(p + 1int, (p + ks.len()) as int);
        assert(multi_key_push::<C>(ts[0], ks[0]));
        assert(toks[p as int] == ts[0]);
        assert forall|i: int| 0 <= i < ts2.len() implies #[trigger] multi_key_push::<C>(ts2[i], rest[i]) by {
            assert(multi_key_push::<C>(ts[i + 1], ks[i + 1]));
            assert(ts2[i] == ts[i + 1]);
        }
        lemma_keys_read::<C>(toks, p + 1, rest);
        assert(rest.len() == (ks.len() - 1) as nat);
        assert(toks[p as int] is Bytes33 || toks[p as int] is Bytes65);
        assert(seq![ks[0]] + rest =~= ks);
    } else {
        assert(ks =~= Seq::<Seq<u8>>::empty());
    }
}

/// Parts after `ADD`s, read from their front: the `ADD` and the last of `s`
/// come first.
proof fn lemma_adds_front<C: ScriptContext>(s: Seq<Ast>, toks: Seq<Token>, b: int, e: int)
    requires
        adds_at::<C>(s, toks, b, e),
        s.len() > 0,
    ensures
        ({
            let l = script_len(s.last());
            &&& 0 <= b < toks.len()
            &&& toks[b] is Add
            &&& enc_at::<C>(s.last(), toks, b + 1, b + 1 + l)
            &&& adds_at::<C>(s.drop_last(), toks, b + 1 + l, e)
        }),
    decreases s.len(),
{
    let l0 = script_len(s[0]);
    let s1 = s.subrange(1, s.len() as int);
    assert(adds_at::<C>(s1, toks, b, e - l0 - 1));
    if s.len() == 1 {
        assert(s1.len() == 0);
        assert(adds_len(s1) == 0);
        assert(s.last() == s[0]);
        assert(s.drop_last().len() == 0);
        assert(adds_len(s.drop_last()) == 0);
    } else {
        lemma_adds_front::<C>(s1, toks, b, e - l0 - 1);
        let l = script_len(s.last());
        assert(s1.last() == s.last());
        let d = s.drop_last();
        assert(d[0] == s[0]);
        assert(d.subrange(1, d.len() as int) =~= s1.drop_last());
        assert(adds_at::<C>(d, toks, b + 1 + l, e));
    }
}

/// An `ENDIF` at `a` is followed by the fragment `z` up to `m`, then by what
/// `endif` reads from `m`.
proof fn lemma_endif_step<C: ScriptContext>(toks: Seq<Token>, z: Ast, a: nat, m: nat)
    requires
        a < toks.len(),
        toks[a as int] is EndIf,
        a < m,
        read_fragment::<C>(toks, a + 1) == Ok::<(Ast, nat), crate::error::ErrorKind>((z, (m - a - 1) as nat)),
    ensures
        expr::<C>(toks, a) == match endif::<C>(toks, z, m) {
            Ok((t, c)) => Ok::<(Ast, nat), crate::error::ErrorKind>((t, (c + m - a - 1) as nat)),
            Err(err) => Err(err),
        },
{
}

/// An `ELSE` at `m` is followed by the fragment `x` up to `r`, then by what
/// `endif_else` reads from `r`.
proof fn lemma_else_step<C: ScriptContext>(toks: Seq<Token>, z: Ast, x: Ast, m: nat, r: nat)
    requires
        m < toks.len(),
        toks[m as int] is Else,
        m < r,
        read_fragment::<C>(toks, m + 1) == Ok::<(Ast, nat), crate::error::ErrorKind>((x, (r - m - 1) as nat)),
    ensures
        endif::<C>(toks, z, m) == match endif_else::<C>(toks, z, x, r) {
            Ok((t, c)) => Ok::<(Ast, nat), crate::error::ErrorKind>((t, (c + r - m) as nat)),
            Err(err) => Err(err),
        },
{
}

/// An expression is read back by `expr`.
proof fn lemma_expression_reads<C: ScriptContext>(t: Ast, toks: Seq<Token>, a: nat, e: nat)
    requires
        expression(t),
        enc_at::<C>(t, toks, a as int, e as int),
        swap_greedy(t) ==> no_swap_at(toks, e as int),
    ensures
        a < e,
        expr::<C>(toks, a) == Ok::<(Ast, nat), crate::error::ErrorKind>((t, (e - a - 1) as nat)),
    decreases t, 1nat,
{
    lemma_expression_start::<C>(t, toks, a as int, e as int);
    match t {
        Ast::Check(x) => lemma_expression_reads::<C>(*x, toks, a + 1, e),
        Ast::ZeroNotEqual(x) => lemma_expression_reads::<C>(*x, toks, a + 1, e),
        Ast::Verify(x) => lemma_verify_reads::<C>(t, toks, a, e),
        Ast::Alt(_) => lemma_branch_wrap_reads::<C>(t, toks, a, e),
        Ast::DupIf(_) => lemma_branch_wrap_reads::<C>(t, toks, a, e),
        Ast::NonZero(_) => lemma_branch_wrap_reads::<C>(t, toks, a, e),
        Ast::OrD(_, _) => lemma_or_d_reads::<C>(t, toks, a, e),
        Ast::OrC(_, _) => lemma_or_c_reads::<C>(t, toks, a, e),
        Ast::OrI(_, _) => lemma_or_i_reads::<C>(t, toks, a, e),
        Ast::AndOr(_, _, _) => lemma_and_or_reads::<C>(t, toks, a, e),
        Ast::AndB(_, _) => lemma_bool_reads::<C>(t, toks, a, e),
        Ast::OrB(_, _) => lemma_bool_reads::<C>(t, toks, a, e),
        Ast::Thresh(k, subs) => {
            let n = subs.len();
            assert(subs.subrange(n as int, n as int).reverse() =~= Seq::<Ast>::empty());
            assert(parts_at::<C>(subs, toks, a + 2int, e as int));
            lemma_thresh_reads::<C>(k, subs, n, toks, a + 2, e);
            assert(expr::<C>(toks, a) == equal_expr::<C>(toks, a));
        },
        _ => lemma_leaf_reads::<C>(t, toks, a, e),
    }
}

/// A leaf or a multisig is read back by `expr`.
proof fn lemma_leaf_reads<C: ScriptContext>(t: Ast, toks: Seq<Token>, a: nat, e: nat)
    requires
        expression(t),
        enc_at::<C>(t, toks, a as int, e as int),
        !(t is Check || t is ZeroNotEqual || t is Verify || t is Alt || t is DupIf || t is NonZero || t is OrD
            || t is OrC || t is OrI || t is AndOr || t is AndB || t is OrB || t is Thresh),
    ensures
        a < e,
        expr::<C>(toks, a) == Ok::<(Ast, nat), crate::error::ErrorKind>((t, (e - a - 1) as nat)),
{
    lemma_expression_start::<C>(t, toks, a as int, e as int);
    match t {
        Ast::Multi(k, keys) => {
            let ks = keys.reverse();
            lemma_keys_read::<C>(toks, a + 2, ks);
            assert(ks.reverse() =~= keys);
        },
        Ast::PkH(_) => assert(expr::<C>(toks, a) == verify_expr::<C>(toks, a)),
        Ast::Sha256(_) => assert(expr::<C>(toks, a) == equal_expr::<C>(toks, a)),
        Ast::Hash256(_) => assert(expr::<C>(toks, a) == equal_expr::<C>(toks, a)),
        Ast::Ripemd160(_) => assert(expr::<C>(toks, a) == equal_expr::<C>(toks, a)),
        Ast::Hash160(_) => assert(expr::<C>(toks, a) == equal_expr::<C>(toks, a)),
        _ => {},
    }
}

/// `[x] VERIFY`, fused with a final `EQUAL` where `x` has one.
proof fn lemma_verify_reads<C: ScriptContext>(t: Ast, toks: Seq<Token>, a: nat, e: nat)
    requires
        t is Verify,
        expression(t),
        enc_at::<C>(t, toks, a as int, e as int),
        swap_greedy(t) ==> no_swap_at(toks, e as int),
    ensures
        a < e,
        expr::<C>(toks, a) == Ok::<(Ast, nat), crate::error::ErrorKind>((t, (e - a - 1) as nat)),
    decreases t, 0nat,
{
    lemma_expression_start::<C>(t, toks, a as int, e as int);
    let x = t->Verify_0;
    assert(expression(*x));
    assert(expr::<C>(toks, a) == verify_expr::<C>(toks, a));
    if toks[a + 1int] is Equal {
        match *x {
            Ast::Thresh(k, subs) => {
                let n = subs.len();
                assert(enc_at::<C>(*x, toks, a + 1int, e as int));
                assert(subs.subrange(n as int, n as int).reverse() =~= Seq::<Ast>::empty());
                assert(parts_at::<C>(subs, toks, a + 3int, e as int));
                assert(swap_greedy(*x));
                assert(swap_greedy(t));
                lemma_thresh_reads::<C>(k, subs, n, toks, a + 3, e);
            },
            _ => {
                assert(enc_at::<C>(*x, toks, a + 1int, e as int));
            },
        }
    } else {
        lemma_expression_reads::<C>(*x, toks, a + 1, e);
    }
}

/// `TOALTSTACK [b] FROMALTSTACK`, `DUP IF [b] ENDIF`, `SIZE 0NOTEQUAL IF [b] ENDIF`.
proof fn lemma_branch_wrap_reads<C: ScriptContext>(t: Ast, toks: Seq<Token>, a: nat, e: nat)
    requires
        t is Alt || t is DupIf || t is NonZero,
        expression(t),
        enc_at::<C>(t, toks, a as int, e as int),
    ensures
        a < e,
        expr::<C>(toks, a) == Ok::<(Ast, nat), crate::error::ErrorKind>((t, (e - a - 1) as nat)),
    decreases t, 0nat,
{
    lemma_expression_start::<C>(t, toks, a as int, e as int);
    match t {
        Ast::Alt(b) => lemma_fragment_reads::<C>(*b, toks, a + 1, (e - 1) as nat),
        Ast::DupIf(b) => {
            lemma_fragment_reads::<C>(*b, toks, a + 1, (e - 2) as nat);
            lemma_endif_step::<C>(toks, *b, a, (e - 2) as nat);
            assert(endif::<C>(toks, *b, (e - 2) as nat) == Ok::<(Ast, nat), crate::error::ErrorKind>((t, 2nat)));
        },
        Ast::NonZero(b) => {
            lemma_fragment_reads::<C>(*b, toks, a + 1, (e - 3) as nat);
            lemma_endif_step::<C>(toks, *b, a, (e - 3) as nat);
            assert(endif::<C>(toks, *b, (e - 3) as nat) == Ok::<(Ast, nat), crate::error::ErrorKind>((t, 3nat)));
        },
        _ => {},
    }
}

/// `[x] IFDUP NOTIF [z] ENDIF`.
proof fn lemma_or_d_reads<C: ScriptContext>(t: Ast, toks: Seq<Token>, a: nat, e: nat)
    requires
        t is OrD,
        expression(t),
        enc_at::<C>(t, toks, a as int, e as int),
        swap_greedy(t) ==> no_swap_at(toks, e as int),
    ensures
        a < e,
        expr::<C>(toks, a) == Ok::<(Ast, nat), crate::error::ErrorKind>((t, (e - a - 1) as nat)),
    decreases t, 0nat,
{
    lemma_expression_start::<C>(t, toks, a as int, e as int);
    let x = t->OrD_0;
    let z = t->OrD_1;
    let m = (a + 1 + script_len(*z)) as nat;
    lemma_fragment_reads::<C>(*z, toks, a + 1, m);
    lemma_endif_step::<C>(toks, *z, a, m);
    lemma_expression_reads::<C>(*x, toks, m + 2, e);
    assert(endif_notif::<C>(toks, *z, m + 1) == Ok::<(Ast, nat), crate::error::ErrorKind>((t, (e - m - 1) as nat)));
    assert(endif::<C>(toks, *z, m) == Ok::<(Ast, nat), crate::error::ErrorKind>((t, (e - m) as nat)));
}

/// `[x] NOTIF [z] ENDIF`.
proof fn lemma_or_c_reads<C: ScriptContext>(t: Ast, toks: Seq<Token>, a: nat, e: nat)
    requires
        t is OrC,
        expression(t),
        enc_at::<C>(t, toks, a as int, e as int),
        swap_greedy(t) ==> no_swap_at(toks, e as int),
    ensures
        a < e,
        expr::<C>(toks, a) == Ok::<(Ast, nat), crate::error::ErrorKind>((t, (e - a - 1) as nat)),
    decreases t, 0nat,
{
    lemma_expression_start::<C>(t, toks, a as int, e as int);
    let x = t->OrC_0;
    let z = t->OrC_1;
    let m = (a + 1 + script_len(*z)) as nat;
    lemma_fragment_reads::<C>(*z, toks, a + 1, m);
    lemma_endif_step::<C>(toks, *z, a, m);
    lemma_expression_start::<C>(*x, toks, m + 1int, e as int);
    lemma_expression_reads::<C>(*x, toks, m + 1, e);
    assert(endif_notif::<C>(toks, *z, m + 1) == Ok::<(Ast, nat), crate::error::ErrorKind>((t, (e - m - 1) as nat)));
    assert(endif::<C>(toks, *z, m) == Ok::<(Ast, nat), crate::error::ErrorKind>((t, (e - m) as nat)));
}

/// `IF [x] ELSE [z] ENDIF`.
proof fn lemma_or_i_reads<C: ScriptContext>(t: Ast, toks: Seq<Token>, a: nat, e: nat)
    requires
        t is OrI,
        expression(t),
        enc_at::<C>(t, toks, a as int, e as int),
        swap_greedy(t) ==> no_swap_at(toks, e as int),
    ensures
        a < e,
        expr::<C>(toks, a) == Ok::<(Ast, nat), crate::error::ErrorKind>((t, (e - a - 1) as nat)),
    decreases t, 0nat,
{
    lemma_expression_start::<C>(t, toks, a as int, e as int);
    let x = t->OrI_0;
    let z = t->OrI_1;
    let m = (a + 1 + script_len(*z)) as nat;
    lemma_fragment_reads::<C>(*z, toks, a + 1, m);
    lemma_endif_step::<C>(toks, *z, a, m);
    lemma_fragment_reads::<C>(*x, toks, m + 1, (e - 1) as nat);
    lemma_else_step::<C>(toks, *z, *x, m, (e - 1) as nat);
    assert(endif_else::<C>(toks, *z, *x, (e - 1) as nat) == Ok::<(Ast, nat), crate::error::ErrorKind>((t, 1nat)));
    assert(endif::<C>(toks, *z, m) == Ok::<(Ast, nat), crate::error::ErrorKind>((t, (e - m) as nat)));
}

/// `[x] NOTIF [z] ELSE [y] ENDIF`.
proof fn lemma_and_or_reads<C: ScriptContext>(t: Ast, toks: Seq<Token>, a: nat, e: nat)
    requires
        t is AndOr,
        expression(t),
        enc_at::<C>(t, toks, a as int, e as int),
        swap_greedy(t) ==> no_swap_at(toks, e as int),
    ensures
        a < e,
        expr::<C>(toks, a) == Ok::<(Ast, nat), crate::error::ErrorKind>((t, (e - a - 1) as nat)),
    decreases t, 0nat,
{
    lemma_expression_start::<C>(t, toks, a as int, e as int);
    let x = t->AndOr_0;
    let y = t->AndOr_1;
    let z = t->AndOr_2;
    let m1 = (a + 1 + script_len(*y)) as nat;
    let m2 = (m1 + 1 + script_len(*z)) as nat;
    lemma_fragment_reads::<C>(*y, toks, a + 1, m1);
    lemma_endif_step::<C>(toks, *y, a, m1);
    lemma_fragment_reads::<C>(*z, toks, m1 + 1, m2);
    lemma_else_step::<C>(toks, *y, *z, m1, m2);
    lemma_expression_reads::<C>(*x, toks, m2 + 1, e);
    assert(endif_else::<C>(toks, *y, *z, m2) == Ok::<(Ast, nat), crate::error::ErrorKind>((t, (e - m2) as nat)));
    assert(endif::<C>(toks, *y, m1) == Ok::<(Ast, nat), crate::error::ErrorKind>((t, (e - m1) as nat)));
}

/// `[x] [y] BOOLAND` and `[x] [y] BOOLOR`.
proof fn lemma_bool_reads<C: ScriptContext>(t: Ast, toks: Seq<Token>, a: nat, e: nat)
    requires
        t is AndB || t is OrB,
        expression(t),
        enc_at::<C>(t, toks, a as int, e as int),
        swap_greedy(t) ==> no_swap_at(toks, e as int),
    ensures
        a < e,
        expr::<C>(toks, a) == Ok::<(Ast, nat), crate::error::ErrorKind>((t, (e - a - 1) as nat)),
    decreases t, 0nat,
{
    lemma_expression_start::<C>(t, toks, a as int, e as int);
    match t {
        Ast::AndB(x, y) => {
            let m = (a + 1 + script_len(*y)) as nat;
            lemma_expression_start::<C>(*x, toks, m as int, e as int);
            lemma_part_reads_all::<C>(*y, toks, a + 1, m);
            lemma_expression_reads::<C>(*x, toks, m, e);
        },
        Ast::OrB(x, y) => {
            let m = (a + 1 + script_len(*y)) as nat;
            lemma_expression_start::<C>(*x, toks, m as int, e as int);
            lemma_part_reads_all::<C>(*y, toks, a + 1, m);
            lemma_expression_reads::<C>(*x, toks, m, e);
        },
        _ => {},
    }
}

/// A part is read back by `expr` as its core.
proof fn lemma_part_reads<C: ScriptContext>(t: Ast, toks: Seq<Token>, a: nat, e: nat)
    requires
        part(t),
        enc_at::<C>(t, toks, a as int, e as int),
        depth(t) == 0 && swap_greedy(t) ==> no_swap_at(toks, e as int),
    ensures
        a < e,
        expr::<C>(toks, a) == Ok::<(Ast, nat), crate::error::ErrorKind>((swap_core(t), (script_len(swap_core(t)) - 1) as nat)),
    decreases t, 2nat,
{
    match t {
        Ast::Swap(u) => {
            lemma_part_reads::<C>(*u, toks, a, (e - 1) as nat);
        },
        _ => {
            lemma_expression_reads::<C>(t, toks, a, e);
        },
    }
}

/// A part is read back by `expr` and `maybe_swap`.
proof fn lemma_part_reads_all<C: ScriptContext>(t: Ast, toks: Seq<Token>, a: nat, e: nat)
    requires
        part(t),
        enc_at::<C>(t, toks, a as int, e as int),
        no_swap_at(toks, e as int),
    ensures
        ({
            let l = script_len(swap_core(t));
            &&& a < e
            &&& 1 <= l
            &&& a + l <= e
            &&& expr::<C>(toks, a) == Ok::<(Ast, nat), crate::error::ErrorKind>((swap_core(t), (l - 1) as nat))
            &&& maybe_swap(toks, swap_core(t), a + l) == (t, (e - a - l) as nat)
        }),
    decreases t, 3nat,
{
    lemma_part_reads::<C>(t, toks, a, e);
    lemma_core::<C>(t, toks, a as int, e as int);
    lemma_part_core(t);
    lemma_expression_start::<C>(swap_core(t), toks, a as int, e - depth(t));
    let l = script_len(swap_core(t));
    lemma_swap_run(toks, swap_core(t), a + l, depth(t));
}

/// A conjunction is read back by `expr` (its head) and `and_v` (the rest),
/// joined to `o` on the right.
proof fn lemma_conjunction_reads<C: ScriptContext>(c: Ast, o: Ast, toks: Seq<Token>, m: nat, e: nat)
    requires
        conjunction(c),
        enc_at::<C>(c, toks, m as int, e as int),
        !spec_is_and_v(toks, e as int),
        no_swap_at(toks, e as int),
    ensures
        expression(head(c)),
        m + script_len(head(c)) <= e,
        enc_at::<C>(head(c), toks, m as int, (m + script_len(head(c))) as int),
        expr::<C>(toks, m) == Ok::<(Ast, nat), crate::error::ErrorKind>((head(c), (script_len(head(c)) - 1) as nat)),
        and_v::<C>(toks, o, head(c), m + script_len(head(c))) == Ok::<(Ast, nat), crate::error::ErrorKind>(
            (Ast::AndV(Box::new(c), Box::new(o)), (e - m - script_len(head(c))) as nat),
        ),
    decreases c, 2nat,
{
    match c {
        Ast::AndV(c2, w) => {
            let q = (m + script_len(*w)) as nat;
            lemma_conjunction_reads::<C>(*c2, *w, toks, q, e);
            lemma_expression_start::<C>(head(*c2), toks, q as int, (q + script_len(head(*c2))) as int);
            lemma_expression_reads::<C>(*w, toks, m, q);
            assert(head(c) == *w);
            assert(spec_is_and_v(toks, q as int));
            let lh = script_len(head(*c2));
            assert(expr::<C>(toks, q) == Ok::<(Ast, nat), crate::error::ErrorKind>((head(*c2), (lh - 1) as nat)));
            let c1 = (lh - 1) as nat;
            assert(q + 1 + c1 == q + lh);
            assert(and_v::<C>(toks, *w, head(*c2), q + 1 + c1) == Ok::<(Ast, nat), crate::error::ErrorKind>(
                (c, (e - q - lh) as nat)));
            assert(and_v::<C>(toks, o, *w, q) == Ok::<(Ast, nat), crate::error::ErrorKind>(
                (Ast::AndV(Box::new(c), Box::new(o)), (e - q) as nat)));
        },
        _ => {
            lemma_expression_reads::<C>(c, toks, m, e);
        },
    }
}

/// A fragment is read back by an expression, its `SWAP`s and an optional `and_v`.
proof fn lemma_fragment_reads<C: ScriptContext>(t: Ast, toks: Seq<Token>, a: nat, e: nat)
    requires
        fragment(t),
        enc_at::<C>(t, toks, a as int, e as int),
        !spec_is_and_v(toks, e as int),
        no_swap_at(toks, e as int),
    ensures
        a < e,
        read_fragment::<C>(toks, a) == Ok::<(Ast, nat), crate::error::ErrorKind>((t, (e - a) as nat)),
    decreases t, 4nat,
{
    match t {
        Ast::AndV(c, s) => {
            let m = (a + script_len(*s)) as nat;
            lemma_conjunction_reads::<C>(*c, *s, toks, m, e);
            lemma_expression_start::<C>(head(*c), toks, m as int, (m + script_len(head(*c))) as int);
            lemma_part_reads_all::<C>(*s, toks, a, m);
        },
        _ => {
            lemma_part_reads_all::<C>(t, toks, a, e);
        },
    }
}

/// The parts of a threshold are read back: `subs[j - 1]` down to `subs[1]`
/// after their `ADD`s from `pos`, then `subs[0]`, which ends at `e`.
proof fn lemma_thresh_reads<C: ScriptContext>(k: nat, subs: Seq<Ast>, j: nat, toks: Seq<Token>, pos: nat, e: nat)
    requires
        1 <= j <= subs.len(),
        forall|i: int| 0 <= i < subs.len() ==> part(#[trigger] subs[i]),
        adds_at::<C>(subs.subrange(1, j as int), toks, pos as int, e - script_len(subs[0])),
        enc_at::<C>(subs[0], toks, e - script_len(subs[0]), e as int),
        no_swap_at(toks, e as int),
    ensures
        thresh_w::<C>(toks, k, subs.subrange(j as int, subs.len() as int).reverse(), pos)
            == Ok::<(Ast, nat), crate::error::ErrorKind>((Ast::Thresh(k, subs), (e - pos) as nat)),
    decreases subs, j,
{
    let n = subs.len() as int;
    let r = subs.subrange(j as int, n).reverse();
    let m = e - script_len(subs[0]);
    assert(part(subs[0]));
    lemma_part_start::<C>(subs[0], toks, m, e as int);
    if j == 1 {
        assert(subs.subrange(1, 1).len() == 0);
        lemma_part_reads_all::<C>(subs[0], toks, pos, e);
        assert(r.push(subs[0]).reverse() =~= subs);
    } else {
        let s = subs.subrange(1, j as int);
        lemma_adds_front::<C>(s, toks, pos as int, m);
        let x = subs[j - 1];
        assert(s.last() == x);
        assert(s.drop_last() =~= subs.subrange(1, j - 1));
        let q = (pos + 1 + script_len(x)) as nat;
        if j - 1 > 1 {
            lemma_adds_front::<C>(subs.subrange(1, j - 1), toks, q as int, m);
        }
        assert(part(x));
        lemma_part_reads_all::<C>(x, toks, pos + 1, q);
        assert(r.push(x) =~= subs.subrange(j - 1, n).reverse());
        lemma_thresh_reads::<C>(k, subs, (j - 1) as nat, toks, q, e);
    }
}

} // verus!
