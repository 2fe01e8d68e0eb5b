//! The decoder's state machine as spec functions: its task stack, the
//! discipline that keeps the stacks from running dry, and what is left to
//! compute from a state.
use vstd::prelude::*;

use crate::ast::{Ast, Terminal};
use crate::error::{DecodeError, ErrorKind};
use crate::grammar::{and_v, endif, endif_else, endif_notif, expr, maybe_and_v, maybe_swap, thresh_w, unexpected};
use crate::keys::{ParseableKey, ScriptContext};
use crate::token::Token;

verus! {

/// What is left to do on the way to the tree.
#[derive(Clone, Copy, Debug)]
pub(crate) enum NonTerm {
    Expression,
    MaybeSwap,
    MaybeAndV,
    Alt,
    Check,
    DupIf,
    Verify,
    NonZero,
    ZeroNotEqual,
    AndV,
    AndB,
    Tern,
    OrB,
    OrD,
    OrC,
    ThreshW { k: usize, n: usize },
    ThreshE { k: usize, n: usize },
    // could be or_d, or_c, or_i, d:, n:
    EndIf,
    // could be or_d, or_c
    EndIfNotIf,
    // could be or_i or tern
    EndIfElse,
}

/// How many trees the task `x`, with all that it starts, adds to the tree stack.
pub(crate) open spec fn net(x: NonTerm) -> int {
    match x {
        NonTerm::Expression => 1,
        NonTerm::AndV | NonTerm::AndB | NonTerm::OrB | NonTerm::OrD | NonTerm::OrC | NonTerm::EndIfElse => -1,
        NonTerm::Tern => -2,
        NonTerm::ThreshW { k, n } => 1 - n,
        NonTerm::ThreshE { k, n } => 1 - n,
        _ => 0,
    }
}

/// How many trees the task `x` needs on the tree stack when it is taken up.
pub(crate) open spec fn req(x: NonTerm) -> int {
    match x {
        NonTerm::Expression => 0,
        NonTerm::AndV | NonTerm::AndB | NonTerm::OrB | NonTerm::OrD | NonTerm::OrC | NonTerm::EndIfElse => 2,
        NonTerm::Tern => 3,
        NonTerm::ThreshW { k, n } => n as int,
        NonTerm::ThreshE { k, n } => n as int,
        _ => 1,
    }
}

/// A threshold gathers at least one part.
pub(crate) open spec fn fits(x: NonTerm) -> bool {
    match x {
        NonTerm::ThreshE { k, n } => n >= 1,
        _ => true,
    }
}

/// The stack discipline: taking the tasks up from the top, each finds the
/// trees it needs, and when all are done exactly one tree is left.
pub(crate) open spec fn valid(s: Seq<NonTerm>, t: int) -> bool
    decreases s.len(),
{
    if s.len() == 0 {
        t == 1
    } else {
        &&& req(s.last()) <= t
        &&& fits(s.last())
        &&& valid(s.drop_last(), t + net(s.last()))
    }
}

/// The result of the decoder from a state: the task stack `s`, the trees
/// `terms`, the next token at `pos`. `Ok((t, p))`: the tree `t`, with the
/// tokens read up to `p`.
pub(crate) closed spec fn cont<C: ScriptContext>(toks: Seq<Token>, s: Seq<NonTerm>, terms: Seq<Ast>, pos: nat) -> Result<(Ast, nat), ErrorKind>
    decreases s.len(), 1nat,
{
    if s.len() == 0 {
        if terms.len() == 1 {
            Ok((terms[0], pos))
        } else {
            Err(ErrorKind::UnexpectedStart)
        }
    } else {
        step::<C>(toks, s.drop_last(), s.last(), terms, pos)
    }
}

/// The result of the decoder when the task `x` is on top of the tasks `rest`.
pub(crate) closed spec fn step<C: ScriptContext>(toks: Seq<Token>, rest: Seq<NonTerm>, x: NonTerm, terms: Seq<Ast>, pos: nat) -> Result<(Ast, nat), ErrorKind>
    decreases rest.len() + 1, 0nat,
{
    let l = terms.len() as int;
    let top = terms.last();
    let below = terms.drop_last();
    match x {
        NonTerm::Expression => match expr::<C>(toks, pos) {
            Ok((t, c)) => cont::<C>(toks, rest, terms.push(t), pos + 1 + c),
            Err(e) => Err(e),
        },
        NonTerm::MaybeSwap => {
            let (y, c) = maybe_swap(toks, top, pos);
            cont::<C>(toks, rest, below.push(y), pos + c)
        },
        NonTerm::MaybeAndV => match maybe_and_v::<C>(toks, top, pos) {
            Ok((y, c)) => cont::<C>(toks, rest, below.push(y), pos + c),
            Err(e) => Err(e),
        },
        NonTerm::Alt => {
            if pos < toks.len() && toks[pos as int] is ToAltStack {
                cont::<C>(toks, rest, below.push(Ast::Alt(Box::new(top))), pos + 1)
            } else {
                Err(unexpected(toks, pos))
            }
        },
        NonTerm::Check => cont::<C>(toks, rest, below.push(Ast::Check(Box::new(top))), pos),
        NonTerm::DupIf => cont::<C>(toks, rest, below.push(Ast::DupIf(Box::new(top))), pos),
        NonTerm::Verify => cont::<C>(toks, rest, below.push(Ast::Verify(Box::new(top))), pos),
        NonTerm::NonZero => cont::<C>(toks, rest, below.push(Ast::NonZero(Box::new(top))), pos),
        NonTerm::ZeroNotEqual => cont::<C>(toks, rest, below.push(Ast::ZeroNotEqual(Box::new(top))), pos),
        NonTerm::AndV => match and_v::<C>(toks, terms[l - 2], top, pos) {
            Ok((y, c)) => cont::<C>(toks, rest, terms.subrange(0, l - 2).push(y), pos + c),
            Err(e) => Err(e),
        },
        NonTerm::AndB => cont::<C>(
            toks,
            rest,
            terms.subrange(0, l - 2).push(Ast::AndB(Box::new(top), Box::new(terms[l - 2]))),
            pos,
        ),
        NonTerm::OrB => cont::<C>(
            toks,
            rest,
            terms.subrange(0, l - 2).push(Ast::OrB(Box::new(top), Box::new(terms[l - 2]))),
            pos,
        ),
        NonTerm::OrD => cont::<C>(
            toks,
            rest,
            terms.subrange(0, l - 2).push(Ast::OrD(Box::new(top), Box::new(terms[l - 2]))),
            pos,
        ),
        NonTerm::OrC => cont::<C>(
            toks,
            rest,
            terms.subrange(0, l - 2).push(Ast::OrC(Box::new(top), Box::new(terms[l - 2]))),
            pos,
        ),
        NonTerm::Tern => cont::<C>(
            toks,
            rest,
            terms.subrange(0, l - 3).push(
                Ast::AndOr(Box::new(top), Box::new(terms[l - 3]), Box::new(terms[l - 2])),
            ),
            pos,
        ),
        NonTerm::ThreshW { k, n } => match thresh_w::<C>(toks, k as nat, terms.subrange(l - n, l), pos) {
            Ok((y, c)) => cont::<C>(toks, rest, terms.subrange(0, l - n).push(y), pos + c),
            Err(e) => Err(e),
        },
        NonTerm::ThreshE { k, n } => cont::<C>(
            toks,
            rest,
            terms.subrange(0, l - n).push(Ast::Thresh(k as nat, terms.subrange(l - n, l).reverse())),
            pos,
        ),
        NonTerm::EndIf => match endif::<C>(toks, top, pos) {
            Ok((y, c)) => cont::<C>(toks, rest, below.push(y), pos + c),
            Err(e) => Err(e),
        },
        NonTerm::EndIfNotIf => match endif_notif::<C>(toks, top, pos) {
            Ok((y, c)) => cont::<C>(toks, rest, below.push(y), pos + c),
            Err(e) => Err(e),
        },
        NonTerm::EndIfElse => match endif_else::<C>(toks, terms[l - 2], top, pos) {
            Ok((y, c)) => cont::<C>(toks, rest, terms.subrange(0, l - 2).push(y), pos + c),
            Err(e) => Err(e),
        },
    }
}

/// Taking up the task `x` on top of `s`.
proof fn lemma_cont_push<C: ScriptContext>(toks: Seq<Token>, s: Seq<NonTerm>, x: NonTerm, terms: Seq<Ast>, pos: nat)
    ensures
        #[trigger] cont::<C>(toks, s.push(x), terms, pos) == step::<C>(toks, s, x, terms, pos),
{
    assert(s.push(x).drop_last() =~= s);
}

/// The stack discipline with the task `x` on top of `s`.
pub(crate) proof fn lemma_valid_push(s: Seq<NonTerm>, x: NonTerm, t: int)
    ensures
        #[trigger] valid(s.push(x), t) == (req(x) <= t && fits(x) && valid(s, t + net(x))),
{
    assert(s.push(x).drop_last() =~= s);
}

pub(crate) proof fn lemma_push_drop_last<A>(s: Seq<A>, x: A)
    ensures
        #[trigger] s.push(x).drop_last() == s,
{
    assert(s.push(x).drop_last() =~= s);
}

/// `it` is what is left of `toks` after some of its first tokens were read.
pub(crate) open spec fn suffix(it: Seq<Token>, toks: Seq<Token>) -> bool {
    it.len() <= toks.len() && it == toks.skip(toks.len() - it.len())
}

/// The position in `toks` of the next token of `it`.
pub(crate) open spec fn at(toks: Seq<Token>, it: Seq<Token>) -> nat {
    (toks.len() - it.len()) as nat
}

/// A step from the state `(it0, s0, t0)` to `(it, s, terms)` keeps the
/// decoder's result, or stops with it.
pub(crate) open spec fn kept<C: ScriptContext>(
    toks: Seq<Token>,
    it0: Seq<Token>,
    s0: Seq<NonTerm>,
    t0: Seq<Ast>,
    it: Seq<Token>,
    s: Seq<NonTerm>,
    terms: Seq<Ast>,
    r: Result<(), DecodeError>,
) -> bool {
    &&& suffix(it, toks)
    &&& match r {
        Ok(()) => {
            &&& (it.len() < it0.len() || (it == it0 && s.len() < s0.len()))
            &&& valid(s, terms.len() as int)
            &&& terms.len() <= at(toks, it)
            &&& cont::<C>(toks, s, terms, at(toks, it)) == cont::<C>(toks, s0, t0, at(toks, it0))
        },
        Err(e) => cont::<C>(toks, s0, t0, at(toks, it0)) == Err::<(Ast, nat), ErrorKind>(e.kind()),
    }
}

/// The trees of a stack, as `Ast`s.
pub(crate) open spec fn asts<Pk: ParseableKey>(v: Seq<Terminal<Pk>>) -> Seq<Ast> {
    v.map_values(|t: Terminal<Pk>| t.ast())
}

/// The node that the wrapper task `w` makes of the tree `x`.
pub(crate) open spec fn wrap_of(w: NonTerm, x: Ast) -> Ast {
    match w {
        NonTerm::Check => Ast::Check(Box::new(x)),
        NonTerm::DupIf => Ast::DupIf(Box::new(x)),
        NonTerm::Verify => Ast::Verify(Box::new(x)),
        NonTerm::NonZero => Ast::NonZero(Box::new(x)),
        _ => Ast::ZeroNotEqual(Box::new(x)),
    }
}

/// Taking up an `Expression` task.
pub(crate) proof fn lemma_expr_task<C: ScriptContext>(toks: Seq<Token>, s: Seq<NonTerm>, t: Seq<Ast>, p: nat)
    ensures
        cont::<C>(toks, s.push(NonTerm::Expression), t, p) == match expr::<C>(toks, p) {
            Ok((y, c)) => cont::<C>(toks, s, t.push(y), p + 1 + c),
            Err(e) => Err(e),
        },
{
    lemma_cont_push::<C>(toks, s, NonTerm::Expression, t, p);
}

/// Taking up a wrapper task over the tree `x`.
pub(crate) proof fn lemma_wrap_task<C: ScriptContext>(toks: Seq<Token>, s: Seq<NonTerm>, w: NonTerm, t: Seq<Ast>, x: Ast, q: nat)
    requires
        w is Check || w is DupIf || w is Verify || w is NonZero || w is ZeroNotEqual,
    ensures
        cont::<C>(toks, s.push(w), t.push(x), q) == cont::<C>(toks, s, t.push(wrap_of(w, x)), q),
{
    lemma_cont_push::<C>(toks, s, w, t.push(x), q);
    assert(t.push(x).drop_last() =~= t);
}

/// The node that the two-part task `w` makes of its first part `x` and its
/// second part `y`.
pub(crate) open spec fn pair_of(w: NonTerm, x: Ast, y: Ast) -> Ast {
    match w {
        NonTerm::AndB => Ast::AndB(Box::new(x), Box::new(y)),
        NonTerm::OrB => Ast::OrB(Box::new(x), Box::new(y)),
        NonTerm::OrD => Ast::OrD(Box::new(x), Box::new(y)),
        _ => Ast::OrC(Box::new(x), Box::new(y)),
    }
}

/// Taking up a `MaybeSwap` task.
pub(crate) proof fn lemma_maybe_swap_task<C: ScriptContext>(toks: Seq<Token>, s: Seq<NonTerm>, t: Seq<Ast>, p: nat)
    ensures
        cont::<C>(toks, s.push(NonTerm::MaybeSwap), t, p) == ({
            let (y, c) = maybe_swap(toks, t.last(), p);
            cont::<C>(toks, s, t.drop_last().push(y), p + c)
        }),
{
    lemma_cont_push::<C>(toks, s, NonTerm::MaybeSwap, t, p);
}

/// Taking up a `MaybeAndV` task.
pub(crate) proof fn lemma_maybe_and_v_task<C: ScriptContext>(toks: Seq<Token>, s: Seq<NonTerm>, t: Seq<Ast>, p: nat)
    ensures
        cont::<C>(toks, s.push(NonTerm::MaybeAndV), t, p) == match maybe_and_v::<C>(toks, t.last(), p) {
            Ok((y, c)) => cont::<C>(toks, s, t.drop_last().push(y), p + c),
            Err(e) => Err(e),
        },
{
    lemma_cont_push::<C>(toks, s, NonTerm::MaybeAndV, t, p);
}

/// Taking up an `Alt` task.
pub(crate) proof fn lemma_alt_task<C: ScriptContext>(toks: Seq<Token>, s: Seq<NonTerm>, t: Seq<Ast>, p: nat)
    ensures
        cont::<C>(toks, s.push(NonTerm::Alt), t, p) == if p < toks.len() && toks[p as int] is ToAltStack {
            cont::<C>(toks, s, t.drop_last().push(Ast::Alt(Box::new(t.last()))), p + 1)
        } else {
            Err(unexpected(toks, p))
        },
{
    lemma_cont_push::<C>(toks, s, NonTerm::Alt, t, p);
}

/// Taking up a two-part node task.
pub(crate) proof fn lemma_pair_task<C: ScriptContext>(toks: Seq<Token>, s: Seq<NonTerm>, w: NonTerm, t: Seq<Ast>, p: nat)
    requires
        w is AndB || w is OrB || w is OrC || w is OrD,
    ensures
        cont::<C>(toks, s.push(w), t, p) == cont::<C>(
            toks,
            s,
            t.subrange(0, t.len() - 2).push(pair_of(w, t[t.len() - 1], t[t.len() - 2])),
            p,
        ),
{
    lemma_cont_push::<C>(toks, s, w, t, p);
}

/// Taking up an `AndV` task.
pub(crate) proof fn lemma_and_v_task<C: ScriptContext>(toks: Seq<Token>, s: Seq<NonTerm>, t: Seq<Ast>, p: nat)
    ensures
        cont::<C>(toks, s.push(NonTerm::AndV), t, p) == match and_v::<C>(toks, t[t.len() - 2], t[t.len() - 1], p) {
            Ok((y, c)) => cont::<C>(toks, s, t.subrange(0, t.len() - 2).push(y), p + c),
            Err(e) => Err(e),
        },
{
    lemma_cont_push::<C>(toks, s, NonTerm::AndV, t, p);
}

/// Taking up a `Tern` task.
pub(crate) proof fn lemma_tern_task<C: ScriptContext>(toks: Seq<Token>, s: Seq<NonTerm>, t: Seq<Ast>, p: nat)
    ensures
        cont::<C>(toks, s.push(NonTerm::Tern), t, p) == cont::<C>(
            toks,
            s,
            t.subrange(0, t.len() - 3).push(
                Ast::AndOr(Box::new(t[t.len() - 1]), Box::new(t[t.len() - 3]), Box::new(t[t.len() - 2])),
            ),
            p,
        ),
{
    lemma_cont_push::<C>(toks, s, NonTerm::Tern, t, p);
}

/// Taking up a `ThreshW` task.
pub(crate) proof fn lemma_thresh_w_task<C: ScriptContext>(toks: Seq<Token>, s: Seq<NonTerm>, k: usize, n: usize, t: Seq<Ast>, p: nat)
    ensures
        cont::<C>(toks, s.push(NonTerm::ThreshW { k, n }), t, p) == match thresh_w::<C>(toks, k as nat, t.subrange(t.len() - n, t.len() as int), p) {
            Ok((y, c)) => cont::<C>(toks, s, t.subrange(0, t.len() - n).push(y), p + c),
            Err(e) => Err(e),
        },
{
    lemma_cont_push::<C>(toks, s, NonTerm::ThreshW { k, n }, t, p);
}

/// Taking up a `ThreshE` task.
pub(crate) proof fn lemma_thresh_e_task<C: ScriptContext>(toks: Seq<Token>, s: Seq<NonTerm>, k: usize, n: usize, t: Seq<Ast>, p: nat)
    ensures
        cont::<C>(toks, s.push(NonTerm::ThreshE { k, n }), t, p) == cont::<C>(
            toks,
            s,
            t.subrange(0, t.len() - n).push(Ast::Thresh(k as nat, t.subrange(t.len() - n, t.len() as int).reverse())),
            p,
        ),
{
    lemma_cont_push::<C>(toks, s, NonTerm::ThreshE { k, n }, t, p);
}

/// Taking up an `EndIf` task.
pub(crate) proof fn lemma_endif_task<C: ScriptContext>(toks: Seq<Token>, s: Seq<NonTerm>, t: Seq<Ast>, p: nat)
    ensures
        cont::<C>(toks, s.push(NonTerm::EndIf), t, p) == match endif::<C>(toks, t.last(), p) {
            Ok((y, c)) => cont::<C>(toks, s, t.drop_last().push(y), p + c),
            Err(e) => Err(e),
        },
{
    lemma_cont_push::<C>(toks, s, NonTerm::EndIf, t, p);
}

/// Taking up an `EndIfNotIf` task.
pub(crate) proof fn lemma_endif_notif_task<C: ScriptContext>(toks: Seq<Token>, s: Seq<NonTerm>, t: Seq<Ast>, p: nat)
    ensures
        cont::<C>(toks, s.push(NonTerm::EndIfNotIf), t, p) == match endif_notif::<C>(toks, t.last(), p) {
            Ok((y, c)) => cont::<C>(toks, s, t.drop_last().push(y), p + c),
            Err(e) => Err(e),
        },
{
    lemma_cont_push::<C>(toks, s, NonTerm::EndIfNotIf, t, p);
}

/// Taking up an `EndIfElse` task.
pub(crate) proof fn lemma_endif_else_task<C: ScriptContext>(toks: Seq<Token>, s: Seq<NonTerm>, t: Seq<Ast>, p: nat)
    ensures
        cont::<C>(toks, s.push(NonTerm::EndIfElse), t, p) == match endif_else::<C>(toks, t[t.len() - 2], t.last(), p) {
            Ok((y, c)) => cont::<C>(toks, s, t.subrange(0, t.len() - 2).push(y), p + c),
            Err(e) => Err(e),
        },
{
    lemma_cont_push::<C>(toks, s, NonTerm::EndIfElse, t, p);
}

/// With no task left, the single tree is the result.
pub(crate) proof fn lemma_done<C: ScriptContext>(toks: Seq<Token>, t: Seq<Ast>, p: nat)
    requires
        t.len() == 1,
    ensures
        cont::<C>(toks, Seq::empty(), t, p) == Ok::<(Ast, nat), ErrorKind>((t[0], p)),
{
}

} // verus!
