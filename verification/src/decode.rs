//! Script Decoder
//!
//! Functionality to parse a Bitcoin Script into an untyped Miniscript tree.
//! No node is type-checked: the Miniscript type system (types, extra data,
//! the context's validity rules) is not part of this crate.
use vstd::prelude::*;

use crate::ast::{Ast, Terminal};
use crate::error::{DecodeError, ErrorKind};
use crate::grammar::{and_v, equal_expr, expr, maybe_and_v, maybe_swap, spec_parse, thresh_w, verify_expr};
use crate::machine::{
    asts, at, cont, kept, lemma_alt_task, lemma_and_v_task, lemma_done, lemma_endif_else_task,
    lemma_endif_notif_task, lemma_endif_task, lemma_expr_task, lemma_maybe_and_v_task,
    lemma_maybe_swap_task, lemma_pair_task, lemma_push_drop_last, lemma_tern_task,
    lemma_thresh_e_task, lemma_thresh_w_task, lemma_valid_push, lemma_wrap_task, pair_of, suffix,
    valid, wrap_of, NonTerm,
};
use crate::keys::{ParseableKey, ScriptContext};
use crate::token::{is_and_v, spec_is_and_v, Token, TokenIter};

verus! {

/// A key lookup that finds nothing, whatever the index.
pub fn return_none<T>(_idx: usize) -> (r: Option<T>)
    ensures
        r is None,
{
    None
}

/// Takes the next token.
fn next_tok(tokens: &mut TokenIter, Ghost(toks): Ghost<Seq<Token>>) -> (r: Option<Token>)
    requires
        suffix(old(tokens)@, toks),
    ensures
        suffix(final(tokens)@, toks),
        at(toks, old(tokens)@) < toks.len() ==> r == Some(toks[at(toks, old(tokens)@) as int]) && final(tokens)@ == old(tokens)@.drop_first(),
        at(toks, old(tokens)@) >= toks.len() ==> r is None && final(tokens)@ == old(tokens)@,
{
    let r = tokens.next();
    proof {
        if old(tokens)@.len() > 0 {
            assert(tokens@ =~= toks.skip(toks.len() - tokens@.len()));
        }
    }
    r
}

/// Hands the token just taken out again.
fn un_next_tok(tokens: &mut TokenIter, tok: Token, Ghost(toks): Ghost<Seq<Token>>)
    requires
        suffix(old(tokens)@, toks),
        at(toks, old(tokens)@) >= 1,
        tok == toks[at(toks, old(tokens)@) - 1],
    ensures
        suffix(final(tokens)@, toks),
        final(tokens)@.len() == old(tokens)@.len() + 1,
{
    tokens.un_next(tok);
    proof {
        assert(tokens@ =~= toks.skip(toks.len() - tokens@.len()));
    }
}

/// A key from the bytes of a key push.
fn parse_key<C: ScriptContext>(sl: &[u8]) -> (r: Result<C::Key, DecodeError>)
    ensures
        match r {
            Ok(k) => crate::grammar::key_leaf::<C>(sl@) == Ok::<Ast, ErrorKind>(Ast::PkK(k.key_bytes())),
            Err(e) => crate::grammar::key_leaf::<C>(sl@) == Err::<Ast, ErrorKind>(e.kind()),
        },
{
    match C::Key::from_slice(sl) {
        Ok(k) => Ok(k),
        Err(e) => Err(DecodeError::PubKeyCtxError(e, C::name_str())),
    }
}

/// Reads the tail `VERIFY EQUAL 32 SIZE` of a hash lock.
fn expect_hash_tail(tokens: &mut TokenIter, Ghost(toks): Ghost<Seq<Token>>) -> (r: Result<(), DecodeError>)
    requires
        suffix(old(tokens)@, toks),
    ensures
        suffix(final(tokens)@, toks),
        final(tokens)@.len() <= old(tokens)@.len(),
        match r {
            Ok(()) => crate::grammar::hash_tail(toks, at(toks, old(tokens)@)) is None
                && at(toks, final(tokens)@) == at(toks, old(tokens)@) + 4,
            Err(e) => crate::grammar::hash_tail(toks, at(toks, old(tokens)@)) == Some(e.kind()),
        },
{
    let ghost p = at(toks, tokens@);
    match next_tok(tokens, Ghost(toks)) {
        Some(Token::Verify) => {},
        Some(other) => return Err(DecodeError::Unexpected(other)),
        None => return Err(DecodeError::UnexpectedStart),
    }
    match next_tok(tokens, Ghost(toks)) {
        Some(Token::Equal) => {},
        Some(other) => return Err(DecodeError::Unexpected(other)),
        None => return Err(DecodeError::UnexpectedStart),
    }
    match next_tok(tokens, Ghost(toks)) {
        Some(Token::Num(32)) => {},
        Some(other) => return Err(DecodeError::Unexpected(other)),
        None => return Err(DecodeError::UnexpectedStart),
    }
    match next_tok(tokens, Ghost(toks)) {
        Some(Token::Size) => {},
        Some(other) => return Err(DecodeError::Unexpected(other)),
        None => return Err(DecodeError::UnexpectedStart),
    }
    Ok(())
}

/// A one-argument node kind.
#[derive(Clone, Copy)]
enum Wrap1 {
    Alt,
    Swap,
    Check,
    DupIf,
    Verify,
    NonZero,
    ZeroNotEqual,
}

impl Wrap1 {
    spec fn apply(self, x: Ast) -> Ast {
        match self {
            Wrap1::Alt => Ast::Alt(Box::new(x)),
            Wrap1::Swap => Ast::Swap(Box::new(x)),
            Wrap1::Check => Ast::Check(Box::new(x)),
            Wrap1::DupIf => Ast::DupIf(Box::new(x)),
            Wrap1::Verify => Ast::Verify(Box::new(x)),
            Wrap1::NonZero => Ast::NonZero(Box::new(x)),
            Wrap1::ZeroNotEqual => Ast::ZeroNotEqual(Box::new(x)),
        }
    }

    fn build<Pk: ParseableKey>(self, x: Terminal<Pk>) -> (r: Terminal<Pk>)
        ensures
            r.ast() == self.apply(x.ast()),
    {
        let b = Box::new(x);
        match self {
            Wrap1::Alt => Terminal::Alt(b),
            Wrap1::Swap => Terminal::Swap(b),
            Wrap1::Check => Terminal::Check(b),
            Wrap1::DupIf => Terminal::DupIf(b),
            Wrap1::Verify => Terminal::Verify(b),
            Wrap1::NonZero => Terminal::NonZero(b),
            Wrap1::ZeroNotEqual => Terminal::ZeroNotEqual(b),
        }
    }
}

/// A two-argument node kind.
#[derive(Clone, Copy)]
enum Wrap2 {
    AndV,
    AndB,
    OrB,
    OrC,
    OrD,
    OrI,
}

impl Wrap2 {
    spec fn apply(self, x: Ast, y: Ast) -> Ast {
        match self {
            Wrap2::AndV => Ast::AndV(Box::new(x), Box::new(y)),
            Wrap2::AndB => Ast::AndB(Box::new(x), Box::new(y)),
            Wrap2::OrB => Ast::OrB(Box::new(x), Box::new(y)),
            Wrap2::OrC => Ast::OrC(Box::new(x), Box::new(y)),
            Wrap2::OrD => Ast::OrD(Box::new(x), Box::new(y)),
            Wrap2::OrI => Ast::OrI(Box::new(x), Box::new(y)),
        }
    }

    fn build<Pk: ParseableKey>(self, x: Terminal<Pk>, y: Terminal<Pk>) -> (r: Terminal<Pk>)
        ensures
            r.ast() == self.apply(x.ast(), y.ast()),
    {
        let bx = Box::new(x);
        let by = Box::new(y);
        match self {
            Wrap2::AndV => Terminal::AndV(bx, by),
            Wrap2::AndB => Terminal::AndB(bx, by),
            Wrap2::OrB => Terminal::OrB(bx, by),
            Wrap2::OrC => Terminal::OrC(bx, by),
            Wrap2::OrD => Terminal::OrD(bx, by),
            Wrap2::OrI => Terminal::OrI(bx, by),
        }
    }
}

///Vec representing terminals stack while decoding.
struct TerminalStack<Pk: ParseableKey>(Vec<Terminal<Pk>>);

impl<Pk: ParseableKey> TerminalStack<Pk> {
    spec fn view_asts(&self) -> Seq<Ast> {
        asts(self.0@)
    }

    ///Wrapper around self.0.pop()
    fn pop(&mut self) -> (r: Option<Terminal<Pk>>)
        ensures
            old(self).0@.len() == 0 ==> r is None && final(self).0@ == old(self).0@,
            old(self).0@.len() > 0 ==> r == Some(old(self).0@.last()) && final(self).0@ == old(self).0@.drop_last(),
    {
        self.0.pop()
    }

    ///push a 0-arg node
    fn reduce0(&mut self, ms: Terminal<Pk>)
        ensures
            final(self).0@ == old(self).0@.push(ms),
            final(self).view_asts() == old(self).view_asts().push(ms.ast()),
    {
        self.0.push(ms);
        proof {
            assert(asts(self.0@) =~= asts(old(self).0@).push(ms.ast()));
        }
    }

    ///reduce and push a 1-arg node
    fn reduce1(&mut self, wrap: Wrap1)
        requires
            old(self).0@.len() >= 1,
        ensures
            final(self).0@.len() == old(self).0@.len(),
            final(self).view_asts() == old(self).view_asts().drop_last().push(
                wrap.apply(old(self).view_asts().last()),
            ),
    {
        let top = self.pop().unwrap();
        let wrapped_ms = wrap.build(top);
        self.0.push(wrapped_ms);
        proof {
            let o = old(self).0@;
            assert(asts(o).last() == top.ast());
            assert(asts(self.0@) =~= asts(o).drop_last().push(wrap.apply(asts(o).last())));
        }
    }

    ///reduce and push a 2-arg node
    fn reduce2(&mut self, wrap: Wrap2)
        requires
            old(self).0@.len() >= 2,
        ensures
            final(self).0@.len() == old(self).0@.len() - 1,
            ({
                let a = old(self).view_asts();
                let l = a.len() as int;
                final(self).view_asts() == a.subrange(0, l - 2).push(wrap.apply(a[l - 1], a[l - 2]))
            }),
    {
        let left = self.pop().unwrap();
        let right = self.pop().unwrap();
        let wrapped_ms = wrap.build(left, right);
        self.0.push(wrapped_ms);
        proof {
            let o = old(self).0@;
            let l = o.len() as int;
            assert(asts(o)[l - 1] == left.ast());
            assert(asts(o)[l - 2] == right.ast());
            assert(asts(self.0@) =~= asts(o).subrange(0, l - 2).push(wrap.apply(asts(o)[l - 1], asts(o)[l - 2])));
        }
    }
}



/// What `expression` and its helpers may assume: the state before the
/// `Expression` task was taken off the stack `s` with the trees `terms`, and
/// `it0` the tokens left then.
spec fn expr_pre(toks: Seq<Token>, it0: Seq<Token>, s: Seq<NonTerm>, tl: nat) -> bool {
    &&& suffix(it0, toks)
    &&& toks.len() < usize::MAX
    &&& valid(s.push(NonTerm::Expression), tl as int)
    &&& tl <= at(toks, it0)
}

/// The `VERIFY` branch of an expression, after the `VERIFY` was taken.
fn verify_branch<Ctx: ScriptContext>(
    tokens: &mut TokenIter,
    non_term: &mut Vec<NonTerm>,
    term: &mut TerminalStack<Ctx::Key>,
    Ghost(toks): Ghost<Seq<Token>>,
    Ghost(it0): Ghost<Seq<Token>>,
) -> (r: Result<(), DecodeError>)
    requires
        expr_pre(toks, it0, old(non_term)@, old(term).0@.len()),
        suffix(old(tokens)@, toks),
        old(tokens)@.len() + 1 == it0.len(),
        toks[at(toks, it0) as int] is Verify,
    ensures
        kept::<Ctx>(toks, it0, old(non_term)@.push(NonTerm::Expression), old(term).view_asts(), final(tokens)@, final(non_term)@, final(term).view_asts(), r),
        r is Ok ==> final(tokens)@.len() < it0.len(),
{
    let ghost p = at(toks, it0);
    let ghost t = term.view_asts();
    let ghost tl = t.len() as int;
    let ghost s = non_term@;
    proof {
        lemma_expr_task::<Ctx>(toks, s, t, p);
        lemma_valid_push(s, NonTerm::Expression, tl);
        assert(expr::<Ctx>(toks, p) == verify_expr::<Ctx>(toks, p));
    }
    match next_tok(tokens, Ghost(toks)) {
        None => Err(DecodeError::UnexpectedStart),
        Some(Token::Equal) => {
            match next_tok(tokens, Ghost(toks)) {
                None => Err(DecodeError::UnexpectedStart),
                Some(Token::Hash20(hash)) => {
                    match next_tok(tokens, Ghost(toks)) {
                        None => Err(DecodeError::UnexpectedStart),
                        Some(Token::Hash160) => {
                            match next_tok(tokens, Ghost(toks)) {
                                None => Err(DecodeError::UnexpectedStart),
                                Some(Token::Dup) => {
                                    term.reduce0(Terminal::PkH(hash));
                                    Ok(())
                                },
                                Some(Token::Verify) => {
                                    un_next_tok(tokens, Token::Verify, Ghost(toks));
                                    expect_hash_tail(tokens, Ghost(toks))?;
                                    non_term.push(NonTerm::Verify);
                                    term.reduce0(Terminal::Hash160(hash));
                                    proof {
                                        lemma_wrap_task::<Ctx>(toks, s, NonTerm::Verify, t, Ast::Hash160(hash@), p + 8);
                                        lemma_valid_push(s, NonTerm::Verify, tl + 1);
                                    }
                                    Ok(())
                                },
                                Some(other) => Err(DecodeError::Unexpected(other)),
                            }
                        },
                        Some(Token::Ripemd160) => {
                            expect_hash_tail(tokens, Ghost(toks))?;
                            non_term.push(NonTerm::Verify);
                            term.reduce0(Terminal::Ripemd160(hash));
                            proof {
                                lemma_wrap_task::<Ctx>(toks, s, NonTerm::Verify, t, Ast::Ripemd160(hash@), p + 8);
                                lemma_valid_push(s, NonTerm::Verify, tl + 1);
                            }
                            Ok(())
                        },
                        Some(other) => Err(DecodeError::Unexpected(other)),
                    }
                },
                Some(Token::Bytes32(hash)) => {
                    match next_tok(tokens, Ghost(toks)) {
                        None => Err(DecodeError::UnexpectedStart),
                        Some(Token::Sha256) => {
                            expect_hash_tail(tokens, Ghost(toks))?;
                            non_term.push(NonTerm::Verify);
                            term.reduce0(Terminal::Sha256(hash));
                            proof {
                                lemma_wrap_task::<Ctx>(toks, s, NonTerm::Verify, t, Ast::Sha256(hash@), p + 8);
                                lemma_valid_push(s, NonTerm::Verify, tl + 1);
                            }
                            Ok(())
                        },
                        Some(Token::Hash256) => {
                            expect_hash_tail(tokens, Ghost(toks))?;
                            non_term.push(NonTerm::Verify);
                            term.reduce0(Terminal::Hash256(hash));
                            proof {
                                lemma_wrap_task::<Ctx>(toks, s, NonTerm::Verify, t, Ast::Hash256(hash@), p + 8);
                                lemma_valid_push(s, NonTerm::Verify, tl + 1);
                            }
                            Ok(())
                        },
                        Some(other) => Err(DecodeError::Unexpected(other)),
                    }
                },
                Some(Token::Num(k)) => {
                    non_term.push(NonTerm::Verify);
                    non_term.push(NonTerm::ThreshW { k: k as usize, n: 0 });
                    proof {
                        let w = NonTerm::ThreshW { k: k as usize, n: 0 };
                        lemma_thresh_w_task::<Ctx>(toks, s.push(NonTerm::Verify), k as usize, 0, t, p + 3);
                        assert(t.subrange(tl, tl) =~= Seq::<Ast>::empty());
                        assert(t.subrange(0, tl) =~= t);
                        match thresh_w::<Ctx>(toks, k as nat, Seq::empty(), p + 3) {
                            Ok((y, c)) => {
                                lemma_wrap_task::<Ctx>(toks, s, NonTerm::Verify, t, y, p + 3 + c);
                            },
                            Err(e) => {},
                        }
                        lemma_valid_push(s.push(NonTerm::Verify), w, tl);
                        lemma_valid_push(s, NonTerm::Verify, tl + 1);
                    }
                    Ok(())
                },
                Some(other) => Err(DecodeError::Unexpected(other)),
            }
        },
        Some(x) => {
            un_next_tok(tokens, x, Ghost(toks));
            non_term.push(NonTerm::Verify);
            non_term.push(NonTerm::Expression);
            proof {
                lemma_expr_task::<Ctx>(toks, s.push(NonTerm::Verify), t, p + 1);
                match expr::<Ctx>(toks, p + 1) {
                    Ok((y, c)) => {
                        lemma_wrap_task::<Ctx>(toks, s, NonTerm::Verify, t, y, p + 2 + c);
                    },
                    Err(e) => {},
                }
                lemma_valid_push(s.push(NonTerm::Verify), NonTerm::Expression, tl);
                lemma_valid_push(s, NonTerm::Verify, tl + 1);
            }
            Ok(())
        },
    }
}

/// The `EQUAL` branch of an expression (a hash lock or a threshold), after
/// the `EQUAL` was taken.
fn equal_branch<Ctx: ScriptContext>(
    tokens: &mut TokenIter,
    non_term: &mut Vec<NonTerm>,
    term: &mut TerminalStack<Ctx::Key>,
    Ghost(toks): Ghost<Seq<Token>>,
    Ghost(it0): Ghost<Seq<Token>>,
) -> (r: Result<(), DecodeError>)
    requires
        expr_pre(toks, it0, old(non_term)@, old(term).0@.len()),
        suffix(old(tokens)@, toks),
        old(tokens)@.len() + 1 == it0.len(),
        toks[at(toks, it0) as int] is Equal,
    ensures
        kept::<Ctx>(toks, it0, old(non_term)@.push(NonTerm::Expression), old(term).view_asts(), final(tokens)@, final(non_term)@, final(term).view_asts(), r),
        r is Ok ==> final(tokens)@.len() < it0.len(),
{
    let ghost p = at(toks, it0);
    let ghost t = term.view_asts();
    let ghost tl = t.len() as int;
    let ghost s = non_term@;
    proof {
        lemma_expr_task::<Ctx>(toks, s, t, p);
        lemma_valid_push(s, NonTerm::Expression, tl);
        assert(expr::<Ctx>(toks, p) == equal_expr::<Ctx>(toks, p));
    }
    match next_tok(tokens, Ghost(toks)) {
        None => Err(DecodeError::UnexpectedStart),
        Some(Token::Bytes32(hash)) => {
            match next_tok(tokens, Ghost(toks)) {
                None => Err(DecodeError::UnexpectedStart),
                Some(Token::Sha256) => {
                    expect_hash_tail(tokens, Ghost(toks))?;
                    term.reduce0(Terminal::Sha256(hash));
                    Ok(())
                },
                Some(Token::Hash256) => {
                    expect_hash_tail(tokens, Ghost(toks))?;
                    term.reduce0(Terminal::Hash256(hash));
                    Ok(())
                },
                Some(other) => Err(DecodeError::Unexpected(other)),
            }
        },
        Some(Token::Hash20(hash)) => {
            match next_tok(tokens, Ghost(toks)) {
                None => Err(DecodeError::UnexpectedStart),
                Some(Token::Ripemd160) => {
                    expect_hash_tail(tokens, Ghost(toks))?;
                    term.reduce0(Terminal::Ripemd160(hash));
                    Ok(())
                },
                Some(Token::Hash160) => {
                    expect_hash_tail(tokens, Ghost(toks))?;
                    term.reduce0(Terminal::Hash160(hash));
                    Ok(())
                },
                Some(other) => Err(DecodeError::Unexpected(other)),
            }
        },
        Some(Token::Num(k)) => {
            // note we do *not* expect an `Expression` here;
            // the `ThreshW` handler below will look for
            // `OP_ADD` or not and do the right thing
            non_term.push(NonTerm::ThreshW { k: k as usize, n: 0 });
            proof {
                let w = NonTerm::ThreshW { k: k as usize, n: 0 };
                lemma_thresh_w_task::<Ctx>(toks, s, k as usize, 0, t, p + 2);
                assert(t.subrange(tl, tl) =~= Seq::<Ast>::empty());
                assert(t.subrange(0, tl) =~= t);
                lemma_valid_push(s, w, tl);
            }
            Ok(())
        },
        Some(other) => Err(DecodeError::Unexpected(other)),
    }
}

/// The keys and `k` of a `CHECKMULTISIG`, after its `CHECKMULTISIG` was taken.
fn multi_branch<Ctx: ScriptContext>(
    tokens: &mut TokenIter,
    term: &mut TerminalStack<Ctx::Key>,
    Ghost(toks): Ghost<Seq<Token>>,
    Ghost(it0): Ghost<Seq<Token>>,
    Ghost(s): Ghost<Seq<NonTerm>>,
) -> (r: Result<(), DecodeError>)
    requires
        expr_pre(toks, it0, s, old(term).0@.len()),
        suffix(old(tokens)@, toks),
        old(tokens)@.len() + 1 == it0.len(),
        toks[at(toks, it0) as int] is CheckMultiSig,
    ensures
        kept::<Ctx>(toks, it0, s.push(NonTerm::Expression), old(term).view_asts(), final(tokens)@, s, final(term).view_asts(), r),
        r is Ok ==> final(tokens)@.len() < it0.len(),
{
    let ghost p = at(toks, it0);
    let ghost t = term.view_asts();
    let ghost tl = t.len() as int;
    proof {
        lemma_expr_task::<Ctx>(toks, s, t, p);
        lemma_valid_push(s, NonTerm::Expression, tl);
    }
    let n = match next_tok(tokens, Ghost(toks)) {
        Some(Token::Num(n)) => n,
        Some(other) => return Err(DecodeError::Unexpected(other)),
        None => return Err(DecodeError::UnexpectedStart),
    };
    if n > 20 {
        return Err(DecodeError::CmsTooManyKeys(n));
    }
    let mut keys: Vec<Ctx::Key> = Vec::with_capacity(n as usize);
    let mut i: u32 = 0;
    #[verifier::loop_isolation(false)]
    while i < n
        invariant
            suffix(tokens@, toks),
            at(toks, tokens@) == p + 2 + i,
            i <= n <= 20,
            keys@.len() == i,
            crate::grammar::multi_keys::<Ctx>(toks, p + 2, n as nat) == match crate::grammar::multi_keys::<Ctx>(toks, (p + 2 + i) as nat, (n - i) as nat) {
                Ok(rest) => Ok(keys@.map_values(|k: Ctx::Key| k.key_bytes()) + rest),
                Err(e) => Err(e),
            },
        decreases n - i,
    {
        let ghost q = at(toks, tokens@);
        let ghost before = keys@;
        let key = match next_tok(tokens, Ghost(toks)) {
            Some(Token::Bytes33(pk)) => parse_key::<Ctx>(pk.as_slice())?,
            Some(Token::Bytes65(pk)) => parse_key::<Ctx>(pk.as_slice())?,
            Some(other) => return Err(DecodeError::Unexpected(other)),
            None => return Err(DecodeError::UnexpectedStart),
        };
        keys.push(key);
        i = i + 1;
        proof {
            let kb = |k: Ctx::Key| k.key_bytes();
            assert(keys@.map_values(kb) =~= before.map_values(kb) + seq![key.key_bytes()]);
            match crate::grammar::multi_keys::<Ctx>(toks, q + 1, (n - i) as nat) {
                Ok(rest) => {
                    assert(before.map_values(kb) + (seq![key.key_bytes()] + rest) =~= keys@.map_values(kb) + rest);
                },
                Err(e) => {},
            }
        }
    }
    let k = match next_tok(tokens, Ghost(toks)) {
        Some(Token::Num(k)) => k,
        Some(other) => return Err(DecodeError::Unexpected(other)),
        None => return Err(DecodeError::UnexpectedStart),
    };
    let ghost kept_keys = keys@;
    let mut rev: Vec<Ctx::Key> = Vec::with_capacity(n as usize);
    while keys.len() > 0
        invariant
            keys@.len() + rev@.len() == kept_keys.len(),
            keys@ == kept_keys.subrange(0, keys@.len() as int),
            rev@ == kept_keys.subrange(keys@.len() as int, kept_keys.len() as int).reverse(),
        decreases keys@.len(),
    {
        let key = keys.pop().unwrap();
        rev.push(key);
        proof {
            assert(keys@ =~= kept_keys.subrange(0, keys@.len() as int));
            assert(rev@ =~= kept_keys.subrange(keys@.len() as int, kept_keys.len() as int).reverse());
        }
    }
    let ms = Terminal::Multi(k as usize, rev);
    term.reduce0(ms);
    proof {
        let kb = |k: Ctx::Key| k.key_bytes();
        assert(kept_keys.subrange(0, kept_keys.len() as int) =~= kept_keys);
        assert(rev@.map_values(kb) =~= kept_keys.map_values(kb).reverse());
        assert(crate::grammar::multi_keys::<Ctx>(toks, (p + 2 + n) as nat, 0) == Ok::<Seq<Seq<u8>>, ErrorKind>(Seq::empty()));
        assert(kept_keys.map_values(kb) + Seq::<Seq<u8>>::empty() =~= kept_keys.map_values(kb));
        assert(ms.ast() == Ast::Multi(k as nat, kept_keys.map_values(kb).reverse()));
    }
    Ok(())
}

/// Takes up an `Expression` task: reads the first tokens of one expression,
/// and pushes the tree it makes or the tasks that finish it.
fn expression<Ctx: ScriptContext>(
    tokens: &mut TokenIter,
    non_term: &mut Vec<NonTerm>,
    term: &mut TerminalStack<Ctx::Key>,
    Ghost(toks): Ghost<Seq<Token>>,
) -> (r: Result<(), DecodeError>)
    requires
        expr_pre(toks, old(tokens)@, old(non_term)@, old(term).0@.len()),
    ensures
        kept::<Ctx>(toks, old(tokens)@, old(non_term)@.push(NonTerm::Expression), old(term).view_asts(), final(tokens)@, final(non_term)@, final(term).view_asts(), r),
        r is Ok ==> final(tokens)@.len() < old(tokens)@.len(),
{
    let ghost it0 = tokens@;
    let ghost p = at(toks, it0);
    let ghost t = term.view_asts();
    let ghost tl = t.len() as int;
    let ghost s = non_term@;
    proof {
        lemma_expr_task::<Ctx>(toks, s, t, p);
        lemma_valid_push(s, NonTerm::Expression, tl);
    }
    let tok = match next_tok(tokens, Ghost(toks)) {
        Some(tok) => tok,
        None => return Err(DecodeError::UnexpectedStart),
    };
    match tok {
        // pubkey
        Token::Bytes33(pk) => {
            let ret = parse_key::<Ctx>(pk.as_slice())?;
            term.reduce0(Terminal::PkK(ret));
            Ok(())
        },
        Token::Bytes65(pk) => {
            let ret = parse_key::<Ctx>(pk.as_slice())?;
            term.reduce0(Terminal::PkK(ret));
            Ok(())
        },
        // A naked 32-byte push is an x-only key: the 32-byte pushes of
        // hash locks are always preceded by `EQUAL`.
        Token::Bytes32(pk) => {
            let ret = parse_key::<Ctx>(pk.as_slice())?;
            term.reduce0(Terminal::PkK(ret));
            Ok(())
        },
        // checksig
        Token::CheckSig => {
            non_term.push(NonTerm::Check);
            non_term.push(NonTerm::Expression);
            proof {
                lemma_expr_task::<Ctx>(toks, s.push(NonTerm::Check), t, p + 1);
                if let Ok((y, c)) = expr::<Ctx>(toks, p + 1) {
                    lemma_wrap_task::<Ctx>(toks, s, NonTerm::Check, t, y, p + 2 + c);
                }
                lemma_valid_push(s.push(NonTerm::Check), NonTerm::Expression, tl);
                lemma_valid_push(s, NonTerm::Check, tl + 1);
            }
            Ok(())
        },
        // pubkeyhash and [T] VERIFY and [T] 0NOTEQUAL
        Token::Verify => verify_branch::<Ctx>(tokens, non_term, term, Ghost(toks), Ghost(it0)),
        Token::ZeroNotEqual => {
            non_term.push(NonTerm::ZeroNotEqual);
            non_term.push(NonTerm::Expression);
            proof {
                lemma_expr_task::<Ctx>(toks, s.push(NonTerm::ZeroNotEqual), t, p + 1);
                if let Ok((y, c)) = expr::<Ctx>(toks, p + 1) {
                    lemma_wrap_task::<Ctx>(toks, s, NonTerm::ZeroNotEqual, t, y, p + 2 + c);
                }
                lemma_valid_push(s.push(NonTerm::ZeroNotEqual), NonTerm::Expression, tl);
                lemma_valid_push(s, NonTerm::ZeroNotEqual, tl + 1);
            }
            Ok(())
        },
        // timelocks
        Token::CheckSequenceVerify => match next_tok(tokens, Ghost(toks)) {
            Some(Token::Num(n)) => {
                term.reduce0(Terminal::Older(n));
                Ok(())
            },
            Some(other) => Err(DecodeError::Unexpected(other)),
            None => Err(DecodeError::UnexpectedStart),
        },
        Token::CheckLockTimeVerify => match next_tok(tokens, Ghost(toks)) {
            Some(Token::Num(n)) => {
                term.reduce0(Terminal::After(n));
                Ok(())
            },
            Some(other) => Err(DecodeError::Unexpected(other)),
            None => Err(DecodeError::UnexpectedStart),
        },
        // hashlocks and thresholds
        Token::Equal => equal_branch::<Ctx>(tokens, non_term, term, Ghost(toks), Ghost(it0)),
        // fromaltstack
        Token::FromAltStack => {
            non_term.push(NonTerm::Alt);
            non_term.push(NonTerm::MaybeAndV);
            non_term.push(NonTerm::MaybeSwap);
            non_term.push(NonTerm::Expression);
            proof {
                let s1 = s.push(NonTerm::Alt);
                let s2 = s1.push(NonTerm::MaybeAndV);
                let s3 = s2.push(NonTerm::MaybeSwap);
                lemma_expr_task::<Ctx>(toks, s3, t, p + 1);
                if let Ok((x, c1)) = expr::<Ctx>(toks, p + 1) {
                    let q1 = (p + 2 + c1) as nat;
                    lemma_maybe_swap_task::<Ctx>(toks, s2, t.push(x), q1);
                    lemma_push_drop_last(t, x);
                    let (x2, c2) = maybe_swap(toks, x, q1);
                    let q2 = q1 + c2;
                    lemma_maybe_and_v_task::<Ctx>(toks, s1, t.push(x2), q2);
                    lemma_push_drop_last(t, x2);
                    if let Ok((x3, c3)) = maybe_and_v::<Ctx>(toks, x2, q2) {
                        lemma_alt_task::<Ctx>(toks, s, t.push(x3), q2 + c3);
                        lemma_push_drop_last(t, x3);
                    }
                }
                lemma_valid_push(s3, NonTerm::Expression, tl);
                lemma_valid_push(s2, NonTerm::MaybeSwap, tl + 1);
                lemma_valid_push(s1, NonTerm::MaybeAndV, tl + 1);
                lemma_valid_push(s, NonTerm::Alt, tl + 1);
            }
            Ok(())
        },
        // most other fragments
        Token::Num(n) => {
            if n == 0 {
                term.reduce0(Terminal::False);
                Ok(())
            } else if n == 1 {
                term.reduce0(Terminal::True);
                Ok(())
            } else {
                Err(DecodeError::Unexpected(tok))
            }
        },
        Token::EndIf => {
            non_term.push(NonTerm::EndIf);
            non_term.push(NonTerm::MaybeAndV);
            non_term.push(NonTerm::MaybeSwap);
            non_term.push(NonTerm::Expression);
            proof {
                let s1 = s.push(NonTerm::EndIf);
                let s2 = s1.push(NonTerm::MaybeAndV);
                let s3 = s2.push(NonTerm::MaybeSwap);
                lemma_expr_task::<Ctx>(toks, s3, t, p + 1);
                if let Ok((x, c1)) = expr::<Ctx>(toks, p + 1) {
                    let q1 = (p + 2 + c1) as nat;
                    lemma_maybe_swap_task::<Ctx>(toks, s2, t.push(x), q1);
                    lemma_push_drop_last(t, x);
                    let (x2, c2) = maybe_swap(toks, x, q1);
                    let q2 = q1 + c2;
                    lemma_maybe_and_v_task::<Ctx>(toks, s1, t.push(x2), q2);
                    lemma_push_drop_last(t, x2);
                    if let Ok((x3, c3)) = maybe_and_v::<Ctx>(toks, x2, q2) {
                        lemma_endif_task::<Ctx>(toks, s, t.push(x3), q2 + c3);
                        lemma_push_drop_last(t, x3);
                    }
                }
                lemma_valid_push(s3, NonTerm::Expression, tl);
                lemma_valid_push(s2, NonTerm::MaybeSwap, tl + 1);
                lemma_valid_push(s1, NonTerm::MaybeAndV, tl + 1);
                lemma_valid_push(s, NonTerm::EndIf, tl + 1);
            }
            Ok(())
        },
        // boolean conjunctions and disjunctions
        Token::BoolAnd => {
            non_term.push(NonTerm::AndB);
            non_term.push(NonTerm::Expression);
            non_term.push(NonTerm::MaybeSwap);
            non_term.push(NonTerm::Expression);
            proof {
                lemma_pair_chain::<Ctx>(toks, s, NonTerm::AndB, t, p);
            }
            Ok(())
        },
        Token::BoolOr => {
            non_term.push(NonTerm::OrB);
            non_term.push(NonTerm::Expression);
            non_term.push(NonTerm::MaybeSwap);
            non_term.push(NonTerm::Expression);
            proof {
                lemma_pair_chain::<Ctx>(toks, s, NonTerm::OrB, t, p);
            }
            Ok(())
        },
        // CHECKMULTISIG based multisig
        Token::CheckMultiSig => multi_branch::<Ctx>(tokens, term, Ghost(toks), Ghost(it0), Ghost(s)),
        _ => Err(DecodeError::Unexpected(tok)),
    }
}

/// `[x] [y] BOOLAND` and `[x] [y] BOOLOR`, after the last token was taken: the
/// tasks `w`, `Expression`, `MaybeSwap`, `Expression` on top of `s` do what
/// the grammar does from the token at `p`.
proof fn lemma_pair_chain<C: ScriptContext>(toks: Seq<Token>, s: Seq<NonTerm>, w: NonTerm, t: Seq<Ast>, p: nat)
    requires
        w is AndB || w is OrB,
        p < toks.len(),
        w is AndB ==> toks[p as int] is BoolAnd,
        w is OrB ==> toks[p as int] is BoolOr,
        valid(s.push(NonTerm::Expression), t.len() as int),
    ensures
        cont::<C>(toks, s.push(w).push(NonTerm::Expression).push(NonTerm::MaybeSwap).push(NonTerm::Expression), t, p + 1)
            == cont::<C>(toks, s.push(NonTerm::Expression), t, p),
        valid(s.push(w).push(NonTerm::Expression).push(NonTerm::MaybeSwap).push(NonTerm::Expression), t.len() as int),
{
    let tl = t.len() as int;
    let s1 = s.push(w);
    let s2 = s1.push(NonTerm::Expression);
    let s3 = s2.push(NonTerm::MaybeSwap);
    lemma_expr_task::<C>(toks, s, t, p);
    lemma_expr_task::<C>(toks, s3, t, p + 1);
    if let Ok((y, c1)) = expr::<C>(toks, p + 1) {
        let q1 = (p + 2 + c1) as nat;
        lemma_maybe_swap_task::<C>(toks, s2, t.push(y), q1);
        lemma_push_drop_last(t, y);
        let (y2, c2) = maybe_swap(toks, y, q1);
        let q2 = q1 + c2;
        lemma_expr_task::<C>(toks, s1, t.push(y2), q2);
        if let Ok((x, c3)) = expr::<C>(toks, q2) {
            let tt = t.push(y2).push(x);
            lemma_pair_task::<C>(toks, s, w, tt, q2 + 1 + c3);
            assert(tt.subrange(0, tl) =~= t);
        }
    }
    lemma_valid_push(s, NonTerm::Expression, tl);
    lemma_valid_push(s3, NonTerm::Expression, tl);
    lemma_valid_push(s2, NonTerm::MaybeSwap, tl + 1);
    lemma_valid_push(s1, NonTerm::Expression, tl + 1);
    lemma_valid_push(s, w, tl + 2);
}

/// What a task may assume: the stack `s` still holds it on top.
spec fn task_pre(toks: Seq<Token>, it: Seq<Token>, s: Seq<NonTerm>, tl: nat) -> bool {
    &&& suffix(it, toks)
    &&& toks.len() < usize::MAX
    &&& valid(s, tl as int)
    &&& tl <= at(toks, it)
}

/// Whether the next token is `SWAP`.
fn next_is_swap(tokens: &TokenIter) -> (r: bool)
    ensures
        r == (tokens@.len() > 0 && tokens@[0] is Swap),
{
    match tokens.peek() {
        Some(t) => match t {
            Token::Swap => true,
            _ => false,
        },
        None => false,
    }
}

/// Handle `SWAP` prefixing
fn task_maybe_swap<Ctx: ScriptContext>(
    tokens: &mut TokenIter,
    non_term: &mut Vec<NonTerm>,
    term: &mut TerminalStack<Ctx::Key>,
    Ghost(toks): Ghost<Seq<Token>>,
) -> (r: Result<(), DecodeError>)
    requires
        task_pre(toks, old(tokens)@, old(non_term)@.push(NonTerm::MaybeSwap), old(term).0@.len()),
    ensures
        kept::<Ctx>(toks, old(tokens)@, old(non_term)@.push(NonTerm::MaybeSwap), old(term).view_asts(), final(tokens)@, final(non_term)@, final(term).view_asts(), r),
{
    let ghost p = at(toks, tokens@);
    let ghost t = term.view_asts();
    let ghost tl = t.len() as int;
    let ghost s = non_term@;
    proof {
        lemma_maybe_swap_task::<Ctx>(toks, s, t, p);
        lemma_valid_push(s, NonTerm::MaybeSwap, tl);
    }
    if next_is_swap(tokens) {
        next_tok(tokens, Ghost(toks));
        term.reduce1(Wrap1::Swap);
        non_term.push(NonTerm::MaybeSwap);
        proof {
            let x = t.last();
            let t2 = t.drop_last().push(Ast::Swap(Box::new(x)));
            lemma_maybe_swap_task::<Ctx>(toks, s, t2, p + 1);
            lemma_push_drop_last(t.drop_last(), Ast::Swap(Box::new(x)));
            lemma_valid_push(s, NonTerm::MaybeSwap, tl);
        }
    } else {
        proof {
            assert(t.drop_last().push(t.last()) =~= t);
        }
    }
    Ok(())
}

/// Handle `and_v` prefixing
fn task_maybe_and_v<Ctx: ScriptContext>(
    tokens: &mut TokenIter,
    non_term: &mut Vec<NonTerm>,
    term: &mut TerminalStack<Ctx::Key>,
    Ghost(toks): Ghost<Seq<Token>>,
) -> (r: Result<(), DecodeError>)
    requires
        task_pre(toks, old(tokens)@, old(non_term)@.push(NonTerm::MaybeAndV), old(term).0@.len()),
    ensures
        kept::<Ctx>(toks, old(tokens)@, old(non_term)@.push(NonTerm::MaybeAndV), old(term).view_asts(), final(tokens)@, final(non_term)@, final(term).view_asts(), r),
{
    let ghost p = at(toks, tokens@);
    let ghost t = term.view_asts();
    let ghost tl = t.len() as int;
    let ghost s = non_term@;
    proof {
        lemma_maybe_and_v_task::<Ctx>(toks, s, t, p);
        lemma_valid_push(s, NonTerm::MaybeAndV, tl);
        lemma_suffix_is_and_v(toks, tokens@);
    }
    if is_and_v(tokens) {
        non_term.push(NonTerm::AndV);
        proof {
            lemma_valid_push(s, NonTerm::AndV, tl + 1);
            lemma_valid_push(s.push(NonTerm::AndV), NonTerm::Expression, tl);
            lemma_maybe_and_v_chain::<Ctx>(toks, s, t, p);
        }
        expression::<Ctx>(tokens, non_term, term, Ghost(toks))
    } else {
        proof {
            assert(t.drop_last().push(t.last()) =~= t);
        }
        Ok(())
    }
}

/// `TOALTSTACK [X] FROMALTSTACK`, with `X` on top.
fn task_alt<Ctx: ScriptContext>(
    tokens: &mut TokenIter,
    non_term: &mut Vec<NonTerm>,
    term: &mut TerminalStack<Ctx::Key>,
    Ghost(toks): Ghost<Seq<Token>>,
) -> (r: Result<(), DecodeError>)
    requires
        task_pre(toks, old(tokens)@, old(non_term)@.push(NonTerm::Alt), old(term).0@.len()),
    ensures
        kept::<Ctx>(toks, old(tokens)@, old(non_term)@.push(NonTerm::Alt), old(term).view_asts(), final(tokens)@, final(non_term)@, final(term).view_asts(), r),
{
    let ghost p = at(toks, tokens@);
    let ghost t = term.view_asts();
    let ghost tl = t.len() as int;
    let ghost s = non_term@;
    proof {
        lemma_alt_task::<Ctx>(toks, s, t, p);
        lemma_valid_push(s, NonTerm::Alt, tl);
    }
    match next_tok(tokens, Ghost(toks)) {
        Some(Token::ToAltStack) => {},
        Some(other) => return Err(DecodeError::Unexpected(other)),
        None => return Err(DecodeError::UnexpectedStart),
    }
    term.reduce1(Wrap1::Alt);
    Ok(())
}

/// A wrapper task `w` over the top tree.
fn task_wrap<Ctx: ScriptContext>(
    w: NonTerm,
    non_term: &mut Vec<NonTerm>,
    term: &mut TerminalStack<Ctx::Key>,
    Ghost(toks): Ghost<Seq<Token>>,
    Ghost(it): Ghost<Seq<Token>>,
)
    requires
        w is Check || w is DupIf || w is Verify || w is NonZero || w is ZeroNotEqual,
        task_pre(toks, it, old(non_term)@.push(w), old(term).0@.len()),
    ensures
        kept::<Ctx>(toks, it, old(non_term)@.push(w), old(term).view_asts(), it, final(non_term)@, final(term).view_asts(), Ok(())),
{
    let ghost p = at(toks, it);
    let ghost t = term.view_asts();
    let ghost tl = t.len() as int;
    let ghost s = non_term@;
    proof {
        lemma_valid_push(s, w, tl);
        lemma_wrap_task::<Ctx>(toks, s, w, t.drop_last(), t.last(), p);
        assert(t.drop_last().push(t.last()) =~= t);
    }
    let wrap = match w {
        NonTerm::Check => Wrap1::Check,
        NonTerm::DupIf => Wrap1::DupIf,
        NonTerm::Verify => Wrap1::Verify,
        NonTerm::NonZero => Wrap1::NonZero,
        _ => Wrap1::ZeroNotEqual,
    };
    term.reduce1(wrap);
}

/// A two-part node task `w` over the two top trees: the top one is its
/// first part.
fn task_pair<Ctx: ScriptContext>(
    w: NonTerm,
    wrap: Wrap2,
    non_term: &mut Vec<NonTerm>,
    term: &mut TerminalStack<Ctx::Key>,
    Ghost(toks): Ghost<Seq<Token>>,
    Ghost(it): Ghost<Seq<Token>>,
)
    requires
        (w is AndB && wrap is AndB) || (w is OrB && wrap is OrB) || (w is OrC && wrap is OrC) || (w is OrD && wrap is OrD),
        task_pre(toks, it, old(non_term)@.push(w), old(term).0@.len()),
    ensures
        kept::<Ctx>(toks, it, old(non_term)@.push(w), old(term).view_asts(), it, final(non_term)@, final(term).view_asts(), Ok(())),
{
    let ghost p = at(toks, it);
    let ghost t = term.view_asts();
    let ghost tl = t.len() as int;
    let ghost s = non_term@;
    proof {
        lemma_valid_push(s, w, tl);
        lemma_pair_task::<Ctx>(toks, s, w, t, p);
    }
    term.reduce2(wrap);
}

/// `and_v` over the two top trees, which goes on to the left while the
/// script goes on.
fn task_and_v<Ctx: ScriptContext>(
    tokens: &mut TokenIter,
    non_term: &mut Vec<NonTerm>,
    term: &mut TerminalStack<Ctx::Key>,
    Ghost(toks): Ghost<Seq<Token>>,
) -> (r: Result<(), DecodeError>)
    requires
        task_pre(toks, old(tokens)@, old(non_term)@.push(NonTerm::AndV), old(term).0@.len()),
    ensures
        kept::<Ctx>(toks, old(tokens)@, old(non_term)@.push(NonTerm::AndV), old(term).view_asts(), final(tokens)@, final(non_term)@, final(term).view_asts(), r),
{
    let ghost p = at(toks, tokens@);
    let ghost t = term.view_asts();
    let ghost tl = t.len() as int;
    let ghost s = non_term@;
    proof {
        lemma_and_v_task::<Ctx>(toks, s, t, p);
        lemma_valid_push(s, NonTerm::AndV, tl);
        lemma_suffix_is_and_v(toks, tokens@);
    }
    if is_and_v(tokens) {
        non_term.push(NonTerm::AndV);
        non_term.push(NonTerm::AndV);
        proof {
            let s1 = s.push(NonTerm::AndV);
            lemma_valid_push(s, NonTerm::AndV, tl);
            lemma_valid_push(s1, NonTerm::AndV, tl + 1);
            lemma_valid_push(s1.push(NonTerm::AndV), NonTerm::Expression, tl);
            lemma_and_v_chain::<Ctx>(toks, s, t, p);
        }
        expression::<Ctx>(tokens, non_term, term, Ghost(toks))
    } else {
        term.reduce2(Wrap2::AndV);
        Ok(())
    }
}

/// `andor` over the three top trees.
fn task_tern<Ctx: ScriptContext>(
    non_term: &mut Vec<NonTerm>,
    term: &mut TerminalStack<Ctx::Key>,
    Ghost(toks): Ghost<Seq<Token>>,
    Ghost(it): Ghost<Seq<Token>>,
)
    requires
        task_pre(toks, it, old(non_term)@.push(NonTerm::Tern), old(term).0@.len()),
    ensures
        kept::<Ctx>(toks, it, old(non_term)@.push(NonTerm::Tern), old(term).view_asts(), it, final(non_term)@, final(term).view_asts(), Ok(())),
{
    let ghost p = at(toks, it);
    let ghost t = term.view_asts();
    let ghost tl = t.len() as int;
    let ghost s = non_term@;
    proof {
        lemma_valid_push(s, NonTerm::Tern, tl);
        lemma_tern_task::<Ctx>(toks, s, t, p);
    }
    let a = term.pop().unwrap();
    let b = term.pop().unwrap();
    let c = term.pop().unwrap();
    let wrapped_ms = Terminal::AndOr(Box::new(a), Box::new(c), Box::new(b));
    proof {
        let o = old(term).0@;
        assert(asts(o)[tl - 1] == a.ast());
        assert(asts(o)[tl - 2] == b.ast());
        assert(asts(o)[tl - 3] == c.ast());
    }
    term.reduce0(wrapped_ms);
    proof {
        assert(asts(old(term).0@.subrange(0, tl - 3)) =~= t.subrange(0, tl - 3));
        assert(term.view_asts() =~= t.subrange(0, tl - 3).push(
            Ast::AndOr(Box::new(t[tl - 1]), Box::new(t[tl - 3]), Box::new(t[tl - 2])),
        ));
    }
}

/// `MaybeAndV` where an `and_v` goes on: it does what `AndV` over a new
/// expression does.
proof fn lemma_maybe_and_v_chain<C: ScriptContext>(toks: Seq<Token>, s: Seq<NonTerm>, t: Seq<Ast>, p: nat)
    requires
        spec_is_and_v(toks, p as int),
        t.len() >= 1,
    ensures
        cont::<C>(toks, s.push(NonTerm::AndV).push(NonTerm::Expression), t, p) == cont::<C>(toks, s.push(NonTerm::MaybeAndV), t, p),
{
    let tl = t.len() as int;
    lemma_maybe_and_v_task::<C>(toks, s, t, p);
    lemma_expr_task::<C>(toks, s.push(NonTerm::AndV), t, p);
    if let Ok((w, c)) = expr::<C>(toks, p) {
        lemma_and_v_task::<C>(toks, s, t.push(w), p + 1 + c);
        assert(t.push(w).subrange(0, tl - 1) =~= t.drop_last());
    }
}

/// `AndV` where the `and_v` goes on: two `AndV` tasks over a new expression
/// do what the first did.
proof fn lemma_and_v_chain<C: ScriptContext>(toks: Seq<Token>, s: Seq<NonTerm>, t: Seq<Ast>, p: nat)
    requires
        spec_is_and_v(toks, p as int),
        t.len() >= 2,
    ensures
        cont::<C>(toks, s.push(NonTerm::AndV).push(NonTerm::AndV).push(NonTerm::Expression), t, p) == cont::<C>(toks, s.push(NonTerm::AndV), t, p),
{
    let tl = t.len() as int;
    let s1 = s.push(NonTerm::AndV);
    lemma_and_v_task::<C>(toks, s, t, p);
    lemma_expr_task::<C>(toks, s1.push(NonTerm::AndV), t, p);
    if let Ok((w, c1)) = expr::<C>(toks, p) {
        let q = (p + 1 + c1) as nat;
        let older = t[tl - 2];
        let newer = t[tl - 1];
        lemma_and_v_task::<C>(toks, s1, t.push(w), q);
        assert(t.push(w)[tl - 1] == newer);
        if let Ok((z, c2)) = and_v::<C>(toks, newer, w, q) {
            let t2 = t.push(w).subrange(0, tl - 1).push(z);
            crate::grammar::lemma_and_v_ends::<C>(toks, newer, w, q);
            lemma_and_v_task::<C>(toks, s, t2, q + c2);
            assert(t2[tl - 2] == older);
            assert(t2.subrange(0, tl - 2) =~= t.subrange(0, tl - 2));
        }
    }
}

/// The next token of `it` is the token of `toks` at its position.
proof fn lemma_suffix_is_and_v(toks: Seq<Token>, it: Seq<Token>)
    requires
        suffix(it, toks),
    ensures
        spec_is_and_v(it, 0) == spec_is_and_v(toks, at(toks, it) as int),
        it.len() > 0 ==> it[0] == toks[at(toks, it) as int],
{
    if it.len() > 0 {
        assert(it[0] == toks.skip(toks.len() - it.len())[0]);
    }
}

/// The threshold's next part: after an `ADD` another part follows; else the
/// last one.
fn task_thresh_w<Ctx: ScriptContext>(
    k: usize,
    n: usize,
    tokens: &mut TokenIter,
    non_term: &mut Vec<NonTerm>,
    term: &mut TerminalStack<Ctx::Key>,
    Ghost(toks): Ghost<Seq<Token>>,
) -> (r: Result<(), DecodeError>)
    requires
        task_pre(toks, old(tokens)@, old(non_term)@.push(NonTerm::ThreshW { k, n }), old(term).0@.len()),
    ensures
        kept::<Ctx>(toks, old(tokens)@, old(non_term)@.push(NonTerm::ThreshW { k, n }), old(term).view_asts(), final(tokens)@, final(non_term)@, final(term).view_asts(), r),
{
    let ghost p = at(toks, tokens@);
    let ghost t = term.view_asts();
    let ghost tl = t.len() as int;
    let ghost s = non_term@;
    proof {
        lemma_valid_push(s, NonTerm::ThreshW { k, n }, tl);
        lemma_thresh_w_task::<Ctx>(toks, s, k, n, t, p);
    }
    match next_tok(tokens, Ghost(toks)) {
        Some(Token::Add) => {
            non_term.push(NonTerm::ThreshW { k, n: n + 1 });
            non_term.push(NonTerm::MaybeSwap);
            non_term.push(NonTerm::Expression);
            proof {
                lemma_thresh_add_chain::<Ctx>(toks, s, k, n, t, p);
            }
            Ok(())
        },
        Some(x) => {
            un_next_tok(tokens, x, Ghost(toks));
            non_term.push(NonTerm::ThreshE { k, n: n + 1 });
            non_term.push(NonTerm::MaybeSwap);
            proof {
                lemma_thresh_end_chain::<Ctx>(toks, s, k, n, t, p);
            }
            expression::<Ctx>(tokens, non_term, term, Ghost(toks))
        },
        None => Err(DecodeError::UnexpectedStart),
    }
}

/// After `ADD`: a part, its `SWAP`s, and the threshold goes on.
proof fn lemma_thresh_add_chain<C: ScriptContext>(toks: Seq<Token>, s: Seq<NonTerm>, k: usize, n: usize, t: Seq<Ast>, p: nat)
    requires
        p < toks.len(),
        toks[p as int] is Add,
        n <= t.len(),
        n + 1 <= usize::MAX,
        valid(s, t.len() + 1 - n),
    ensures
        ({
            let s3 = s.push(NonTerm::ThreshW { k, n: (n + 1) as usize }).push(NonTerm::MaybeSwap).push(NonTerm::Expression);
            &&& cont::<C>(toks, s3, t, p + 1) == cont::<C>(toks, s.push(NonTerm::ThreshW { k, n }), t, p)
            &&& valid(s3, t.len() as int)
        }),
{
    let tl = t.len() as int;
    let w1 = NonTerm::ThreshW { k, n: (n + 1) as usize };
    let s1 = s.push(w1);
    let s2 = s1.push(NonTerm::MaybeSwap);
    lemma_thresh_w_task::<C>(toks, s, k, n, t, p);
    lemma_expr_task::<C>(toks, s2, t, p + 1);
    if let Ok((x, c1)) = expr::<C>(toks, p + 1) {
        let q1 = (p + 2 + c1) as nat;
        lemma_maybe_swap_task::<C>(toks, s1, t.push(x), q1);
        lemma_push_drop_last(t, x);
        let (x2, c2) = maybe_swap(toks, x, q1);
        let t2 = t.push(x2);
        lemma_thresh_w_task::<C>(toks, s, k, (n + 1) as usize, t2, q1 + c2);
        assert(t2.subrange(tl - n, tl + 1) =~= t.subrange(tl - n, tl).push(x2));
        assert(t2.subrange(0, tl - n) =~= t.subrange(0, tl - n));
    }
    lemma_valid_push(s2, NonTerm::Expression, tl);
    lemma_valid_push(s1, NonTerm::MaybeSwap, tl + 1);
    lemma_valid_push(s, w1, tl + 1);
}

/// Without `ADD`: the last part, its `SWAP`s, and the threshold is made.
proof fn lemma_thresh_end_chain<C: ScriptContext>(toks: Seq<Token>, s: Seq<NonTerm>, k: usize, n: usize, t: Seq<Ast>, p: nat)
    requires
        p < toks.len(),
        !(toks[p as int] is Add),
        n <= t.len(),
        n + 1 <= usize::MAX,
        valid(s, t.len() + 1 - n),
    ensures
        ({
            let s2 = s.push(NonTerm::ThreshE { k, n: (n + 1) as usize }).push(NonTerm::MaybeSwap);
            &&& cont::<C>(toks, s2.push(NonTerm::Expression), t, p) == cont::<C>(toks, s.push(NonTerm::ThreshW { k, n }), t, p)
            &&& valid(s2.push(NonTerm::Expression), t.len() as int)
        }),
{
    let tl = t.len() as int;
    let w1 = NonTerm::ThreshE { k, n: (n + 1) as usize };
    let s1 = s.push(w1);
    let s2 = s1.push(NonTerm::MaybeSwap);
    lemma_thresh_w_task::<C>(toks, s, k, n, t, p);
    lemma_expr_task::<C>(toks, s2, t, p);
    if let Ok((x, c1)) = expr::<C>(toks, p) {
        let q1 = (p + 1 + c1) as nat;
        lemma_maybe_swap_task::<C>(toks, s1, t.push(x), q1);
        lemma_push_drop_last(t, x);
        let (x2, c2) = maybe_swap(toks, x, q1);
        let t2 = t.push(x2);
        lemma_thresh_e_task::<C>(toks, s, k, (n + 1) as usize, t2, q1 + c2);
        assert(t2.subrange(tl - n, tl + 1) =~= t.subrange(tl - n, tl).push(x2));
        assert(t2.subrange(0, tl - n) =~= t.subrange(0, tl - n));
    }
    lemma_valid_push(s2, NonTerm::Expression, tl);
    lemma_valid_push(s1, NonTerm::MaybeSwap, tl + 1);
    lemma_valid_push(s, w1, tl + 1);
}

/// The threshold over the `n` top trees, the last read first.
fn task_thresh_e<Ctx: ScriptContext>(
    k: usize,
    n: usize,
    non_term: &mut Vec<NonTerm>,
    term: &mut TerminalStack<Ctx::Key>,
    Ghost(toks): Ghost<Seq<Token>>,
    Ghost(it): Ghost<Seq<Token>>,
)
    requires
        task_pre(toks, it, old(non_term)@.push(NonTerm::ThreshE { k, n }), old(term).0@.len()),
    ensures
        kept::<Ctx>(toks, it, old(non_term)@.push(NonTerm::ThreshE { k, n }), old(term).view_asts(), it, final(non_term)@, final(term).view_asts(), Ok(())),
{
    let ghost p = at(toks, it);
    let ghost o = term.0@;
    let ghost t = term.view_asts();
    let ghost tl = t.len() as int;
    let ghost s = non_term@;
    proof {
        lemma_valid_push(s, NonTerm::ThreshE { k, n }, tl);
        lemma_thresh_e_task::<Ctx>(toks, s, k, n, t, p);
    }
    let mut subs: Vec<Terminal<Ctx::Key>> = Vec::with_capacity(n);
    let mut i: usize = 0;
    while i < n
        invariant
            0 <= i <= n <= o.len(),
            term.0@ == o.subrange(0, o.len() - i),
            subs@ == o.subrange(o.len() - i, o.len() as int).reverse(),
        decreases n - i,
    {
        let top = term.pop().unwrap();
        subs.push(top);
        i = i + 1;
        proof {
            assert(term.0@ =~= o.subrange(0, o.len() - i));
            assert(subs@ =~= o.subrange(o.len() - i, o.len() as int).reverse());
        }
    }
    let ghost subs_v = subs@;
    let ms = Terminal::Thresh(k, subs);
    proof {
        assert(ms.ast()->Thresh_1 =~= t.subrange(tl - n, tl).reverse());
        assert(ms.ast() == Ast::Thresh(k as nat, t.subrange(tl - n, tl).reverse()));
        assert(asts(term.0@) =~= t.subrange(0, tl - n));
    }
    term.reduce0(ms);
    proof {
        lemma_valid_push(s, NonTerm::ThreshE { k, n }, tl);
    }
}

/// What follows a branch that `ENDIF` closes.
fn task_endif<Ctx: ScriptContext>(
    tokens: &mut TokenIter,
    non_term: &mut Vec<NonTerm>,
    term: &mut TerminalStack<Ctx::Key>,
    Ghost(toks): Ghost<Seq<Token>>,
) -> (r: Result<(), DecodeError>)
    requires
        task_pre(toks, old(tokens)@, old(non_term)@.push(NonTerm::EndIf), old(term).0@.len()),
    ensures
        kept::<Ctx>(toks, old(tokens)@, old(non_term)@.push(NonTerm::EndIf), old(term).view_asts(), final(tokens)@, final(non_term)@, final(term).view_asts(), r),
{
    let ghost p = at(toks, tokens@);
    let ghost t = term.view_asts();
    let ghost tl = t.len() as int;
    let ghost s = non_term@;
    proof {
        lemma_valid_push(s, NonTerm::EndIf, tl);
        lemma_endif_task::<Ctx>(toks, s, t, p);
    }
    match next_tok(tokens, Ghost(toks)) {
        Some(Token::Else) => {
            non_term.push(NonTerm::EndIfElse);
            non_term.push(NonTerm::MaybeAndV);
            non_term.push(NonTerm::MaybeSwap);
            non_term.push(NonTerm::Expression);
            proof {
                lemma_endif_else_chain::<Ctx>(toks, s, t, p);
            }
            Ok(())
        },
        Some(Token::If) => match next_tok(tokens, Ghost(toks)) {
            Some(Token::Dup) => {
                non_term.push(NonTerm::DupIf);
                proof {
                    lemma_wrap_task::<Ctx>(toks, s, NonTerm::DupIf, t.drop_last(), t.last(), p + 2);
                    assert(t.drop_last().push(t.last()) =~= t);
                    lemma_valid_push(s, NonTerm::DupIf, tl);
                }
                Ok(())
            },
            Some(Token::ZeroNotEqual) => match next_tok(tokens, Ghost(toks)) {
                Some(Token::Size) => {
                    non_term.push(NonTerm::NonZero);
                    proof {
                        lemma_wrap_task::<Ctx>(toks, s, NonTerm::NonZero, t.drop_last(), t.last(), p + 3);
                        assert(t.drop_last().push(t.last()) =~= t);
                        lemma_valid_push(s, NonTerm::NonZero, tl);
                    }
                    Ok(())
                },
                Some(other) => Err(DecodeError::Unexpected(other)),
                None => Err(DecodeError::UnexpectedStart),
            },
            Some(other) => Err(DecodeError::Unexpected(other)),
            None => Err(DecodeError::UnexpectedStart),
        },
        Some(Token::NotIf) => {
            non_term.push(NonTerm::EndIfNotIf);
            proof {
                lemma_endif_notif_task::<Ctx>(toks, s, t, p + 1);
                lemma_valid_push(s, NonTerm::EndIfNotIf, tl);
            }
            Ok(())
        },
        Some(other) => Err(DecodeError::Unexpected(other)),
        None => Err(DecodeError::UnexpectedStart),
    }
}

/// After `ELSE`: the other branch, its `SWAP`s, an optional `and_v`, and what
/// follows it.
proof fn lemma_endif_else_chain<C: ScriptContext>(toks: Seq<Token>, s: Seq<NonTerm>, t: Seq<Ast>, p: nat)
    requires
        p < toks.len(),
        toks[p as int] is Else,
        t.len() >= 1,
        valid(s, t.len() as int),
    ensures
        ({
            let s4 = s.push(NonTerm::EndIfElse).push(NonTerm::MaybeAndV).push(NonTerm::MaybeSwap).push(NonTerm::Expression);
            &&& cont::<C>(toks, s4, t, p + 1) == cont::<C>(toks, s.push(NonTerm::EndIf), t, p)
            &&& valid(s4, t.len() as int)
        }),
{
    let tl = t.len() as int;
    let s1 = s.push(NonTerm::EndIfElse);
    let s2 = s1.push(NonTerm::MaybeAndV);
    let s3 = s2.push(NonTerm::MaybeSwap);
    lemma_endif_task::<C>(toks, s, t, p);
    lemma_expr_task::<C>(toks, s3, t, p + 1);
    if let Ok((z, c1)) = expr::<C>(toks, p + 1) {
        let q1 = (p + 2 + c1) as nat;
        lemma_maybe_swap_task::<C>(toks, s2, t.push(z), q1);
        lemma_push_drop_last(t, z);
        let (z2, c2) = maybe_swap(toks, z, q1);
        let q2 = q1 + c2;
        lemma_maybe_and_v_task::<C>(toks, s1, t.push(z2), q2);
        lemma_push_drop_last(t, z2);
        if let Ok((z3, c3)) = maybe_and_v::<C>(toks, z2, q2) {
            let t3 = t.push(z3);
            lemma_endif_else_task::<C>(toks, s, t3, q2 + c3);
            assert(t3.subrange(0, tl - 1) =~= t.drop_last());
        }
    }
    lemma_valid_push(s3, NonTerm::Expression, tl);
    lemma_valid_push(s2, NonTerm::MaybeSwap, tl + 1);
    lemma_valid_push(s1, NonTerm::MaybeAndV, tl + 1);
    lemma_valid_push(s, NonTerm::EndIfElse, tl + 1);
}

/// After `ENDIF [x] NOTIF`: an `or_d` or an `or_c`.
fn task_endif_notif<Ctx: ScriptContext>(
    tokens: &mut TokenIter,
    non_term: &mut Vec<NonTerm>,
    term: &mut TerminalStack<Ctx::Key>,
    Ghost(toks): Ghost<Seq<Token>>,
) -> (r: Result<(), DecodeError>)
    requires
        task_pre(toks, old(tokens)@, old(non_term)@.push(NonTerm::EndIfNotIf), old(term).0@.len()),
    ensures
        kept::<Ctx>(toks, old(tokens)@, old(non_term)@.push(NonTerm::EndIfNotIf), old(term).view_asts(), final(tokens)@, final(non_term)@, final(term).view_asts(), r),
{
    let ghost p = at(toks, tokens@);
    let ghost t = term.view_asts();
    let ghost tl = t.len() as int;
    let ghost s = non_term@;
    proof {
        lemma_valid_push(s, NonTerm::EndIfNotIf, tl);
        lemma_endif_notif_task::<Ctx>(toks, s, t, p);
    }
    match next_tok(tokens, Ghost(toks)) {
        Some(Token::IfDup) => {
            non_term.push(NonTerm::OrD);
            non_term.push(NonTerm::Expression);
            proof {
                lemma_notif_chain::<Ctx>(toks, s, NonTerm::OrD, t, p + 1);
                lemma_valid_push(s.push(NonTerm::OrD), NonTerm::Expression, tl);
                lemma_valid_push(s, NonTerm::OrD, tl + 1);
            }
            Ok(())
        },
        Some(x) => {
            un_next_tok(tokens, x, Ghost(toks));
            non_term.push(NonTerm::OrC);
            proof {
                lemma_notif_chain::<Ctx>(toks, s, NonTerm::OrC, t, p);
                lemma_valid_push(s.push(NonTerm::OrC), NonTerm::Expression, tl);
                lemma_valid_push(s, NonTerm::OrC, tl + 1);
            }
            expression::<Ctx>(tokens, non_term, term, Ghost(toks))
        },
        None => Err(DecodeError::UnexpectedStart),
    }
}

/// The `or_d` or `or_c` task `w` over a new expression from `q`.
proof fn lemma_notif_chain<C: ScriptContext>(toks: Seq<Token>, s: Seq<NonTerm>, w: NonTerm, t: Seq<Ast>, q: nat)
    requires
        w is OrD || w is OrC,
        t.len() >= 1,
    ensures
        cont::<C>(toks, s.push(w).push(NonTerm::Expression), t, q) == match expr::<C>(toks, q) {
            Ok((y, c)) => cont::<C>(toks, s, t.drop_last().push(pair_of(w, y, t.last())), q + 1 + c),
            Err(e) => Err(e),
        },
{
    let tl = t.len() as int;
    lemma_expr_task::<C>(toks, s.push(w), t, q);
    if let Ok((y, c)) = expr::<C>(toks, q) {
        lemma_pair_task::<C>(toks, s, w, t.push(y), q + 1 + c);
        assert(t.push(y).subrange(0, tl - 1) =~= t.drop_last());
    }
}

/// After `ENDIF [x] ELSE [z]`: an `or_i` or an `andor`.
fn task_endif_else<Ctx: ScriptContext>(
    tokens: &mut TokenIter,
    non_term: &mut Vec<NonTerm>,
    term: &mut TerminalStack<Ctx::Key>,
    Ghost(toks): Ghost<Seq<Token>>,
) -> (r: Result<(), DecodeError>)
    requires
        task_pre(toks, old(tokens)@, old(non_term)@.push(NonTerm::EndIfElse), old(term).0@.len()),
    ensures
        kept::<Ctx>(toks, old(tokens)@, old(non_term)@.push(NonTerm::EndIfElse), old(term).view_asts(), final(tokens)@, final(non_term)@, final(term).view_asts(), r),
{
    let ghost p = at(toks, tokens@);
    let ghost t = term.view_asts();
    let ghost tl = t.len() as int;
    let ghost s = non_term@;
    proof {
        lemma_valid_push(s, NonTerm::EndIfElse, tl);
        lemma_endif_else_task::<Ctx>(toks, s, t, p);
    }
    match next_tok(tokens, Ghost(toks)) {
        Some(Token::If) => {
            term.reduce2(Wrap2::OrI);
            Ok(())
        },
        Some(Token::NotIf) => {
            non_term.push(NonTerm::Tern);
            non_term.push(NonTerm::Expression);
            proof {
                lemma_expr_task::<Ctx>(toks, s.push(NonTerm::Tern), t, p + 1);
                if let Ok((w, c)) = expr::<Ctx>(toks, p + 1) {
                    lemma_tern_task::<Ctx>(toks, s, t.push(w), p + 2 + c);
                    assert(t.push(w).subrange(0, tl - 2) =~= t.subrange(0, tl - 2));
                }
                lemma_valid_push(s.push(NonTerm::Tern), NonTerm::Expression, tl);
                lemma_valid_push(s, NonTerm::Tern, tl + 1);
            }
            Ok(())
        },
        Some(other) => Err(DecodeError::Unexpected(other)),
        None => Err(DecodeError::UnexpectedStart),
    }
}


/// Takes up the task `x`, just taken off the task stack.
fn run_task<Ctx: ScriptContext>(
    x: NonTerm,
    tokens: &mut TokenIter,
    non_term: &mut Vec<NonTerm>,
    term: &mut TerminalStack<Ctx::Key>,
    Ghost(toks): Ghost<Seq<Token>>,
) -> (r: Result<(), DecodeError>)
    requires
        task_pre(toks, old(tokens)@, old(non_term)@.push(x), old(term).0@.len()),
    ensures
        kept::<Ctx>(toks, old(tokens)@, old(non_term)@.push(x), old(term).view_asts(), final(tokens)@, final(non_term)@, final(term).view_asts(), r),
{
    let ghost it = tokens@;
    match x {
        NonTerm::Expression => expression::<Ctx>(tokens, non_term, term, Ghost(toks)),
        NonTerm::MaybeAndV => task_maybe_and_v::<Ctx>(tokens, non_term, term, Ghost(toks)),
        NonTerm::MaybeSwap => task_maybe_swap::<Ctx>(tokens, non_term, term, Ghost(toks)),
        NonTerm::Alt => task_alt::<Ctx>(tokens, non_term, term, Ghost(toks)),
        NonTerm::Check | NonTerm::DupIf | NonTerm::Verify | NonTerm::NonZero | NonTerm::ZeroNotEqual => {
            task_wrap::<Ctx>(x, non_term, term, Ghost(toks), Ghost(it));
            Ok(())
        },
        NonTerm::AndV => task_and_v::<Ctx>(tokens, non_term, term, Ghost(toks)),
        NonTerm::AndB => {
            task_pair::<Ctx>(x, Wrap2::AndB, non_term, term, Ghost(toks), Ghost(it));
            Ok(())
        },
        NonTerm::OrB => {
            task_pair::<Ctx>(x, Wrap2::OrB, non_term, term, Ghost(toks), Ghost(it));
            Ok(())
        },
        NonTerm::OrC => {
            task_pair::<Ctx>(x, Wrap2::OrC, non_term, term, Ghost(toks), Ghost(it));
            Ok(())
        },
        NonTerm::OrD => {
            task_pair::<Ctx>(x, Wrap2::OrD, non_term, term, Ghost(toks), Ghost(it));
            Ok(())
        },
        NonTerm::Tern => {
            task_tern::<Ctx>(non_term, term, Ghost(toks), Ghost(it));
            Ok(())
        },
        NonTerm::ThreshW { k, n } => task_thresh_w::<Ctx>(k, n, tokens, non_term, term, Ghost(toks)),
        NonTerm::ThreshE { k, n } => {
            task_thresh_e::<Ctx>(k, n, non_term, term, Ghost(toks), Ghost(it));
            Ok(())
        },
        NonTerm::EndIf => task_endif::<Ctx>(tokens, non_term, term, Ghost(toks)),
        NonTerm::EndIfNotIf => task_endif_notif::<Ctx>(tokens, non_term, term, Ghost(toks)),
        NonTerm::EndIfElse => task_endif_else::<Ctx>(tokens, non_term, term, Ghost(toks)),
    }
}

/// The decoder starts with an expression, its `SWAP`s and an optional
/// `and_v`: that is what `spec_parse` reads.
proof fn lemma_start<C: ScriptContext>(toks: Seq<Token>)
    ensures
        cont::<C>(toks, seq![NonTerm::MaybeAndV, NonTerm::MaybeSwap, NonTerm::Expression], Seq::empty(), 0) == spec_parse::<C>(toks),
        valid(seq![NonTerm::MaybeAndV, NonTerm::MaybeSwap, NonTerm::Expression], 0),
{
    let s1 = seq![NonTerm::MaybeAndV];
    let s2 = s1.push(NonTerm::MaybeSwap);
    let s3 = s2.push(NonTerm::Expression);
    assert(s3 =~= seq![NonTerm::MaybeAndV, NonTerm::MaybeSwap, NonTerm::Expression]);
    let e = Seq::<Ast>::empty();
    lemma_expr_task::<C>(toks, s2, e, 0);
    if let Ok((x, c1)) = expr::<C>(toks, 0) {
        let q1 = (1 + c1) as nat;
        lemma_maybe_swap_task::<C>(toks, s1, e.push(x), q1);
        lemma_push_drop_last(e, x);
        let (x2, c2) = maybe_swap(toks, x, q1);
        let q2 = q1 + c2;
        assert(s1 =~= Seq::<NonTerm>::empty().push(NonTerm::MaybeAndV));
        lemma_maybe_and_v_task::<C>(toks, Seq::empty(), e.push(x2), q2);
        lemma_push_drop_last(e, x2);
        if let Ok((x3, c3)) = maybe_and_v::<C>(toks, x2, q2) {
            lemma_done::<C>(toks, e.push(x3), q2 + c3);
        }
    }
    lemma_valid_push(s2, NonTerm::Expression, 0);
    lemma_valid_push(s1, NonTerm::MaybeSwap, 1);
    lemma_valid_push(Seq::empty(), NonTerm::MaybeAndV, 1);
}

/// Parse a script fragment into an untyped Miniscript tree.
///
/// The tree is not type-checked, and the context's validity rules are not
/// applied: a fragment that follows the grammar but is ill-typed (such as
/// `1 0`, read as an `and_v` of `1` and `0`), a threshold with `k` of 0 or
/// above its number of parts, a multisig with `k` above its number of keys, or
/// a key that the context would refuse (such as an uncompressed key in
/// Segwit v0) is returned as it was read.
///
/// On success the tokens left are those after the fragment; on an error they
/// are still an unread tail of the tokens given.
pub fn parse<Ctx: ScriptContext>(tokens: &mut TokenIter) -> (r: Result<Terminal<Ctx::Key>, DecodeError>)
    requires
        old(tokens)@.len() < usize::MAX,
    ensures
        match (r, spec_parse::<Ctx>(old(tokens)@)) {
            (Ok(t), Ok((a, n))) => t.ast() == a && final(tokens)@ == old(tokens)@.skip(n as int),
            (Err(e), Err(k)) => e.kind() == k,
            _ => false,
        },
        final(tokens)@.len() <= old(tokens)@.len(),
        final(tokens)@ == old(tokens)@.skip(old(tokens)@.len() - final(tokens)@.len()),
{
    let ghost toks = tokens@;
    let mut non_term: Vec<NonTerm> = Vec::with_capacity(tokens.len());
    let mut term: TerminalStack<Ctx::Key> = TerminalStack(Vec::with_capacity(tokens.len()));

    non_term.push(NonTerm::MaybeAndV);
    non_term.push(NonTerm::MaybeSwap);
    non_term.push(NonTerm::Expression);
    let ghost s0 = non_term@;
    proof {
        lemma_start::<Ctx>(toks);
        assert(s0 =~= seq![NonTerm::MaybeAndV, NonTerm::MaybeSwap, NonTerm::Expression]);
        assert(term.view_asts() =~= Seq::<Ast>::empty());
        assert(tokens@ =~= toks.skip(0));
    }
    loop
        invariant
            toks == old(tokens)@,
            suffix(tokens@, toks),
            toks.len() < usize::MAX,
            valid(non_term@, term.0@.len() as int),
            term.0@.len() <= at(toks, tokens@),
            cont::<Ctx>(toks, non_term@, term.view_asts(), at(toks, tokens@)) == spec_parse::<Ctx>(toks),
        ensures
            non_term@.len() == 0,
        decreases tokens@.len(), non_term@.len(),
    {
        let ghost s = non_term@;
        let x = match non_term.pop() {
            Some(x) => x,
            None => break,
        };
        proof {
            assert(s =~= non_term@.push(x));
        }
        match run_task::<Ctx>(x, tokens, &mut non_term, &mut term, Ghost(toks)) {
            Ok(()) => {},
            Err(e) => return Err(e),
        }
    }
    proof {
        assert(non_term@ =~= Seq::<NonTerm>::empty());
        lemma_done::<Ctx>(toks, term.view_asts(), at(toks, tokens@));
    }
    let ghost t0 = term.view_asts();
    let t = term.pop().unwrap();
    proof {
        assert(t0[0] == t.ast());
        assert(tokens@ =~= toks.skip(at(toks, tokens@) as int));
    }
    Ok(t)
}

} // verus!
