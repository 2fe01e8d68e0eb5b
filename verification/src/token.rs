use vstd::prelude::*;

verus! {

/// A lexed script token.
///
/// The lexer hands the tokens of a script out from its last opcode to its
/// first one, and splits every `*VERIFY` opcode into the plain opcode followed
/// by `Verify`; pushes of 20, 32, 33 and 65 bytes and small numbers have
/// tokens of their own.
#[derive(Clone, Copy, Debug, PartialEq, Eq)]
pub enum Token {
    BoolAnd,
    BoolOr,
    Add,
    Equal,
    NumEqual,
    CheckSig,
    CheckSigAdd,
    CheckMultiSig,
    CheckSequenceVerify,
    CheckLockTimeVerify,
    FromAltStack,
    ToAltStack,
    Drop,
    Dup,
    If,
    IfDup,
    NotIf,
    Else,
    EndIf,
    ZeroNotEqual,
    Size,
    Swap,
    Verify,
    Ripemd160,
    Hash160,
    Sha256,
    Hash256,
    Num(u32),
    Hash20([u8; 20]),
    Bytes32([u8; 32]),
    Bytes33([u8; 33]),
    Bytes65([u8; 65]),
}

/// Whether the token at `pos` of `toks` continues an `and_v`: there is a
/// token there, and it is none of `IF`, `NOTIF`, `ELSE`, `TOALTSTACK`.
pub open spec fn spec_is_and_v(toks: Seq<Token>, pos: int) -> bool {
    &&& 0 <= pos < toks.len()
    &&& !(toks[pos] is If)
    &&& !(toks[pos] is NotIf)
    &&& !(toks[pos] is Else)
    &&& !(toks[pos] is ToAltStack)
}

/// The tokens of a script, handed out from the last one to the first.
///
/// It holds them in script order and takes them from the end.
pub struct TokenIter {
    script: Vec<Token>,
}

impl View for TokenIter {
    type V = Seq<Token>;

    /// The tokens left, in the order in which they are handed out.
    closed spec fn view(&self) -> Seq<Token> {
        self.script@.reverse()
    }
}

impl TokenIter {
    /// Iterates over the tokens of a script, given in script order.
    pub fn new(script: Vec<Token>) -> (r: TokenIter)
        ensures
            r@ == script@.reverse(),
    {
        TokenIter { script }
    }

    /// The number of tokens left.
    pub fn len(&self) -> (r: usize)
        ensures
            r == self@.len(),
    {
        self.script.len()
    }

    /// The next token, without taking it.
    pub fn peek(&self) -> (r: Option<&Token>)
        ensures
            self@.len() == 0 ==> r is None,
            self@.len() > 0 ==> r == Some(&self@[0]),
    {
        let n = self.script.len();
        if n == 0 {
            None
        } else {
            Some(&self.script[n - 1])
        }
    }

    /// Takes the next token.
    pub fn next(&mut self) -> (r: Option<Token>)
        ensures
            old(self)@.len() == 0 ==> r is None && final(self)@ == old(self)@,
            old(self)@.len() > 0 ==> r == Some(old(self)@[0]) && final(self)@ == old(self)@.drop_first(),
    {
        let r = self.script.pop();
        proof {
            if old(self).script@.len() > 0 {
                assert(self.script@.reverse() =~= old(self).script@.reverse().drop_first());
            } else {
                assert(self.script@.reverse() =~= old(self).script@.reverse());
            }
        }
        r
    }

    /// Hands the token `tok` out again as the next one.
    pub fn un_next(&mut self, tok: Token)
        ensures
            final(self)@ == seq![tok] + old(self)@,
    {
        self.script.push(tok);
        proof {
            assert(self.script@.reverse() =~= seq![tok] + old(self).script@.reverse());
        }
    }
}

/// Handing the token just taken back restores the tokens left: `un_next`
/// with what `next` returned undoes that `next`.
pub proof fn un_next_undoes_next(left: Seq<Token>)
    requires
        left.len() > 0,
    ensures
        seq![left[0]] + left.drop_first() == left,
{
    assert(seq![left[0]] + left.drop_first() =~= left);
}

/// Tells whether the next token continues an `and_v` (see `spec_is_and_v`).
pub fn is_and_v(tokens: &TokenIter) -> (r: bool)
    ensures
        r == spec_is_and_v(tokens@, 0),
{
    match tokens.peek() {
        None => false,
        Some(t) => match t {
            Token::If | Token::NotIf | Token::Else | Token::ToAltStack => false,
            _ => true,
        },
    }
}

} // verus!
