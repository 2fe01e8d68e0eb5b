use vstd::prelude::*;

use crate::keys::ParseableKey;

verus! {

/// The mathematical form of a Miniscript tree: keys by their serialization,
/// hashes by their bytes.
pub enum Ast {
    True,
    False,
    PkK(Seq<u8>),
    PkH(Seq<u8>),
    After(u32),
    Older(u32),
    Sha256(Seq<u8>),
    Hash256(Seq<u8>),
    Ripemd160(Seq<u8>),
    Hash160(Seq<u8>),
    Alt(Box<Ast>),
    Swap(Box<Ast>),
    Check(Box<Ast>),
    DupIf(Box<Ast>),
    Verify(Box<Ast>),
    NonZero(Box<Ast>),
    ZeroNotEqual(Box<Ast>),
    AndV(Box<Ast>, Box<Ast>),
    AndB(Box<Ast>, Box<Ast>),
    AndOr(Box<Ast>, Box<Ast>, Box<Ast>),
    OrB(Box<Ast>, Box<Ast>),
    OrD(Box<Ast>, Box<Ast>),
    OrC(Box<Ast>, Box<Ast>),
    OrI(Box<Ast>, Box<Ast>),
    Thresh(nat, Seq<Ast>),
    Multi(nat, Seq<Seq<u8>>),
}

/// All AST elements
#[derive(Debug, PartialEq, Eq, PartialOrd, Ord, Hash)]
pub enum Terminal<Pk: ParseableKey> {
    /// `1`
    True,
    /// `0`
    False,
    /// `<key>`
    PkK(Pk),
    /// `DUP HASH160 <keyhash> EQUALVERIFY`
    PkH([u8; 20]),
    /// `n CHECKLOCKTIMEVERIFY`
    After(u32),
    /// `n CHECKSEQUENCEVERIFY`
    Older(u32),
    /// `SIZE 32 EQUALVERIFY SHA256 <hash> EQUAL`
    Sha256([u8; 32]),
    /// `SIZE 32 EQUALVERIFY HASH256 <hash> EQUAL`
    Hash256([u8; 32]),
    /// `SIZE 32 EQUALVERIFY RIPEMD160 <hash> EQUAL`
    Ripemd160([u8; 20]),
    /// `SIZE 32 EQUALVERIFY HASH160 <hash> EQUAL`
    Hash160([u8; 20]),
    /// `TOALTSTACK [E] FROMALTSTACK`
    Alt(Box<Terminal<Pk>>),
    /// `SWAP [E1]`
    Swap(Box<Terminal<Pk>>),
    /// `[Kt]/[Ke] CHECKSIG`
    Check(Box<Terminal<Pk>>),
    /// `DUP IF [V] ENDIF`
    DupIf(Box<Terminal<Pk>>),
    /// [T] VERIFY
    Verify(Box<Terminal<Pk>>),
    /// SIZE 0NOTEQUAL IF [Fn] ENDIF
    NonZero(Box<Terminal<Pk>>),
    /// [X] 0NOTEQUAL
    ZeroNotEqual(Box<Terminal<Pk>>),
    /// [V] [T]/[V]/[F]/[Kt]
    AndV(Box<Terminal<Pk>>, Box<Terminal<Pk>>),
    /// [E] [W] BOOLAND
    AndB(Box<Terminal<Pk>>, Box<Terminal<Pk>>),
    /// [various] NOTIF [various] ELSE [various] ENDIF
    AndOr(Box<Terminal<Pk>>, Box<Terminal<Pk>>, Box<Terminal<Pk>>),
    /// [E] [W] BOOLOR
    OrB(Box<Terminal<Pk>>, Box<Terminal<Pk>>),
    /// [E] IFDUP NOTIF [T]/[E] ENDIF
    OrD(Box<Terminal<Pk>>, Box<Terminal<Pk>>),
    /// [E] NOTIF [V] ENDIF
    OrC(Box<Terminal<Pk>>, Box<Terminal<Pk>>),
    /// IF [various] ELSE [various] ENDIF
    OrI(Box<Terminal<Pk>>, Box<Terminal<Pk>>),
    /// [E] ([W] ADD)* k EQUAL
    Thresh(usize, Vec<Terminal<Pk>>),
    /// k (<key>)* n CHECKMULTISIG
    Multi(usize, Vec<Pk>),
}

impl<Pk: ParseableKey> Terminal<Pk> {
    /// The tree as an `Ast`.
    pub open spec fn ast(&self) -> Ast
        decreases self,
    {
        match self {
            Terminal::True => Ast::True,
            Terminal::False => Ast::False,
            Terminal::PkK(k) => Ast::PkK(k.key_bytes()),
            Terminal::PkH(h) => Ast::PkH(h@),
            Terminal::After(n) => Ast::After(*n),
            Terminal::Older(n) => Ast::Older(*n),
            Terminal::Sha256(h) => Ast::Sha256(h@),
            Terminal::Hash256(h) => Ast::Hash256(h@),
            Terminal::Ripemd160(h) => Ast::Ripemd160(h@),
            Terminal::Hash160(h) => Ast::Hash160(h@),
            Terminal::Alt(x) => Ast::Alt(Box::new(x.ast())),
            Terminal::Swap(x) => Ast::Swap(Box::new(x.ast())),
            Terminal::Check(x) => Ast::Check(Box::new(x.ast())),
            Terminal::DupIf(x) => Ast::DupIf(Box::new(x.ast())),
            Terminal::Verify(x) => Ast::Verify(Box::new(x.ast())),
            Terminal::NonZero(x) => Ast::NonZero(Box::new(x.ast())),
            Terminal::ZeroNotEqual(x) => Ast::ZeroNotEqual(Box::new(x.ast())),
            Terminal::AndV(x, y) => Ast::AndV(Box::new(x.ast()), Box::new(y.ast())),
            Terminal::AndB(x, y) => Ast::AndB(Box::new(x.ast()), Box::new(y.ast())),
            Terminal::AndOr(x, y, z) => Ast::AndOr(Box::new(x.ast()), Box::new(y.ast()), Box::new(z.ast())),
            Terminal::OrB(x, y) => Ast::OrB(Box::new(x.ast()), Box::new(y.ast())),
            Terminal::OrD(x, y) => Ast::OrD(Box::new(x.ast()), Box::new(y.ast())),
            Terminal::OrC(x, y) => Ast::OrC(Box::new(x.ast()), Box::new(y.ast())),
            Terminal::OrI(x, y) => Ast::OrI(Box::new(x.ast()), Box::new(y.ast())),
            Terminal::Thresh(k, subs) => Ast::Thresh(*k as nat, Seq::new(subs@.len(), |i: int| {
                if 0 <= i < subs@.len() {
                    proof {
                        vstd::std_specs::vec::axiom_vec_index_decreases(*subs, i);
                    }
                    subs@[i].ast()
                } else {
                    Ast::True
                }
            })),
            Terminal::Multi(k, keys) => Ast::Multi(*k as nat, keys@.map_values(|key: Pk| key.key_bytes())),
        }
    }
}

} // verus!
