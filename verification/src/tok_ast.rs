//! The vocabulary shared by the lexer, the parser and the engine, with the
//! mathematical model of each type.
//!
//! Every executable type has a model that replaces `String` by `Seq<char>`,
//! `i64` by `int` and `Vec` by `Seq`; the model is the type's view, and all
//! contracts of the crate are stated over models.

use vstd::prelude::*;

verus! {

/// A runtime value: the only kind of value on the stack, and the payload of a
/// literal.
#[derive(Debug, PartialEq, Eq)]
pub enum Prim {
    Str(String),
    Int(i64),
}

/// A lexical token.
#[derive(Debug, PartialEq, Eq)]
pub enum Tok {
    LitTok(Prim),
    SemiColon,
    Colon,
    SymbolTok(String),
}

/// The unit of executable content, at top level and inside a word's body.
#[derive(Debug, PartialEq, Eq)]
pub enum Atom {
    Lit(Prim),
    Symbol(String),
}

/// A node of a parsed program: one atom to execute, or the definition of a
/// word by its name and body.
#[derive(Debug, PartialEq, Eq)]
pub enum Ast {
    Simple(Atom),
    WordDef(String, Vec<Atom>),
}

/// Model of a [`Prim`].
pub enum PrimModel {
    Str(Seq<char>),
    Int(int),
}

/// Model of a [`Tok`].
pub enum TokModel {
    LitTok(PrimModel),
    SemiColon,
    Colon,
    SymbolTok(Seq<char>),
}

/// Model of an [`Atom`].
pub enum AtomModel {
    Lit(PrimModel),
    Symbol(Seq<char>),
}

/// Model of an [`Ast`].
pub enum AstModel {
    Simple(AtomModel),
    WordDef(Seq<char>, Seq<AtomModel>),
}

impl View for Prim {
    type V = PrimModel;

    open spec fn view(&self) -> PrimModel {
        match self {
            Prim::Str(s) => PrimModel::Str(s@),
            Prim::Int(n) => PrimModel::Int(*n as int),
        }
    }
}

impl DeepView for Prim {
    type V = PrimModel;

    open spec fn deep_view(&self) -> PrimModel {
        self@
    }
}

impl View for Tok {
    type V = TokModel;

    open spec fn view(&self) -> TokModel {
        match self {
            Tok::LitTok(p) => TokModel::LitTok(p@),
            Tok::SemiColon => TokModel::SemiColon,
            Tok::Colon => TokModel::Colon,
            Tok::SymbolTok(s) => TokModel::SymbolTok(s@),
        }
    }
}

impl DeepView for Tok {
    type V = TokModel;

    open spec fn deep_view(&self) -> TokModel {
        self@
    }
}

impl View for Atom {
    type V = AtomModel;

    open spec fn view(&self) -> AtomModel {
        match self {
            Atom::Lit(p) => AtomModel::Lit(p@),
            Atom::Symbol(s) => AtomModel::Symbol(s@),
        }
    }
}

impl DeepView for Atom {
    type V = AtomModel;

    open spec fn deep_view(&self) -> AtomModel {
        self@
    }
}

impl View for Ast {
    type V = AstModel;

    open spec fn view(&self) -> AstModel {
        match self {
            Ast::Simple(a) => AstModel::Simple(a@),
            Ast::WordDef(name, body) => AstModel::WordDef(name@, body.deep_view()),
        }
    }
}

impl DeepView for Ast {
    type V = AstModel;

    open spec fn deep_view(&self) -> AstModel {
        self@
    }
}

impl Clone for Prim {
    fn clone(&self) -> (res: Self)
        ensures
            res@ == self@,
    {
        match self {
            Prim::Str(s) => Prim::Str(s.clone()),
            Prim::Int(n) => Prim::Int(*n),
        }
    }
}

impl Clone for Tok {
    fn clone(&self) -> (res: Self)
        ensures
            res@ == self@,
    {
        match self {
            Tok::LitTok(p) => Tok::LitTok(p.clone()),
            Tok::SemiColon => Tok::SemiColon,
            Tok::Colon => Tok::Colon,
            Tok::SymbolTok(s) => Tok::SymbolTok(s.clone()),
        }
    }
}

impl Clone for Atom {
    fn clone(&self) -> (res: Self)
        ensures
            res@ == self@,
    {
        match self {
            Atom::Lit(p) => Atom::Lit(p.clone()),
            Atom::Symbol(s) => Atom::Symbol(s.clone()),
        }
    }
}

impl Clone for Ast {
    fn clone(&self) -> (res: Self)
        ensures
            res@ == self@,
    {
        match self {
            Ast::Simple(a) => Ast::Simple(a.clone()),
            Ast::WordDef(name, body) => Ast::WordDef(name.clone(), clone_atoms(body)),
        }
    }
}

/// A copy of a sequence of atoms, atom by atom.
pub fn clone_atoms(atoms: &Vec<Atom>) -> (res: Vec<Atom>)
    ensures
        res.deep_view() == atoms.deep_view(),
{
    let mut res: Vec<Atom> = Vec::new();
    let mut i: usize = 0;
    while i < atoms.len()
        invariant
            i <= atoms.len(),
            res.deep_view() =~= atoms.deep_view().take(i as int),
        decreases atoms.len() - i,
    {
        let ghost before = res;
        let atom = atoms[i].clone();
        res.push(atom);
        proof {
            lemma_deep_view_push(before, res, atom);
        }
        i += 1;
    }
    res
}

/// Pushing onto a vector pushes the element's model onto the vector's model.
pub proof fn lemma_deep_view_push<T: DeepView>(before: Vec<T>, after: Vec<T>, last: T)
    requires
        after@ == before@.push(last),
    ensures
        after.deep_view() == before.deep_view().push(last.deep_view()),
{
    assert(after.deep_view() =~= before.deep_view().push(last.deep_view()));
}

} // verus!
