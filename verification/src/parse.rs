//! The parser: from a flat sequence of tokens to a sequence of nodes.
//!
//! A program is a sequence of atoms and definitions `: name atom* ;`. The
//! grammar is stated by [`parse_from`], a recursive function on the token
//! models; [`tokens_to_ast`] is a three-state machine proved to compute it.

use vstd::prelude::*;
use crate::tok_ast::{lemma_deep_view_push, Ast, AstModel, Atom, AtomModel, Tok, TokModel};

verus! {

/// Why a token sequence is not a program.
#[derive(Debug, PartialEq, Eq)]
pub enum SyntaxError {
    /// A token that can begin neither an instruction nor a definition stands
    /// at top level.
    UnexpectedToken { position: usize, token: Tok },
    /// A `:` is followed by something other than the name of a word.
    ExpectedName { position: usize, token: Tok },
    /// A `:` stands inside the body of a definition.
    NestedDefinition { position: usize },
    /// The input ends inside the definition whose `:` is at `position`.
    UnterminatedDefinition { position: usize },
}

/// Model of a [`SyntaxError`].
pub enum SyntaxErrorModel {
    UnexpectedToken { position: int, token: TokModel },
    ExpectedName { position: int, token: TokModel },
    NestedDefinition { position: int },
    UnterminatedDefinition { position: int },
}

impl View for SyntaxError {
    type V = SyntaxErrorModel;

    open spec fn view(&self) -> SyntaxErrorModel {
        match self {
            SyntaxError::UnexpectedToken { position, token } => SyntaxErrorModel::UnexpectedToken {
                position: *position as int,
                token: token@,
            },
            SyntaxError::ExpectedName { position, token } => SyntaxErrorModel::ExpectedName {
                position: *position as int,
                token: token@,
            },
            SyntaxError::NestedDefinition { position } => SyntaxErrorModel::NestedDefinition {
                position: *position as int,
            },
            SyntaxError::UnterminatedDefinition { position } => {
                SyntaxErrorModel::UnterminatedDefinition { position: *position as int }
            },
        }
    }
}

/// Whether a token is a literal or a symbol, the two tokens that are atoms.
pub open spec fn is_atom_tok(t: TokModel) -> bool {
    t is LitTok || t is SymbolTok
}

/// The atom that an atom token stands for.
pub open spec fn atom_of(t: TokModel) -> AtomModel {
    match t {
        TokModel::LitTok(p) => AtomModel::Lit(p),
        TokModel::SymbolTok(s) => AtomModel::Symbol(s),
        _ => arbitrary(),
    }
}

/// The token that an atom is written as.
pub open spec fn tok_of(a: AtomModel) -> TokModel {
    match a {
        AtomModel::Lit(p) => TokModel::LitTok(p),
        AtomModel::Symbol(s) => TokModel::SymbolTok(s),
    }
}

/// The atoms of a run of atom tokens, in order.
pub open spec fn atoms_of(toks: Seq<TokModel>) -> Seq<AtomModel> {
    Seq::new(toks.len(), |k: int| atom_of(toks[k]))
}

/// The first position from `i` on that holds no atom token; the length of
/// `toks` if there is none.
pub open spec fn body_end(toks: Seq<TokModel>, i: int) -> int
    decreases toks.len() - i,
{
    if 0 <= i < toks.len() && is_atom_tok(toks[i]) {
        body_end(toks, i + 1)
    } else {
        i
    }
}

/// `first` followed by what `rest` gives, or the error of `rest`.
pub open spec fn prepend(
    first: Seq<AstModel>,
    rest: Result<Seq<AstModel>, SyntaxErrorModel>,
) -> Result<Seq<AstModel>, SyntaxErrorModel> {
    match rest {
        Ok(nodes) => Ok(first + nodes),
        Err(e) => Err(e),
    }
}

/// The program that the tokens from position `i` on spell, or the first
/// violation of the grammar, reading from left to right.
pub open spec fn parse_from(toks: Seq<TokModel>, i: int) -> Result<
    Seq<AstModel>,
    SyntaxErrorModel,
>
    decreases toks.len() - i,
    via parse_from_terminates
{
    if i < 0 || i >= toks.len() {
        Ok(Seq::empty())
    } else if is_atom_tok(toks[i]) {
        prepend(seq![AstModel::Simple(atom_of(toks[i]))], parse_from(toks, i + 1))
    } else if toks[i] is SemiColon {
        Err(SyntaxErrorModel::UnexpectedToken { position: i, token: toks[i] })
    } else if i + 1 >= toks.len() {
        Err(SyntaxErrorModel::UnterminatedDefinition { position: i })
    } else if !(toks[i + 1] is SymbolTok) {
        Err(SyntaxErrorModel::ExpectedName { position: i + 1, token: toks[i + 1] })
    } else {
        let end = body_end(toks, i + 2);
        if end >= toks.len() {
            Err(SyntaxErrorModel::UnterminatedDefinition { position: i })
        } else if toks[end] is Colon {
            Err(SyntaxErrorModel::NestedDefinition { position: end })
        } else {
            prepend(
                seq![
                    AstModel::WordDef(
                        toks[i + 1]->SymbolTok_0,
                        atoms_of(toks.subrange(i + 2, end)),
                    ),
                ],
                parse_from(toks, end + 1),
            )
        }
    }
}

#[via_fn]
proof fn parse_from_terminates(toks: Seq<TokModel>, i: int) {
    if 0 <= i && i + 2 <= toks.len() {
        lemma_body_end_bounds(toks, i + 2);
    }
}

/// A body ends at or after the position it is read from, and inside the input.
pub proof fn lemma_body_end_bounds(toks: Seq<TokModel>, i: int)
    requires
        0 <= i <= toks.len(),
    ensures
        i <= body_end(toks, i) <= toks.len(),
    decreases toks.len() - i,
{
    if i < toks.len() && is_atom_tok(toks[i]) {
        lemma_body_end_bounds(toks, i + 1);
    }
}

/// The program that a token sequence spells.
pub open spec fn parse_tokens(toks: Seq<TokModel>) -> Result<Seq<AstModel>, SyntaxErrorModel> {
    parse_from(toks, 0)
}

/// A definition whose `;` has not been read yet.
struct PartialDefinition {
    name: String,
    words: Vec<Atom>,
}

/// The state of the parser between two tokens.
enum DefinitionStatus {
    TopLevel,
    WaitingForName,
    ProcessingBody(PartialDefinition),
}

/// What the parser's state says of the tokens read so far: `start` is where
/// the item being read began, `i` is the next token.
spec fn status_fits(toks: Seq<TokModel>, start: int, i: int, status: DefinitionStatus) -> bool {
    match status {
        DefinitionStatus::TopLevel => start == i,
        DefinitionStatus::WaitingForName => start + 1 == i && toks[start] is Colon,
        DefinitionStatus::ProcessingBody(partial) => {
            &&& start + 2 <= i
            &&& toks[start] is Colon
            &&& toks[start + 1] == TokModel::SymbolTok(partial.name@)
            &&& forall|k: int| start + 2 <= k < i ==> is_atom_tok(#[trigger] toks[k])
            &&& partial.words.deep_view() == atoms_of(toks.subrange(start + 2, i))
        },
    }
}

/// A run of atom tokens ends where the first other token stands.
proof fn lemma_body_end(toks: Seq<TokModel>, from: int, to: int)
    requires
        0 <= from <= to <= toks.len(),
        forall|k: int| from <= k < to ==> is_atom_tok(#[trigger] toks[k]),
        to == toks.len() || !is_atom_tok(toks[to]),
    ensures
        body_end(toks, from) == to,
    decreases to - from,
{
    if from < to {
        lemma_body_end(toks, from + 1, to);
    }
}

/// Builds the program that `tokens` spell.
///
/// At top level a literal or a symbol is an instruction and `:` opens a
/// definition; the symbol after `:` names the word; the literals and symbols
/// up to the next `;` are its body. Anything else is an error, and so is the
/// end of the input inside a definition.
pub fn tokens_to_ast(tokens: &Vec<Tok>) -> (res: Result<Vec<Ast>, SyntaxError>)
    ensures
        match res {
            Ok(ast) => parse_tokens(tokens.deep_view()) == Ok::<_, SyntaxErrorModel>(
                ast.deep_view(),
            ),
            Err(e) => parse_tokens(tokens.deep_view()) == Err::<Seq<AstModel>, _>(e@),
        },
{
    let ghost toks = tokens.deep_view();
    let mut ast: Vec<Ast> = Vec::new();
    let mut status = DefinitionStatus::TopLevel;
    let mut opened: usize = 0;
    let mut i: usize = 0;
    while i < tokens.len()
        invariant
            toks == tokens.deep_view(),
            0 <= opened <= i <= tokens.len(),
            status_fits(toks, opened as int, i as int, status),
            parse_tokens(toks) == prepend(ast.deep_view(), parse_from(toks, opened as int)),
        decreases tokens.len() - i,
    {
        let tok = &tokens[i];
        assert(toks[i as int] == tok@);
        match status {
            DefinitionStatus::TopLevel => {
                match tok {
                    Tok::LitTok(prim) => {
                        let ghost before = ast;
                        let node = Ast::Simple(Atom::Lit(prim.clone()));
                        ast.push(node);
                        proof {
                            lemma_deep_view_push(before, ast, node);
                            lemma_prepend_push(
                                before.deep_view(),
                                node@,
                                parse_from(toks, i + 1),
                            );
                        }
                        opened = i + 1;
                    },
                    Tok::SymbolTok(sym) => {
                        let ghost before = ast;
                        let node = Ast::Simple(Atom::Symbol(sym.clone()));
                        ast.push(node);
                        proof {
                            lemma_deep_view_push(before, ast, node);
                            lemma_prepend_push(
                                before.deep_view(),
                                node@,
                                parse_from(toks, i + 1),
                            );
                        }
                        opened = i + 1;
                    },
                    Tok::Colon => {
                        status = DefinitionStatus::WaitingForName;
                    },
                    Tok::SemiColon => {
                        return Err(
                            SyntaxError::UnexpectedToken { position: i, token: tok.clone() },
                        );
                    },
                }
            },
            DefinitionStatus::WaitingForName => {
                match tok {
                    Tok::SymbolTok(name) => {
                        let partial = PartialDefinition { name: name.clone(), words: Vec::new() };
                        assert(partial.words.deep_view() =~= atoms_of(
                            toks.subrange(opened + 2, i + 1),
                        ));
                        status = DefinitionStatus::ProcessingBody(partial);
                    },
                    _ => {
                        return Err(SyntaxError::ExpectedName { position: i, token: tok.clone() });
                    },
                }
            },
            DefinitionStatus::ProcessingBody(partial) => {
                let mut partial = partial;
                let ghost read = toks.subrange(opened + 2, i as int);
                let ghost read_next = toks.subrange(opened + 2, i + 1);
                match tok {
                    Tok::LitTok(prim) => {
                        let ghost before = partial.words;
                        let atom = Atom::Lit(prim.clone());
                        partial.words.push(atom);
                        proof {
                            lemma_deep_view_push(before, partial.words, atom);
                            assert(atoms_of(read_next) =~= atoms_of(read).push(atom@));
                        }
                        status = DefinitionStatus::ProcessingBody(partial);
                    },
                    Tok::SymbolTok(sym) => {
                        let ghost before = partial.words;
                        let atom = Atom::Symbol(sym.clone());
                        partial.words.push(atom);
                        proof {
                            lemma_deep_view_push(before, partial.words, atom);
                            assert(atoms_of(read_next) =~= atoms_of(read).push(atom@));
                        }
                        status = DefinitionStatus::ProcessingBody(partial);
                    },
                    Tok::SemiColon => {
                        let ghost before = ast;
                        let node = Ast::WordDef(partial.name, partial.words);
                        ast.push(node);
                        proof {
                            lemma_body_end(toks, opened + 2, i as int);
                            lemma_deep_view_push(before, ast, node);
                            lemma_prepend_push(
                                before.deep_view(),
                                node@,
                                parse_from(toks, i + 1),
                            );
                        }
                        status = DefinitionStatus::TopLevel;
                        opened = i + 1;
                    },
                    Tok::Colon => {
                        proof {
                            lemma_body_end(toks, opened + 2, i as int);
                        }
                        return Err(SyntaxError::NestedDefinition { position: i });
                    },
                }
            },
        }
        i += 1;
    }
    match status {
        DefinitionStatus::TopLevel => {
            assert(ast.deep_view() + Seq::<AstModel>::empty() =~= ast.deep_view());
            Ok(ast)
        },
        DefinitionStatus::WaitingForName => Err(
            SyntaxError::UnterminatedDefinition { position: opened },
        ),
        DefinitionStatus::ProcessingBody(_) => {
            proof {
                lemma_body_end(toks, opened + 2, i as int);
            }
            Err(SyntaxError::UnterminatedDefinition { position: opened })
        },
    }
}

/// Moving the first node of what follows to the end of what came before
/// changes nothing.
proof fn lemma_prepend_push(
    done: Seq<AstModel>,
    node: AstModel,
    rest: Result<Seq<AstModel>, SyntaxErrorModel>,
)
    ensures
        prepend(done, prepend(seq![node], rest)) == prepend(done.push(node), rest),
{
    if let Ok(nodes) = rest {
        assert(done + (seq![node] + nodes) =~= done.push(node) + nodes);
    }
}

/// The tokens of the definition `: name body ;`.
pub open spec fn definition_tokens(name: Seq<char>, body: Seq<AtomModel>) -> Seq<TokModel> {
    seq![TokModel::Colon, TokModel::SymbolTok(name)] + Seq::new(
        body.len(),
        |k: int| tok_of(body[k]),
    ) + seq![TokModel::SemiColon]
}

/// A well-formed definition parses to exactly one node, which holds the
/// word's name and the atoms of its body in the order in which they were
/// written.
pub proof fn lemma_definition_parses(name: Seq<char>, body: Seq<AtomModel>)
    ensures
        parse_tokens(definition_tokens(name, body)) == Ok::<_, SyntaxErrorModel>(
            seq![AstModel::WordDef(name, body)],
        ),
{
    let toks = definition_tokens(name, body);
    let end = 2 + body.len() as int;
    assert(toks.len() == end + 1);
    assert(toks[0] is Colon);
    assert(toks[1] == TokModel::SymbolTok(name));
    assert(toks[end] is SemiColon);
    assert forall|k: int| 2 <= k < end implies is_atom_tok(#[trigger] toks[k]) by {
        assert(toks[k] == tok_of(body[k - 2]));
    }
    lemma_body_end(toks, 2, end);
    assert(atoms_of(toks.subrange(2, end)) =~= body) by {
        assert forall|k: int| 0 <= k < body.len() implies atom_of(toks.subrange(2, end)[k])
            == body[k] by {
            assert(toks[k + 2] == tok_of(body[k]));
        }
    }
    assert(parse_from(toks, end + 1) == Ok::<_, SyntaxErrorModel>(Seq::<AstModel>::empty()));
    assert(seq![AstModel::WordDef(name, body)] + Seq::<AstModel>::empty() =~= seq![
        AstModel::WordDef(name, body),
    ]);
}

/// Every token of a body is an atom, and the body stops at the end of the
/// input or at a token that is none.
pub proof fn lemma_body_end_run(toks: Seq<TokModel>, i: int)
    requires
        0 <= i <= toks.len(),
    ensures
        forall|k: int| i <= k < body_end(toks, i) ==> is_atom_tok(#[trigger] toks[k]),
        body_end(toks, i) == toks.len() || !is_atom_tok(toks[body_end(toks, i)]),
    decreases toks.len() - i,
{
    lemma_body_end_bounds(toks, i);
    if i < toks.len() && is_atom_tok(toks[i]) {
        lemma_body_end_run(toks, i + 1);
    }
}

/// A program reads the same behind any tokens that stand before it.
proof fn lemma_parse_behind(before: Seq<TokModel>, toks: Seq<TokModel>, i: int)
    requires
        0 <= i <= toks.len(),
        parse_from(toks, i) is Ok,
    ensures
        parse_from(before + toks, before.len() + i) == parse_from(toks, i),
    decreases toks.len() - i,
{
    let all = before + toks;
    let at = before.len() + i;
    if i < toks.len() {
        assert(all[at] == toks[i]);
        if is_atom_tok(toks[i]) {
            lemma_parse_behind(before, toks, i + 1);
        } else {
            assert(all[at + 1] == toks[i + 1]);
            let end = body_end(toks, i + 2);
            lemma_body_end_bounds(toks, i + 2);
            lemma_body_end_run(toks, i + 2);
            assert forall|k: int| at + 2 <= k < before.len() + end implies is_atom_tok(
                #[trigger] all[k],
            ) by {
                assert(all[k] == toks[k - before.len()]);
            }
            assert(all[before.len() + end] == toks[end]);
            lemma_body_end(all, at + 2, before.len() + end);
            assert(all.subrange(at + 2, before.len() + end) =~= toks.subrange(i + 2, end));
            lemma_parse_behind(before, toks, end + 1);
        }
    }
}

/// A program reads the same in front of any tokens that follow it, which
/// are then read from where it ends.
proof fn lemma_parse_in_front(toks: Seq<TokModel>, behind: Seq<TokModel>, i: int)
    requires
        0 <= i <= toks.len(),
        parse_from(toks, i) is Ok,
    ensures
        parse_from(toks + behind, i) == prepend(
            parse_from(toks, i)->Ok_0,
            parse_from(toks + behind, toks.len() as int),
        ),
    decreases toks.len() - i,
{
    let all = toks + behind;
    let rest = parse_from(all, toks.len() as int);
    if i < toks.len() {
        assert(all[i] == toks[i]);
        if is_atom_tok(toks[i]) {
            lemma_parse_in_front(toks, behind, i + 1);
            let node = AstModel::Simple(atom_of(toks[i]));
            lemma_prepend_twice(seq![node], parse_from(toks, i + 1)->Ok_0, rest);
        } else {
            assert(all[i + 1] == toks[i + 1]);
            let end = body_end(toks, i + 2);
            lemma_body_end_bounds(toks, i + 2);
            lemma_body_end_run(toks, i + 2);
            assert forall|k: int| i + 2 <= k < end implies is_atom_tok(#[trigger] all[k]) by {
                assert(all[k] == toks[k]);
            }
            assert(all[end] == toks[end]);
            lemma_body_end(all, i + 2, end);
            assert(all.subrange(i + 2, end) =~= toks.subrange(i + 2, end));
            lemma_parse_in_front(toks, behind, end + 1);
            let node = AstModel::WordDef(
                toks[i + 1]->SymbolTok_0,
                atoms_of(toks.subrange(i + 2, end)),
            );
            lemma_prepend_twice(seq![node], parse_from(toks, end + 1)->Ok_0, rest);
        }
    } else {
        if let Ok(nodes) = rest {
            assert(Seq::<AstModel>::empty() + nodes =~= nodes);
        }
    }
}

/// Putting two runs of nodes in front, one after the other, is putting
/// their concatenation in front.
proof fn lemma_prepend_twice(
    first: Seq<AstModel>,
    second: Seq<AstModel>,
    rest: Result<Seq<AstModel>, SyntaxErrorModel>,
)
    ensures
        prepend(first, prepend(second, rest)) == prepend(first + second, rest),
{
    if let Ok(nodes) = rest {
        assert(first + (second + nodes) =~= (first + second) + nodes);
    }
}

/// Programs compose: the tokens of one program followed by the tokens of
/// another spell the nodes of the first followed by the nodes of the second.
pub proof fn lemma_programs_concatenate(first: Seq<TokModel>, second: Seq<TokModel>)
    requires
        parse_tokens(first) is Ok,
        parse_tokens(second) is Ok,
    ensures
        parse_tokens(first + second) == Ok::<_, SyntaxErrorModel>(
            parse_tokens(first)->Ok_0 + parse_tokens(second)->Ok_0,
        ),
{
    lemma_parse_in_front(first, second, 0);
    lemma_parse_behind(first, second, 0);
}

/// A well-formed definition inside a program is one node with its name and
/// its body, between the nodes of what stands before it and the nodes of
/// what stands after it: its tokens give that node and nothing else.
pub proof fn lemma_definition_in_context(
    before: Seq<TokModel>,
    name: Seq<char>,
    body: Seq<AtomModel>,
    after: Seq<TokModel>,
)
    requires
        parse_tokens(before) is Ok,
        parse_tokens(after) is Ok,
    ensures
        parse_tokens(before + definition_tokens(name, body) + after) == Ok::<_, SyntaxErrorModel>(
            parse_tokens(before)->Ok_0 + seq![AstModel::WordDef(name, body)] + parse_tokens(
                after,
            )->Ok_0,
        ),
{
    lemma_definition_parses(name, body);
    lemma_programs_concatenate(before, definition_tokens(name, body));
    lemma_programs_concatenate(before + definition_tokens(name, body), after);
}

} // verus!
