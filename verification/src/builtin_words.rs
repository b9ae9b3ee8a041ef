//! The native operations and the dictionary that holds them.
//!
//! Each native operation is a fixed transformation of the value stack, stated
//! by [`apply_native`]. An operation that fails leaves the stack as it was.

use vstd::prelude::*;
use vstd::hash_map::StringHashMap;
use crate::tok_ast::{lemma_deep_view_push, Atom, AtomModel, Prim, PrimModel};

verus! {

/// Why an instruction could not be executed.
#[derive(Debug, PartialEq, Eq)]
pub enum VmError {
    /// A native operation needs more values than the stack holds.
    StackUnderflow,
    /// An arithmetic operation met a value that is no integer.
    TypeMismatch,
    /// The dictionary has no word of this name.
    UnknownWord(String),
}

/// Model of a [`VmError`].
pub enum VmErrorModel {
    StackUnderflow,
    TypeMismatch,
    UnknownWord(Seq<char>),
}

impl View for VmError {
    type V = VmErrorModel;

    open spec fn view(&self) -> VmErrorModel {
        match self {
            VmError::StackUnderflow => VmErrorModel::StackUnderflow,
            VmError::TypeMismatch => VmErrorModel::TypeMismatch,
            VmError::UnknownWord(name) => VmErrorModel::UnknownWord(name@),
        }
    }
}

/// The native operations.
#[derive(Clone, Copy, Debug, PartialEq, Eq, Structural)]
pub enum Builtin {
    /// `drop`: removes the top value.
    Drop,
    /// `dup`: pushes a copy of the top value.
    Dup,
    /// `dup2`: pushes copies of the top two values, in their order.
    Dup2,
    /// `swap`: exchanges the top two values.
    Swap,
    /// `+`: replaces the top two values, both integers, by their sum.
    Add,
    /// `*`: replaces the top two values, both integers, by their product.
    Mult,
    /// `.`: shows every value of the stack.
    ShowStack,
}

/// What a name of the dictionary is bound to.
#[derive(Debug, PartialEq, Eq)]
pub enum Word {
    /// A native operation.
    Native(Builtin),
    /// A body of atoms, executed by putting them in front of the pending
    /// instructions.
    Compound(Vec<Atom>),
}

/// Model of a [`Word`].
pub enum WordModel {
    Native(Builtin),
    Compound(Seq<AtomModel>),
}

impl View for Word {
    type V = WordModel;

    open spec fn view(&self) -> WordModel {
        match self {
            Word::Native(op) => WordModel::Native(*op),
            Word::Compound(body) => WordModel::Compound(body.deep_view()),
        }
    }
}

/// The number in the range of `i64` that differs from `n` by a multiple of
/// 2^64: what 64-bit arithmetic in two's complement makes of `n`.
pub open spec fn wrap_i64(n: int) -> int {
    let low = n % 0x1_0000_0000_0000_0000;
    if low > i64::MAX {
        low - 0x1_0000_0000_0000_0000
    } else {
        low
    }
}

/// How many values an operation needs on the stack.
pub open spec fn arity(op: Builtin) -> nat {
    match op {
        Builtin::Drop | Builtin::Dup => 1,
        Builtin::Dup2 | Builtin::Swap | Builtin::Add | Builtin::Mult => 2,
        Builtin::ShowStack => 0,
    }
}

/// The stack that a native operation makes of `stack`, or why it fails.
///
/// The top of the stack is its last value. An operation fails with
/// `StackUnderflow` when the stack holds fewer values than it needs; `+` and
/// `*` fail with `TypeMismatch` when one of the top two values is no integer,
/// and compute in 64-bit two's complement.
pub open spec fn apply_native(op: Builtin, stack: Seq<PrimModel>) -> Result<
    Seq<PrimModel>,
    VmErrorModel,
> {
    let n = stack.len() as int;
    if n < arity(op) {
        Err(VmErrorModel::StackUnderflow)
    } else {
        match op {
            Builtin::Drop => Ok(stack.drop_last()),
            Builtin::Dup => Ok(stack.push(stack[n - 1])),
            Builtin::Dup2 => Ok(stack.push(stack[n - 2]).push(stack[n - 1])),
            Builtin::Swap => Ok(stack.take(n - 2).push(stack[n - 1]).push(stack[n - 2])),
            Builtin::Add => match (stack[n - 2], stack[n - 1]) {
                (PrimModel::Int(a), PrimModel::Int(b)) => Ok(
                    stack.take(n - 2).push(PrimModel::Int(wrap_i64(a + b))),
                ),
                _ => Err(VmErrorModel::TypeMismatch),
            },
            Builtin::Mult => match (stack[n - 2], stack[n - 1]) {
                (PrimModel::Int(a), PrimModel::Int(b)) => Ok(
                    stack.take(n - 2).push(PrimModel::Int(wrap_i64(a * b))),
                ),
                _ => Err(VmErrorModel::TypeMismatch),
            },
            Builtin::ShowStack => Ok(stack),
        }
    }
}

/// What a call of a native operation has done: on success the stack is what
/// [`apply_native`] says, on failure the error is the one it gives and the
/// stack is as before.
pub open spec fn native_result(
    op: Builtin,
    before: Seq<PrimModel>,
    after: Seq<PrimModel>,
    res: Result<(), VmError>,
) -> bool {
    match apply_native(op, before) {
        Ok(stack) => res is Ok && after == stack,
        Err(e) => res is Err && res->Err_0@ == e && after == before,
    }
}

/// Removing the last element of a vector removes the last element of its
/// model.
pub proof fn lemma_deep_view_pop<T: DeepView>(before: Vec<T>, after: Vec<T>)
    requires
        before@.len() > 0,
        after@ == before@.subrange(0, before@.len() - 1),
    ensures
        after.deep_view() == before.deep_view().drop_last(),
{
    assert(after.deep_view() =~= before.deep_view().drop_last());
}

/// The top value of the stack, taken off it.
fn pop_value(stack: &mut Vec<Prim>) -> (top: Prim)
    requires
        old(stack).len() > 0,
    ensures
        top@ == old(stack).deep_view().last(),
        final(stack).deep_view() == old(stack).deep_view().drop_last(),
        final(stack).len() == old(stack).len() - 1,
{
    let ghost before = *stack;
    let top = stack.pop().unwrap();
    proof {
        lemma_deep_view_pop(before, *stack);
    }
    top
}

/// `value` put on top of the stack.
pub(crate) fn push_value(stack: &mut Vec<Prim>, value: Prim)
    ensures
        final(stack).deep_view() == old(stack).deep_view().push(value@),
        final(stack).len() == old(stack).len() + 1,
{
    let ghost before = *stack;
    stack.push(value);
    proof {
        lemma_deep_view_push(before, *stack, value);
    }
}

/// The integer that is `below` places under the top of the stack, if the
/// value there is one.
fn int_at(stack: &Vec<Prim>, below: usize) -> (res: Option<i64>)
    requires
        below < stack.len(),
    ensures
        res == match stack.deep_view()[stack.len() - 1 - below] {
            PrimModel::Int(n) => Some(n as i64),
            PrimModel::Str(_) => None,
        },
        res matches Some(n) ==> stack.deep_view()[stack.len() - 1 - below] == PrimModel::Int(
            n as int,
        ),
{
    match &stack[stack.len() - 1 - below] {
        Prim::Int(n) => Some(*n),
        Prim::Str(_) => None,
    }
}

/// `drop`: removes the top value.
pub fn bi_drop(stack: &mut Vec<Prim>) -> (res: Result<(), VmError>)
    ensures
        native_result(Builtin::Drop, old(stack).deep_view(), final(stack).deep_view(), res),
{
    if stack.len() < 1 {
        return Err(VmError::StackUnderflow);
    }
    let _ = pop_value(stack);
    Ok(())
}

/// `dup`: pushes a copy of the top value.
pub fn bi_dup(stack: &mut Vec<Prim>) -> (res: Result<(), VmError>)
    ensures
        native_result(Builtin::Dup, old(stack).deep_view(), final(stack).deep_view(), res),
{
    if stack.len() < 1 {
        return Err(VmError::StackUnderflow);
    }
    let i0 = stack[stack.len() - 1].clone();
    push_value(stack, i0);
    Ok(())
}

/// `dup2`: pushes copies of the top two values, in their order.
pub fn bi_dup2(stack: &mut Vec<Prim>) -> (res: Result<(), VmError>)
    ensures
        native_result(Builtin::Dup2, old(stack).deep_view(), final(stack).deep_view(), res),
{
    if stack.len() < 2 {
        return Err(VmError::StackUnderflow);
    }
    let i0 = stack[stack.len() - 1].clone();
    let i1 = stack[stack.len() - 2].clone();
    push_value(stack, i1);
    push_value(stack, i0);
    Ok(())
}

/// `swap`: exchanges the top two values.
pub fn bi_swap(stack: &mut Vec<Prim>) -> (res: Result<(), VmError>)
    ensures
        native_result(Builtin::Swap, old(stack).deep_view(), final(stack).deep_view(), res),
{
    if stack.len() < 2 {
        return Err(VmError::StackUnderflow);
    }
    let ghost before = stack.deep_view();
    let i0 = pop_value(stack);
    let i1 = pop_value(stack);
    assert(stack.deep_view() =~= before.take(before.len() - 2));
    push_value(stack, i0);
    push_value(stack, i1);
    Ok(())
}

/// `+`: replaces the top two values, both integers, by their sum.
pub fn bi_add(stack: &mut Vec<Prim>) -> (res: Result<(), VmError>)
    ensures
        native_result(Builtin::Add, old(stack).deep_view(), final(stack).deep_view(), res),
{
    if stack.len() < 2 {
        return Err(VmError::StackUnderflow);
    }
    let ghost before = stack.deep_view();
    match (int_at(stack, 1), int_at(stack, 0)) {
        (Some(n1), Some(n0)) => {
            let out = Prim::Int(n1.wrapping_add(n0));
            assert(out@ == PrimModel::Int(wrap_i64(n1 + n0)));
            let _ = pop_value(stack);
            let _ = pop_value(stack);
            assert(stack.deep_view() =~= before.take(before.len() - 2));
            push_value(stack, out);
            Ok(())
        },
        _ => Err(VmError::TypeMismatch),
    }
}

/// `*`: replaces the top two values, both integers, by their product.
pub fn bi_mult(stack: &mut Vec<Prim>) -> (res: Result<(), VmError>)
    ensures
        native_result(Builtin::Mult, old(stack).deep_view(), final(stack).deep_view(), res),
{
    if stack.len() < 2 {
        return Err(VmError::StackUnderflow);
    }
    let ghost before = stack.deep_view();
    match (int_at(stack, 1), int_at(stack, 0)) {
        (Some(n1), Some(n0)) => {
            let out = Prim::Int(n1.wrapping_mul(n0));
            assert(out@ == PrimModel::Int(wrap_i64(n1 * n0)));
            let _ = pop_value(stack);
            let _ = pop_value(stack);
            assert(stack.deep_view() =~= before.take(before.len() - 2));
            push_value(stack, out);
            Ok(())
        },
        _ => Err(VmError::TypeMismatch),
    }
}

/// `.`: the values of the stack, from the bottom to the top, for the caller
/// to show. The stack itself is left as it is.
pub fn bi_show_stack(stack: &Vec<Prim>) -> (shown: Vec<Prim>)
    ensures
        shown.deep_view() == stack.deep_view(),
{
    let mut shown: Vec<Prim> = Vec::new();
    let mut i: usize = 0;
    while i < stack.len()
        invariant
            i <= stack.len(),
            shown.deep_view() =~= stack.deep_view().take(i as int),
        decreases stack.len() - i,
    {
        let ghost before = shown;
        let value = stack[i].clone();
        shown.push(value);
        proof {
            lemma_deep_view_push(before, shown, value);
        }
        i += 1;
    }
    shown
}

/// The dictionary: from the name of a word to what it is bound to. A name
/// is bound at most once, and binding it again replaces what it was bound to.
pub struct WordMap {
    words: StringHashMap<Word>,
}

impl View for WordMap {
    type V = Map<Seq<char>, WordModel>;

    closed spec fn view(&self) -> Map<Seq<char>, WordModel> {
        self.words@.map_values(|w: Word| w@)
    }
}

impl WordMap {
    /// The dictionary without any word.
    pub fn new() -> (res: Self)
        ensures
            res@ == Map::<Seq<char>, WordModel>::empty(),
    {
        let res = WordMap { words: StringHashMap::new() };
        assert(res@ =~= Map::<Seq<char>, WordModel>::empty());
        res
    }

    /// Binds `name` to `word`, and says whether `name` was bound before.
    pub fn insert(&mut self, name: String, word: Word) -> (replaced: bool)
        ensures
            final(self)@ == old(self)@.insert(name@, word@),
            replaced == old(self)@.contains_key(name@),
    {
        let replaced = self.words.contains_key(name.as_str());
        self.words.insert(name, word);
        assert(self@ =~= old(self)@.insert(name@, word@));
        replaced
    }

    /// What `name` is bound to, if it is bound.
    pub fn get(&self, name: &str) -> (res: Option<&Word>)
        ensures
            match res {
                Some(word) => self@.contains_key(name@) && self@[name@] == word@,
                None => !self@.contains_key(name@),
            },
    {
        self.words.get(name)
    }
}

/// The dictionary of a new engine: the seven native operations under their
/// names.
pub open spec fn initial_words() -> Map<Seq<char>, WordModel> {
    Map::<Seq<char>, WordModel>::empty().insert("drop"@, WordModel::Native(Builtin::Drop)).insert(
        "dup"@,
        WordModel::Native(Builtin::Dup),
    ).insert("dup2"@, WordModel::Native(Builtin::Dup2)).insert(
        "swap"@,
        WordModel::Native(Builtin::Swap),
    ).insert("+"@, WordModel::Native(Builtin::Add)).insert(
        "*"@,
        WordModel::Native(Builtin::Mult),
    ).insert("."@, WordModel::Native(Builtin::ShowStack))
}

/// The dictionary that an engine starts with.
pub fn initial_word_map() -> (word_map: WordMap)
    ensures
        word_map@ == initial_words(),
{
    let mut word_map = WordMap::new();
    word_map.insert("drop".to_owned(), Word::Native(Builtin::Drop));
    word_map.insert("dup".to_owned(), Word::Native(Builtin::Dup));
    word_map.insert("dup2".to_owned(), Word::Native(Builtin::Dup2));
    word_map.insert("swap".to_owned(), Word::Native(Builtin::Swap));
    word_map.insert("+".to_owned(), Word::Native(Builtin::Add));
    word_map.insert("*".to_owned(), Word::Native(Builtin::Mult));
    word_map.insert(".".to_owned(), Word::Native(Builtin::ShowStack));
    word_map
}

/// The seven names of the initial dictionary are seven different names, each
/// bound to its own operation, and no other name is bound.
pub proof fn lemma_initial_words()
    ensures
        initial_words().dom() =~= set!["drop"@, "dup"@, "dup2"@, "swap"@, "+"@, "*"@, "."@],
        initial_words()["drop"@] == WordModel::Native(Builtin::Drop),
        initial_words()["dup"@] == WordModel::Native(Builtin::Dup),
        initial_words()["dup2"@] == WordModel::Native(Builtin::Dup2),
        initial_words()["swap"@] == WordModel::Native(Builtin::Swap),
        initial_words()["+"@] == WordModel::Native(Builtin::Add),
        initial_words()["*"@] == WordModel::Native(Builtin::Mult),
        initial_words()["."@] == WordModel::Native(Builtin::ShowStack),
{
    reveal_strlit("drop");
    reveal_strlit("dup");
    reveal_strlit("dup2");
    reveal_strlit("swap");
    reveal_strlit("+");
    reveal_strlit("*");
    reveal_strlit(".");
    assert("drop"@[1] == 'r' && "dup"@[1] == 'u' && "dup2"@[1] == 'u');
    assert("dup"@.len() == 3 && "dup2"@.len() == 4);
    assert("drop"@[0] == 'd' && "dup"@[0] == 'd' && "dup2"@[0] == 'd');
    assert("swap"@[0] == 's' && "+"@[0] == '+' && "*"@[0] == '*' && "."@[0] == '.');
}

} // verus!
