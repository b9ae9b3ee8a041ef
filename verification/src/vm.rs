//! The execution engine: a value stack, a queue of pending instructions and a
//! dictionary of words.
//!
//! [`step`] states what executing the first pending instruction does to the
//! model of an engine; [`Vm::execute`] is proved to do exactly that. The
//! engine itself shows nothing: what there is to show comes back as an
//! [`Output`] for the caller, who drives the engine step by step.

use std::collections::VecDeque;
use vstd::prelude::*;
use crate::builtin_words::{
    apply_native,
    bi_add,
    bi_drop,
    bi_dup,
    bi_dup2,
    bi_mult,
    bi_show_stack,
    bi_swap,
    initial_word_map,
    initial_words,
    push_value,
    Builtin,
    VmError,
    VmErrorModel,
    Word,
    WordMap,
    WordModel,
};
use crate::tok_ast::{Ast, AstModel, Atom, AtomModel, Prim, PrimModel};

verus! {

/// What a step leaves for the caller to show.
#[derive(Debug, PartialEq, Eq)]
pub enum Output {
    /// Nothing.
    Nothing,
    /// The values of the stack, from the bottom to the top.
    Stack(Vec<Prim>),
    /// A word of this name entered the dictionary.
    Defined(String),
    /// The word of this name was replaced.
    Redefined(String),
}

/// Model of an [`Output`].
pub enum OutputModel {
    Nothing,
    Stack(Seq<PrimModel>),
    Defined(Seq<char>),
    Redefined(Seq<char>),
}

impl View for Output {
    type V = OutputModel;

    open spec fn view(&self) -> OutputModel {
        match self {
            Output::Nothing => OutputModel::Nothing,
            Output::Stack(values) => OutputModel::Stack(values.deep_view()),
            Output::Defined(name) => OutputModel::Defined(name@),
            Output::Redefined(name) => OutputModel::Redefined(name@),
        }
    }
}

/// Model of an engine.
pub struct VmModel {
    /// The value stack; its top is the last value.
    pub stack: Seq<PrimModel>,
    /// The pending instructions; the next one to execute is the first.
    pub prog: Seq<AstModel>,
    /// The dictionary.
    pub words: Map<Seq<char>, WordModel>,
}

/// The atoms of a body as instructions, in the order of the body.
pub open spec fn instructions_of(body: Seq<AtomModel>) -> Seq<AstModel> {
    Seq::new(body.len(), |k: int| AstModel::Simple(body[k]))
}

/// What a native operation that succeeded on `stack` leaves to show.
pub open spec fn native_output(op: Builtin, stack: Seq<PrimModel>) -> OutputModel {
    if op == Builtin::ShowStack {
        OutputModel::Stack(stack)
    } else {
        OutputModel::Nothing
    }
}

/// What executing `atom` does to an engine, and what it returns.
///
/// A literal is pushed. A symbol is looked up in the dictionary: a native
/// operation is applied to the stack; the body of a compound word is put in
/// front of the pending instructions, as instructions and in its order; a
/// name that is not bound is an error. An error changes nothing.
pub open spec fn step_atom(vm: VmModel, atom: AtomModel) -> (
    VmModel,
    Result<OutputModel, VmErrorModel>,
) {
    match atom {
        AtomModel::Lit(value) => (
            VmModel { stack: vm.stack.push(value), ..vm },
            Ok(OutputModel::Nothing),
        ),
        AtomModel::Symbol(name) => if !vm.words.contains_key(name) {
            (vm, Err(VmErrorModel::UnknownWord(name)))
        } else {
            match vm.words[name] {
                WordModel::Native(op) => match apply_native(op, vm.stack) {
                    Ok(stack) => (VmModel { stack, ..vm }, Ok(native_output(op, vm.stack))),
                    Err(e) => (vm, Err(e)),
                },
                WordModel::Compound(body) => (
                    VmModel { prog: instructions_of(body) + vm.prog, ..vm },
                    Ok(OutputModel::Nothing),
                ),
            }
        },
    }
}

/// What one step does to an engine with a pending instruction, and what it
/// returns: the first pending instruction leaves the queue and is executed.
/// A definition binds its name to its body, whatever the name was bound to.
pub open spec fn step(vm: VmModel) -> (VmModel, Result<OutputModel, VmErrorModel>)
    recommends
        vm.prog.len() > 0,
{
    let rest = VmModel { prog: vm.prog.drop_first(), ..vm };
    match vm.prog[0] {
        AstModel::Simple(atom) => step_atom(rest, atom),
        AstModel::WordDef(name, body) => (
            VmModel { words: vm.words.insert(name, WordModel::Compound(body)), ..rest },
            Ok(
                if vm.words.contains_key(name) {
                    OutputModel::Redefined(name)
                } else {
                    OutputModel::Defined(name)
                },
            ),
        ),
    }
}

/// Whether an executable result is the given result of the model.
pub open spec fn is_result(
    res: Result<Output, VmError>,
    model: Result<OutputModel, VmErrorModel>,
) -> bool {
    match res {
        Ok(output) => model == Ok::<_, VmErrorModel>(output@),
        Err(e) => model == Err::<OutputModel, _>(e@),
    }
}

/// Putting a node in front of a queue puts its model in front of the
/// queue's model.
proof fn lemma_deep_view_push_front(before: VecDeque<Ast>, after: VecDeque<Ast>, first: Ast)
    requires
        after@ == seq![first] + before@,
    ensures
        after.deep_view() == seq![first@] + before.deep_view(),
{
    assert(after.deep_view() =~= seq![first@] + before.deep_view());
}

/// Puts `nodes` in front of `queue`, in their order.
fn prepend_program(queue: &mut VecDeque<Ast>, nodes: Vec<Ast>)
    ensures
        final(queue).deep_view() == nodes.deep_view() + old(queue).deep_view(),
{
    let ghost all = nodes.deep_view();
    let mut nodes = nodes;
    assert(all.skip(all.len() as int) + queue.deep_view() =~= queue.deep_view());
    while nodes.len() > 0
        invariant
            nodes.len() <= all.len(),
            nodes.deep_view() == all.take(nodes.len() as int),
            queue.deep_view() == all.skip(nodes.len() as int) + old(queue).deep_view(),
        decreases nodes.len(),
    {
        let ghost nodes_before = nodes;
        let ghost queue_before = *queue;
        let node = nodes.pop().unwrap();
        queue.push_front(node);
        proof {
            let n = nodes.len() as int;
            lemma_deep_view_push_front(queue_before, *queue, node);
            assert(nodes.deep_view() =~= all.take(n));
            assert(node@ == nodes_before.deep_view()[n]);
            assert(seq![node@] + all.skip(n + 1) =~= all.skip(n));
            assert(queue.deep_view() =~= all.skip(n) + old(queue).deep_view());
        }
    }
    assert(all.skip(0) =~= all);
}

/// Puts the atoms of `body` in front of `prog` as instructions, in the order
/// of the body, so that they are executed before anything that was pending.
pub fn expand_word_def(prog: &mut VecDeque<Ast>, body: &Vec<Atom>)
    ensures
        final(prog).deep_view() == instructions_of(body.deep_view()) + old(prog).deep_view(),
{
    let ghost all = instructions_of(body.deep_view());
    let mut i: usize = body.len();
    assert(all.skip(i as int) + prog.deep_view() =~= prog.deep_view());
    while i > 0
        invariant
            i <= body.len(),
            all == instructions_of(body.deep_view()),
            prog.deep_view() == all.skip(i as int) + old(prog).deep_view(),
        decreases i,
    {
        i -= 1;
        let ghost before = *prog;
        let copied = Ast::Simple(body[i].clone());
        prog.push_front(copied);
        proof {
            lemma_deep_view_push_front(before, *prog, copied);
            assert(copied@ == all[i as int]);
            assert(seq![copied@] + all.skip(i + 1) =~= all.skip(i as int));
            assert(prog.deep_view() =~= all.skip(i as int) + old(prog).deep_view());
        }
    }
    assert(all.skip(0) =~= all);
}

/// Applies a native operation to the stack.
pub fn run_native(op: Builtin, stack: &mut Vec<Prim>) -> (res: Result<Output, VmError>)
    ensures
        match apply_native(op, old(stack).deep_view()) {
            Ok(after) => final(stack).deep_view() == after && is_result(
                res,
                Ok(native_output(op, old(stack).deep_view())),
            ),
            Err(e) => final(stack).deep_view() == old(stack).deep_view() && is_result(
                res,
                Err(e),
            ),
        },
{
    let done = match op {
        Builtin::Drop => bi_drop(stack),
        Builtin::Dup => bi_dup(stack),
        Builtin::Dup2 => bi_dup2(stack),
        Builtin::Swap => bi_swap(stack),
        Builtin::Add => bi_add(stack),
        Builtin::Mult => bi_mult(stack),
        Builtin::ShowStack => {
            return Ok(Output::Stack(bi_show_stack(stack)));
        },
    };
    match done {
        Ok(()) => Ok(Output::Nothing),
        Err(e) => Err(e),
    }
}

/// The engine.
pub struct Vm {
    /// The value stack; its top is the last value.
    pub stack: Vec<Prim>,
    prog: VecDeque<Ast>,
    word_map: WordMap,
}

impl View for Vm {
    type V = VmModel;

    open spec fn view(&self) -> VmModel {
        VmModel { stack: self.values(), prog: self.pending(), words: self.words() }
    }
}

impl Vm {
    /// The values of the stack, from the bottom to the top.
    pub closed spec fn values(&self) -> Seq<PrimModel> {
        self.stack.deep_view()
    }

    /// The pending instructions; the next one to execute is the first.
    pub closed spec fn pending(&self) -> Seq<AstModel> {
        self.prog.deep_view()
    }

    /// The dictionary.
    pub closed spec fn words(&self) -> Map<Seq<char>, WordModel> {
        self.word_map@
    }

    /// An engine with an empty stack, the given program pending and the
    /// native operations in its dictionary.
    pub fn new(prog_in: Vec<Ast>) -> (vm: Self)
        ensures
            vm@ == (VmModel {
                stack: Seq::empty(),
                prog: prog_in.deep_view(),
                words: initial_words(),
            }),
    {
        let mut prog: VecDeque<Ast> = VecDeque::new();
        prepend_program(&mut prog, prog_in);
        let vm = Vm { stack: Vec::new(), prog, word_map: initial_word_map() };
        assert(vm.stack.deep_view() =~= Seq::<PrimModel>::empty());
        assert(vm.pending() =~= prog_in.deep_view());
        vm
    }

    /// The value stack.
    pub fn stack(&self) -> (stack: &Vec<Prim>)
        ensures
            stack.deep_view() == self@.stack,
    {
        &self.stack
    }

    /// Puts a program in front of the pending instructions: it is executed
    /// before what was pending. The stack and the dictionary stay as they
    /// are.
    pub fn new_input(&mut self, prog_in: Vec<Ast>)
        ensures
            final(self)@ == (VmModel {
                prog: prog_in.deep_view() + old(self)@.prog,
                ..old(self)@
            }),
    {
        prepend_program(&mut self.prog, prog_in);
    }

    /// Whether no instruction is pending.
    pub fn finished(&self) -> (done: bool)
        ensures
            done == (self@.prog.len() == 0),
    {
        self.prog.len() == 0
    }

    /// Executes the first pending instruction.
    ///
    /// On an error the instruction has left the queue, and the stack and the
    /// dictionary are as they were.
    pub fn execute(&mut self) -> (res: Result<Output, VmError>)
        requires
            old(self)@.prog.len() > 0,
        ensures
            final(self)@ == step(old(self)@).0,
            is_result(res, step(old(self)@).1),
    {
        let ghost before = self.prog;
        let item = self.prog.pop_front().unwrap();
        assert(self.prog.deep_view() =~= before.deep_view().drop_first());
        assert(item@ == before.deep_view()[0]);
        match item {
            Ast::Simple(atom) => self.execute_atom(atom),
            Ast::WordDef(name, body) => {
                let shown = name.clone();
                let replaced = self.word_map.insert(name, Word::Compound(body));
                if replaced {
                    Ok(Output::Redefined(shown))
                } else {
                    Ok(Output::Defined(shown))
                }
            },
        }
    }

    /// Executes one atom.
    fn execute_atom(&mut self, atom: Atom) -> (res: Result<Output, VmError>)
        ensures
            final(self)@ == step_atom(old(self)@, atom@).0,
            is_result(res, step_atom(old(self)@, atom@).1),
    {
        match atom {
            Atom::Lit(prim) => {
                push_value(&mut self.stack, prim);
                Ok(Output::Nothing)
            },
            Atom::Symbol(word) => {
                match self.word_map.get(word.as_str()) {
                    Some(Word::Native(op)) => run_native(*op, &mut self.stack),
                    Some(Word::Compound(body)) => {
                        expand_word_def(&mut self.prog, body);
                        Ok(Output::Nothing)
                    },
                    None => Err(VmError::UnknownWord(word)),
                }
            },
        }
    }
}

} // verus!
