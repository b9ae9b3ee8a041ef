//! What holds of the engine, stated over its model: errors change nothing,
//! a definition replaces what its name was bound to, and the body of a word
//! is executed in its order before anything that was pending.

use vstd::prelude::*;
use crate::builtin_words::{apply_native, arity, Builtin, VmErrorModel, WordModel};
use crate::tok_ast::{AstModel, AtomModel, PrimModel};
use crate::vm::{instructions_of, step, OutputModel, VmModel};

verus! {

/// The engine after `n` steps, or after as many as there were instructions
/// to execute. Steps that fail count.
pub open spec fn run(vm: VmModel, n: nat) -> VmModel
    decreases n,
{
    if n == 0 || vm.prog.len() == 0 {
        vm
    } else {
        run(step(vm).0, (n - 1) as nat)
    }
}

/// The atoms that push the given values, in order.
pub open spec fn literals(values: Seq<PrimModel>) -> Seq<AtomModel> {
    Seq::new(values.len(), |k: int| AtomModel::Lit(values[k]))
}

/// A step that fails takes its instruction off the queue and changes nothing
/// else: the stack and the dictionary are as they were.
pub proof fn lemma_failure_changes_nothing(vm: VmModel)
    requires
        vm.prog.len() > 0,
        step(vm).1 is Err,
    ensures
        step(vm).0 == (VmModel { prog: vm.prog.drop_first(), ..vm }),
{
}

/// A symbol that the dictionary does not hold is an unknown word, and the
/// stack is left as it was just before.
pub proof fn lemma_unknown_word(vm: VmModel, name: Seq<char>)
    requires
        vm.prog.len() > 0,
        vm.prog[0] == AstModel::Simple(AtomModel::Symbol(name)),
        !vm.words.contains_key(name),
    ensures
        step(vm).1 == Err::<OutputModel, _>(VmErrorModel::UnknownWord(name)),
        step(vm).0.stack == vm.stack,
        step(vm).0.words == vm.words,
        step(vm).0.prog == vm.prog.drop_first(),
{
}

/// A native operation that finds fewer values on the stack than it needs is
/// a stack underflow, not a step that does nothing: `drop` on an empty stack
/// fails, and so does every other operation that is short of values.
pub proof fn lemma_underflow(vm: VmModel, name: Seq<char>, op: Builtin)
    requires
        vm.prog.len() > 0,
        vm.prog[0] == AstModel::Simple(AtomModel::Symbol(name)),
        vm.words.contains_key(name),
        vm.words[name] == WordModel::Native(op),
        vm.stack.len() < arity(op),
    ensures
        apply_native(op, vm.stack) == Err::<Seq<PrimModel>, _>(VmErrorModel::StackUnderflow),
        step(vm) == (
            VmModel { prog: vm.prog.drop_first(), ..vm },
            Err::<OutputModel, _>(VmErrorModel::StackUnderflow),
        ),
{
}

/// Executing a literal pushes its value and does nothing else.
pub proof fn lemma_literal_pushes(vm: VmModel, value: PrimModel)
    requires
        vm.prog.len() > 0,
        vm.prog[0] == AstModel::Simple(AtomModel::Lit(value)),
    ensures
        step(vm) == (
            VmModel { stack: vm.stack.push(value), prog: vm.prog.drop_first(), ..vm },
            Ok::<_, VmErrorModel>(OutputModel::Nothing),
        ),
{
}

/// Executing a definition binds the name to the body, whatever it was bound
/// to, and leaves every other name as it was.
pub proof fn lemma_definition_binds(vm: VmModel, name: Seq<char>, body: Seq<AtomModel>)
    requires
        vm.prog.len() > 0,
        vm.prog[0] == AstModel::WordDef(name, body),
    ensures
        step(vm).0.words.contains_key(name),
        step(vm).0.words[name] == WordModel::Compound(body),
        forall|other: Seq<char>|
            other != name ==> (step(vm).0.words.contains_key(other) <==> vm.words.contains_key(
                other,
            )) && (vm.words.contains_key(other) ==> step(vm).0.words[other] == vm.words[other]),
        step(vm).0.stack == vm.stack,
        step(vm).0.prog == vm.prog.drop_first(),
{
}

/// Defining a name twice leaves it bound to the second body alone, and a
/// reference that follows executes the second body: the first is gone.
pub proof fn lemma_redefinition(
    vm: VmModel,
    name: Seq<char>,
    first: Seq<AtomModel>,
    second: Seq<AtomModel>,
    rest: Seq<AstModel>,
)
    requires
        vm.prog == seq![
            AstModel::WordDef(name, first),
            AstModel::WordDef(name, second),
            AstModel::Simple(AtomModel::Symbol(name)),
        ] + rest,
    ensures
        step(run(vm, 1)).1 == Ok::<_, VmErrorModel>(OutputModel::Redefined(name)),
        run(vm, 2).words == vm.words.insert(name, WordModel::Compound(second)),
        run(vm, 3) == (VmModel {
            stack: vm.stack,
            prog: instructions_of(second) + rest,
            words: vm.words.insert(name, WordModel::Compound(second)),
        }),
{
    reveal_with_fuel(run, 4);
    let once = step(vm).0;
    assert(once.prog =~= seq![
        AstModel::WordDef(name, second),
        AstModel::Simple(AtomModel::Symbol(name)),
    ] + rest);
    let twice = step(once).0;
    assert(twice.prog =~= seq![AstModel::Simple(AtomModel::Symbol(name))] + rest);
    assert(twice.words =~= vm.words.insert(name, WordModel::Compound(second)));
    let thrice = step(twice).0;
    assert(twice.prog.drop_first() =~= rest);
    assert(run(vm, 1) == once);
    assert(run(vm, 2) == twice);
    assert(run(vm, 3) == thrice);
}

/// Executing a reference to a compound word puts the atoms of its body in
/// front of the pending instructions, in the order of the body. The stack
/// and the dictionary are as they were.
pub proof fn lemma_expansion(vm: VmModel, name: Seq<char>, body: Seq<AtomModel>)
    requires
        vm.prog.len() > 0,
        vm.prog[0] == AstModel::Simple(AtomModel::Symbol(name)),
        vm.words.contains_key(name),
        vm.words[name] == WordModel::Compound(body),
    ensures
        step(vm) == (
            VmModel { prog: instructions_of(body) + vm.prog.drop_first(), ..vm },
            Ok::<_, VmErrorModel>(OutputModel::Nothing),
        ),
{
}

/// What is pending behind the first instruction has no part in a step: the
/// step does the same in front of any remainder, and leaves the remainder
/// as it is.
pub proof fn lemma_step_frame(vm: VmModel, behind: Seq<AstModel>)
    requires
        vm.prog.len() > 0,
    ensures
        step(VmModel { prog: vm.prog + behind, ..vm }) == (
            VmModel { prog: step(vm).0.prog + behind, ..step(vm).0 },
            step(vm).1,
        ),
{
    let longer = VmModel { prog: vm.prog + behind, ..vm };
    assert(longer.prog[0] == vm.prog[0]);
    assert(longer.prog.drop_first() =~= vm.prog.drop_first() + behind);
    match vm.prog[0] {
        AstModel::Simple(AtomModel::Symbol(name)) => {
            if vm.words.contains_key(name) {
                if let WordModel::Compound(body) = vm.words[name] {
                    assert(instructions_of(body) + (vm.prog.drop_first() + behind) =~= (
                    instructions_of(body) + vm.prog.drop_first()) + behind);
                }
            }
        },
        _ => {},
    }
}

/// Whether an instruction is pending before each of the next `n` steps.
pub open spec fn busy(vm: VmModel, n: nat) -> bool
    decreases n,
{
    n == 0 || (vm.prog.len() > 0 && busy(step(vm).0, (n - 1) as nat))
}

/// While the instructions in front last, nothing that is pending behind them
/// is executed or changed: the engine runs as it would without the
/// remainder, which stays behind whatever the steps put on the queue.
pub proof fn lemma_run_frame(vm: VmModel, behind: Seq<AstModel>, n: nat)
    requires
        busy(vm, n),
    ensures
        run(VmModel { prog: vm.prog + behind, ..vm }, n) == (VmModel {
            prog: run(vm, n).prog + behind,
            ..run(vm, n)
        }),
    decreases n,
{
    if n > 0 {
        lemma_step_frame(vm, behind);
        lemma_run_frame(step(vm).0, behind, (n - 1) as nat);
    }
}

/// A run of literals in front of the queue is executed in order: after as
/// many steps as there are literals, their values are on top of the stack,
/// the first one lowest, and what was behind them is pending.
pub proof fn lemma_literals_run(vm: VmModel, values: Seq<PrimModel>, behind: Seq<AstModel>)
    requires
        vm.prog == instructions_of(literals(values)) + behind,
    ensures
        run(vm, values.len()) == (VmModel { stack: vm.stack + values, prog: behind, ..vm }),
    decreases values.len(),
{
    if values.len() == 0 {
        assert(vm.prog =~= behind);
        assert(vm.stack + values =~= vm.stack);
    } else {
        let next = step(vm).0;
        let later = values.skip(1);
        assert(vm.prog[0] == AstModel::Simple(AtomModel::Lit(values[0])));
        assert(next.prog =~= instructions_of(literals(later)) + behind);
        lemma_literals_run(next, later, behind);
        assert(vm.stack.push(values[0]) + later =~= vm.stack + values);
    }
}

/// The body of a word is executed in its order, and nothing that was pending
/// is executed in between: after a reference to a word whose body pushes the
/// given values, and one step for each of them, the values are on top of the
/// stack in the order of the body, and what was behind the reference is
/// pending, untouched.
pub proof fn lemma_body_runs_in_order(vm: VmModel, name: Seq<char>, values: Seq<PrimModel>)
    requires
        vm.prog.len() > 0,
        vm.prog[0] == AstModel::Simple(AtomModel::Symbol(name)),
        vm.words.contains_key(name),
        vm.words[name] == WordModel::Compound(literals(values)),
    ensures
        run(vm, 1 + values.len()) == (VmModel {
            stack: vm.stack + values,
            prog: vm.prog.drop_first(),
            ..vm
        }),
{
    lemma_expansion(vm, name, literals(values));
    lemma_literals_run(step(vm).0, values, vm.prog.drop_first());
}

} // verus!
