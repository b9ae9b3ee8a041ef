use sltf::{Ast, Atom, Output, Prim, Vm, VmError};

fn run_all(vm: &mut Vm) {
    while !vm.finished() {
        vm.execute().unwrap();
    }
}

fn tcase_run_all(prog: Vec<Ast>, expected_stack: Vec<Prim>) {
    let mut vm = Vm::new(prog);
    run_all(&mut vm);
    println!("stack: {:?}", &vm.stack);
    assert_eq!(vm.stack, expected_stack);
}

fn simple_lit(prim: Prim) -> Ast {
    Ast::Simple(Atom::Lit(prim))
}

fn simple_sym(name: &str) -> Ast {
    Ast::Simple(Atom::Symbol(name.to_string()))
}

fn ints(values: &[i64]) -> Vec<Ast> {
    values.iter().map(|n| simple_lit(Prim::Int(*n))).collect()
}

#[test]
fn vm_new_input_test() {
    let mut vm = Vm::new(vec![
        Ast::Simple(Atom::Lit(Prim::Int(2))),
        Ast::Simple(Atom::Lit(Prim::Int(3))),
    ]);
    for _ in 0..2 {
        vm.execute().unwrap();
    }
    vm.new_input(vec![
        Ast::Simple(Atom::Lit(Prim::Int(4))),
        Ast::Simple(Atom::Lit(Prim::Int(5))),
    ]);
    for _ in 0..2 {
        vm.execute().unwrap();
    }
    assert_eq!(vm.stack, vec![Prim::Int(2), Prim::Int(3), Prim::Int(4), Prim::Int(5),])
}

#[test]
fn test_push_integers() {
    tcase_run_all(
        vec![simple_lit(Prim::Int(2)), simple_lit(Prim::Int(3))],
        vec![Prim::Int(2), Prim::Int(3)],
    );
}

#[test]
fn test_add() {
    tcase_run_all(
        vec![simple_lit(Prim::Int(2)), simple_lit(Prim::Int(3)), simple_sym("+")],
        vec![Prim::Int(5)],
    );
}

#[test]
fn test_arith() {
    tcase_run_all(
        vec![
            simple_lit(Prim::Int(2)),
            simple_lit(Prim::Int(3)),
            simple_lit(Prim::Int(4)),
            simple_sym("+"),
            simple_sym("*"),
        ],
        vec![Prim::Int(14)],
    );
}

#[test]
fn test_stack_dup_fns() {
    tcase_run_all(
        vec![
            simple_lit(Prim::Int(2)),
            simple_lit(Prim::Int(3)),
            simple_sym("dup2"),
            simple_sym("dup"),
        ],
        vec![Prim::Int(2), Prim::Int(3), Prim::Int(2), Prim::Int(3), Prim::Int(3)],
    );
}

#[test]
fn test_swap() {
    tcase_run_all(
        vec![simple_lit(Prim::Int(2)), simple_lit(Prim::Int(3)), simple_sym("swap")],
        vec![Prim::Int(3), Prim::Int(2)],
    );
}

#[test]
fn new_input_runs_before_what_was_pending() {
    let mut vm = Vm::new(ints(&[2, 3]));
    vm.new_input(ints(&[4, 5]));
    run_all(&mut vm);
    assert_eq!(vm.stack, vec![Prim::Int(4), Prim::Int(5), Prim::Int(2), Prim::Int(3)]);
}

#[test]
fn new_engine_is_finished_only_without_a_program() {
    assert!(Vm::new(vec![]).finished());
    let mut vm = Vm::new(ints(&[1]));
    assert!(!vm.finished());
    assert_eq!(vm.execute(), Ok(Output::Nothing));
    assert!(vm.finished());
    vm.new_input(vec![]);
    assert!(vm.finished());
    assert_eq!(vm.stack, vec![Prim::Int(1)]);
    assert_eq!(vm.stack(), &vec![Prim::Int(1)]);
}

#[test]
fn drop_removes_the_top() {
    let mut prog = ints(&[1, 2]);
    prog.push(simple_sym("drop"));
    tcase_run_all(prog, vec![Prim::Int(1)]);
}

#[test]
fn drop_on_empty_stack_is_underflow() {
    let mut vm = Vm::new(vec![simple_sym("drop"), simple_lit(Prim::Int(1))]);
    assert_eq!(vm.execute(), Err(VmError::StackUnderflow));
    assert_eq!(vm.stack, vec![]);
    assert!(!vm.finished());
    assert_eq!(vm.execute(), Ok(Output::Nothing));
    assert_eq!(vm.stack, vec![Prim::Int(1)]);
}

#[test]
fn underflow_leaves_the_stack() {
    for word in ["dup2", "swap", "+", "*"] {
        let mut vm = Vm::new(vec![simple_lit(Prim::Int(7)), simple_sym(word)]);
        assert_eq!(vm.execute(), Ok(Output::Nothing));
        assert_eq!(vm.execute(), Err(VmError::StackUnderflow));
        assert_eq!(vm.stack, vec![Prim::Int(7)]);
    }
    let mut vm = Vm::new(vec![simple_sym("dup")]);
    assert_eq!(vm.execute(), Err(VmError::StackUnderflow));
    assert_eq!(vm.stack, vec![]);
}

#[test]
fn arithmetic_on_a_string_is_a_type_mismatch() {
    for word in ["+", "*"] {
        let text = Prim::Str("x".to_string());
        let mut vm = Vm::new(vec![
            simple_lit(Prim::Int(1)),
            simple_lit(text.clone()),
            simple_sym(word),
        ]);
        vm.execute().unwrap();
        vm.execute().unwrap();
        assert_eq!(vm.execute(), Err(VmError::TypeMismatch));
        assert_eq!(vm.stack, vec![Prim::Int(1), text.clone()]);

        let mut vm = Vm::new(vec![
            simple_lit(text.clone()),
            simple_lit(Prim::Int(1)),
            simple_sym(word),
        ]);
        vm.execute().unwrap();
        vm.execute().unwrap();
        assert_eq!(vm.execute(), Err(VmError::TypeMismatch));
        assert_eq!(vm.stack, vec![text, Prim::Int(1)]);
    }
}

#[test]
fn arithmetic_wraps() {
    let mut prog = ints(&[i64::MAX, 1]);
    prog.push(simple_sym("+"));
    tcase_run_all(prog, vec![Prim::Int(i64::MIN)]);
    let mut prog = ints(&[i64::MIN, -1]);
    prog.push(simple_sym("+"));
    tcase_run_all(prog, vec![Prim::Int(i64::MAX)]);
    let mut prog = ints(&[i64::MAX, 2]);
    prog.push(simple_sym("*"));
    tcase_run_all(prog, vec![Prim::Int(-2)]);
    let mut prog = ints(&[i64::MIN, -1]);
    prog.push(simple_sym("*"));
    tcase_run_all(prog, vec![Prim::Int(i64::MIN)]);
    let mut prog = ints(&[-6, 7]);
    prog.push(simple_sym("*"));
    tcase_run_all(prog, vec![Prim::Int(-42)]);
    let mut prog = ints(&[-6, 7]);
    prog.push(simple_sym("+"));
    tcase_run_all(prog, vec![Prim::Int(1)]);
}

#[test]
fn strings_are_values() {
    let a = Prim::Str("a".to_string());
    let b = Prim::Str("b".to_string());
    tcase_run_all(
        vec![simple_lit(a.clone()), simple_lit(b.clone()), simple_sym("swap"), simple_sym("dup")],
        vec![b, a.clone(), a],
    );
}

#[test]
fn show_returns_the_stack_and_keeps_it() {
    let mut vm = Vm::new(vec![
        simple_lit(Prim::Int(2)),
        simple_lit(Prim::Str("s".to_string())),
        simple_sym("."),
    ]);
    vm.execute().unwrap();
    vm.execute().unwrap();
    let expected = vec![Prim::Int(2), Prim::Str("s".to_string())];
    assert_eq!(vm.execute(), Ok(Output::Stack(expected.clone())));
    assert_eq!(vm.stack, expected);
    let mut vm = Vm::new(vec![simple_sym(".")]);
    assert_eq!(vm.execute(), Ok(Output::Stack(vec![])));
}

#[test]
fn unknown_word_is_an_error_and_leaves_the_stack() {
    let mut vm = Vm::new(vec![
        simple_lit(Prim::Int(1)),
        simple_sym("nope"),
        simple_lit(Prim::Int(2)),
    ]);
    vm.execute().unwrap();
    assert_eq!(vm.execute(), Err(VmError::UnknownWord("nope".to_string())));
    assert_eq!(vm.stack, vec![Prim::Int(1)]);
    assert_eq!(vm.execute(), Ok(Output::Nothing));
    assert_eq!(vm.stack, vec![Prim::Int(1), Prim::Int(2)]);
}

#[test]
fn names_are_case_sensitive() {
    let mut vm = Vm::new(vec![simple_lit(Prim::Int(1)), simple_sym("DUP")]);
    vm.execute().unwrap();
    assert_eq!(vm.execute(), Err(VmError::UnknownWord("DUP".to_string())));
}

fn define(name: &str, body: Vec<Atom>) -> Ast {
    Ast::WordDef(name.to_string(), body)
}

#[test]
fn definition_reports_new_and_redefined() {
    let mut vm = Vm::new(vec![
        define("w", vec![Atom::Lit(Prim::Int(1))]),
        define("w", vec![Atom::Lit(Prim::Int(2))]),
        define("dup", vec![]),
    ]);
    assert_eq!(vm.execute(), Ok(Output::Defined("w".to_string())));
    assert_eq!(vm.execute(), Ok(Output::Redefined("w".to_string())));
    assert_eq!(vm.execute(), Ok(Output::Redefined("dup".to_string())));
    assert_eq!(vm.stack, vec![]);
}

#[test]
fn redefinition_replaces_the_body() {
    tcase_run_all(
        vec![
            define("w", vec![Atom::Lit(Prim::Int(1)), Atom::Lit(Prim::Int(1))]),
            simple_sym("w"),
            define("w", vec![Atom::Lit(Prim::Int(2))]),
            simple_sym("w"),
            simple_sym("w"),
        ],
        vec![Prim::Int(1), Prim::Int(1), Prim::Int(2), Prim::Int(2)],
    );
}

#[test]
fn native_word_can_be_redefined() {
    tcase_run_all(
        vec![
            simple_lit(Prim::Int(5)),
            define("dup", vec![Atom::Lit(Prim::Int(0))]),
            simple_sym("dup"),
        ],
        vec![Prim::Int(5), Prim::Int(0)],
    );
}

#[test]
fn body_runs_in_order_before_the_rest() {
    tcase_run_all(
        vec![
            define(
                "abc",
                vec![
                    Atom::Lit(Prim::Str("A".to_string())),
                    Atom::Lit(Prim::Str("B".to_string())),
                    Atom::Lit(Prim::Str("C".to_string())),
                ],
            ),
            simple_sym("abc"),
            simple_lit(Prim::Str("rest".to_string())),
        ],
        vec![
            Prim::Str("A".to_string()),
            Prim::Str("B".to_string()),
            Prim::Str("C".to_string()),
            Prim::Str("rest".to_string()),
        ],
    );
}

#[test]
fn nested_words_expand_in_place() {
    tcase_run_all(
        vec![
            define("two", vec![Atom::Lit(Prim::Int(2))]),
            define(
                "four",
                vec![
                    Atom::Symbol("two".to_string()),
                    Atom::Symbol("two".to_string()),
                    Atom::Symbol("+".to_string()),
                ],
            ),
            simple_sym("four"),
            simple_lit(Prim::Int(9)),
        ],
        vec![Prim::Int(4), Prim::Int(9)],
    );
}

#[test]
fn word_must_be_defined_when_it_is_executed() {
    let mut vm = Vm::new(vec![simple_sym("later"), define("later", vec![]), simple_sym("later")]);
    assert_eq!(vm.execute(), Err(VmError::UnknownWord("later".to_string())));
    assert_eq!(vm.execute(), Ok(Output::Defined("later".to_string())));
    assert_eq!(vm.execute(), Ok(Output::Nothing));
    assert!(vm.finished());
}

#[test]
fn self_reference_keeps_expanding() {
    let mut vm = Vm::new(vec![
        define("loop", vec![Atom::Lit(Prim::Int(1)), Atom::Symbol("loop".to_string())]),
        simple_sym("loop"),
    ]);
    for _ in 0..101 {
        vm.execute().unwrap();
    }
    assert!(!vm.finished());
    assert_eq!(vm.stack.len(), 50);
}

#[test]
fn engines_are_independent() {
    let mut first = Vm::new(vec![define("w", vec![]), simple_sym("w")]);
    let mut second = Vm::new(vec![simple_sym("w")]);
    first.execute().unwrap();
    assert_eq!(first.execute(), Ok(Output::Nothing));
    assert_eq!(second.execute(), Err(VmError::UnknownWord("w".to_string())));
}
