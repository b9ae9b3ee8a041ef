use sltf::{Parser, Prim, Vm};

fn run(vm: &mut Vm) {
    while !vm.finished() {
        vm.execute().unwrap();
    }
}

fn tcase_from_init(init: &str, expected_stack: Vec<Prim>) {
    let parser = Parser::new();
    let mut vm = Vm::new(parser.parse(init).unwrap());
    run(&mut vm);
    assert_eq!(vm.stack, expected_stack);
}

#[test]
fn test_runner_simple() {
    tcase_from_init("2 3 4 + 5 *", vec![Prim::Int(2), Prim::Int(35)]);
}

#[test]
fn test_runner_complex() {
    tcase_from_init(
        ": square dup * ; 2 dup square + 35 swap",
        vec![Prim::Int(35), Prim::Int(6)],
    );
}

#[test]
fn feeding_twice_keeps_stack_and_dictionary() {
    let parser = Parser::new();
    let mut vm = Vm::new(parser.parse("2 3").unwrap());
    run(&mut vm);
    vm.new_input(parser.parse("4 5").unwrap());
    run(&mut vm);
    assert_eq!(vm.stack, vec![Prim::Int(2), Prim::Int(3), Prim::Int(4), Prim::Int(5)]);

    let mut vm = Vm::new(parser.parse(": twice dup + ;").unwrap());
    run(&mut vm);
    vm.new_input(parser.parse("21 twice").unwrap());
    run(&mut vm);
    assert_eq!(vm.stack, vec![Prim::Int(42)]);
}

#[test]
fn strings_run_through() {
    tcase_from_init(
        r#""a\tb" "c" swap"#,
        vec![Prim::Str("c".to_string()), Prim::Str("a\tb".to_string())],
    );
}
