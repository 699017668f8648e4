use evasion::compiler::Compiler;
use evasion::lexer::Lexer;
use evasion::object::ObjectType;
use evasion::parser::Parser;
use evasion::vm::{VirtualMachine, GLOBAL_SIZE};

fn h_run(input: &str) -> ObjectType {
    let lexer = Lexer::new(input);
    let mut parser = Parser::new(lexer);
    let program = parser.parse_program();

    let mut compiler = Compiler::new();
    compiler.compile_program(program.statments).unwrap();
    let bytecode = compiler.bytecode();

    let global = vec![ObjectType::NoOp; GLOBAL_SIZE];
    let mut vm = VirtualMachine::new(bytecode, global);

    if let Err(err) = vm.run() {
        panic!("An error occured: {err}")
    }

    vm.last_popped_stack_elem()
}

fn h_test_expected_object(expected: &str, actual: ObjectType) {
    if let Ok(integer) = expected.parse::<i64>() {
        h_test_integer_object(integer, actual)
    } else if let Ok(expected_bool) = expected.parse::<bool>() {
        match actual {
            ObjectType::Boolean(boolean_value) => {
                if boolean_value != expected_bool {
                    panic!("Wrong value. got={:?}, want={}", actual, expected)
                }
            }
            _ => panic!(
                "Unexpected value, expected Boolean Object, got={:?}",
                actual
            ),
        }
    } else {
        panic!(
            "Unexpected value, expected Integer Object or Boolean, got={:?}",
            actual
        )
    }
}

fn h_test_integer_object(value: i64, actual: ObjectType) {
    match actual {
        ObjectType::Integer(integer_value) => {
            if integer_value != value {
                panic!("Wrong value. got={:?}, want={}", actual, value)
            }
        }
        _ => panic!(
            "Unexpected value, expected Integer Object, got={:?}",
            actual
        ),
    }
}

#[test]
fn test_vm() {
    let tests: Vec<(&str, &str)> = vec![
        ("1", "1"),
        ("2", "2"),
        ("1 + 2", "3"),
        ("1 * 2", "2"),
        ("4 / 2", "2"),
        ("50 / 2 * 2  + 10 - 5", "55"),
        ("5 + 5 + 5 + 5 - 10", "10"),
        ("2 * 2 * 2 * 2 * 2", "32"),
        ("5 * 2 + 10", "20"),
        ("5 + 2 * 10", "25"),
        ("5 * (2 + 10)", "60"),
        ("true", "true"),
        ("false", "false"),
        ("1 < 2", "true"),
        ("1 > 2", "false"),
        ("1 < 1", "false"),
        ("1 > 1", "false"),
        ("1 == 1", "true"),
        ("1 != 1", "false"),
        ("1 == 2", "false"),
        ("1 != 2", "true"),
        ("true == true", "true"),
        ("false == false", "true"),
        ("true == false", "false"),
        ("true != false", "true"),
        ("(1 < 2) == true", "true"),
        ("(1 < 2) == false", "false"),
        ("(1 > 2) == true", "false"),
        ("(1 > 2) == false", "true"),
        ("-5", "-5"),
        ("-10", "-10"),
        ("-50 + 100 + -50", "0"),
        ("(5 + 10 * 2 + 15 / 3) * 2 + -10", "50"),
        ("!true", "false"),
        ("!false", "true"),
        ("!5", "false"),
        ("!!true", "true"),
        ("!!false", "false"),
        ("!!5", "true"),
    ];

    for (input, expected) in tests {
        let stack_top = h_run(input);
        h_test_expected_object(expected, stack_top);
    }
}

#[test]
fn test_conditionals() {
    let tests: Vec<(&str, &str)> = vec![
        ("if (true) { 10 }", "10"),
        ("if (true) { 10 } else { 20 }", "10"),
        ("if (false) { 10 } else { 20 }", "20"),
        ("if (1) { 10 }", "10"),
        ("if (1 < 2) { 10 }", "10"),
        ("if (1 < 2) { 10 } else { 20 }", "10"),
        ("if (1 > 2) { 10 } else { 20 }", "20"),
        ("if (true) { 10 }; 3333;", "3333"),
    ];
    for (input, expected) in tests {
        h_test_expected_object(expected, h_run(input));
    }
}

#[test]
fn test_conditional_without_alternative_yields_null() {
    // A falsy condition with no else branch leaves `Null`, whose printed
    // form is empty.
    let result = h_run("if (false) { 10 }");
    assert_eq!(result, ObjectType::Null);
    assert_eq!(result.render(), "".to_string());
}

#[test]
fn test_global_let_statements() {
    let tests: Vec<(&str, &str)> = vec![
        ("let one = 1; one;", "1"),
        ("let one = 1; let two = 2; one + two", "3"),
        ("let one = 1; let two = one + one; one + two", "3"),
        ("let one = 1; let two = one; two;", "1"),
    ];
    for (input, expected) in tests {
        h_test_expected_object(expected, h_run(input));
    }
}

#[test]
fn test_if_subexpression_value_is_on_stack_top() {
    // Before the final `OpPop` of the `if` expression-statement, the
    // stack top is the consequence's value.
    let result = h_run("if (true) { 10 };");
    h_test_integer_object(10, result);
}

#[test]
fn test_stack_balances_back_to_zero() {
    let lexer = Lexer::new("1 + 2; let x = 5; x; !true; -7;");
    let mut parser = Parser::new(lexer);
    let program = parser.parse_program();
    let mut compiler = Compiler::new();
    compiler.compile_program(program.statments).unwrap();
    let mut vm = VirtualMachine::new(compiler.bytecode(), vec![ObjectType::NoOp; GLOBAL_SIZE]);
    vm.run().unwrap();
    assert_eq!(vm.sp, 0);
}

#[test]
fn test_division_by_zero_is_a_runtime_error() {
    let lexer = Lexer::new("1 / 0");
    let mut parser = Parser::new(lexer);
    let program = parser.parse_program();
    let mut compiler = Compiler::new();
    compiler.compile_program(program.statments).unwrap();
    let mut vm = VirtualMachine::new(compiler.bytecode(), vec![ObjectType::NoOp; GLOBAL_SIZE]);
    match vm.run() {
        Ok(_) => panic!("expected a division-by-zero error"),
        Err(m) => assert_eq!(m, "division by zero".to_string()),
    }
}

#[test]
fn test_type_mismatch_is_a_runtime_error() {
    let lexer = Lexer::new("true + 1");
    let mut parser = Parser::new(lexer);
    let program = parser.parse_program();
    let mut compiler = Compiler::new();
    compiler.compile_program(program.statments).unwrap();
    let mut vm = VirtualMachine::new(compiler.bytecode(), vec![ObjectType::NoOp; GLOBAL_SIZE]);
    match vm.run() {
        Ok(_) => panic!("expected a type-mismatch error"),
        Err(m) => assert_eq!(m, "type mismatch".to_string()),
    }
}

#[test]
fn test_integer_overflow_is_a_runtime_error() {
    let lexer = Lexer::new("9223372036854775807 + 1");
    let mut parser = Parser::new(lexer);
    let program = parser.parse_program();
    let mut compiler = Compiler::new();
    compiler.compile_program(program.statments).unwrap();
    let mut vm = VirtualMachine::new(compiler.bytecode(), vec![ObjectType::NoOp; GLOBAL_SIZE]);
    match vm.run() {
        Ok(_) => panic!("expected an integer-overflow error"),
        Err(m) => assert_eq!(m, "integer overflow".to_string()),
    }
}

#[test]
fn test_globals_persist_across_runs() {
    // The interactive loop keeps one symbol table and one globals frame
    // across inputs; a later line reads what an earlier line bound.
    let lexer = Lexer::new("let one = 1;");
    let mut parser = Parser::new(lexer);
    let program = parser.parse_program();
    let mut compiler = Compiler::new();
    compiler.compile_program(program.statments).unwrap();
    let bytecode = compiler.bytecode();
    let mut vm = VirtualMachine::new(bytecode, vec![ObjectType::NoOp; GLOBAL_SIZE]);
    vm.run().unwrap();

    let lexer2 = Lexer::new("one + 41;");
    let mut parser2 = Parser::new(lexer2);
    let program2 = parser2.parse_program();
    let mut compiler2 =
        Compiler::new_with_state(compiler.symbols, compiler.constant);
    compiler2.compile_program(program2.statments).unwrap();
    let mut vm2 = VirtualMachine::new(compiler2.bytecode(), vm.global);
    vm2.run().unwrap();
    h_test_integer_object(42, vm2.last_popped_stack_elem());
}

#[test]
fn test_stack_top_after_push() {
    let lexer = Lexer::new("1 + 2");
    let mut parser = Parser::new(lexer);
    let program = parser.parse_program();
    let mut compiler = Compiler::new();
    compiler.compile_program(program.statments).unwrap();
    let mut vm = VirtualMachine::new(compiler.bytecode(), vec![ObjectType::NoOp; GLOBAL_SIZE]);
    assert!(vm.stack_top().is_none());
    vm.run().unwrap();
    // The program's single statement popped its value: the stack is
    // balanced again.
    assert!(vm.stack_top().is_none());
}

#[test]
fn test_reading_uninitialized_global_is_a_runtime_error() {
    // When a `let`'s right-hand side fails at runtime, the slot is
    // allocated but never written; the symbol table is not rolled back,
    // so a later line resolves the name and reads the untouched slot.
    let lexer = Lexer::new("let a = 1 / 0;");
    let mut parser = Parser::new(lexer);
    let program = parser.parse_program();
    let mut compiler = Compiler::new();
    compiler.compile_program(program.statments).unwrap();
    let mut vm = VirtualMachine::new(compiler.bytecode(), vec![ObjectType::NoOp; GLOBAL_SIZE]);
    assert!(vm.run().is_err());

    let lexer2 = Lexer::new("a;");
    let mut parser2 = Parser::new(lexer2);
    let program2 = parser2.parse_program();
    let mut compiler2 = Compiler::new_with_state(compiler.symbols, compiler.constant);
    compiler2.compile_program(program2.statments).unwrap();
    let mut vm2 = VirtualMachine::new(compiler2.bytecode(), vm.global);
    match vm2.run() {
        Ok(_) => panic!("expected an uninitialized-global error"),
        Err(m) => assert_eq!(m, "uninitialized global".to_string()),
    }
}
