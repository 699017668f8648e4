use evasion::ast::Program;
use evasion::bytecode::{make, Instruction, OpCode};
use evasion::compiler::Compiler;
use evasion::lexer::Lexer;
use evasion::object::ObjectType;
use evasion::parser::Parser;

fn h_parse_for_compile(input: &str) -> Program {
    let lexer = Lexer::new(input);
    let mut parser = Parser::new(lexer);
    parser.parse_program()
}

fn concat_instruction(instruction: &[Instruction]) -> Instruction {
    Instruction(
        instruction
            .into_iter()
            .map(|i| i.0.clone())
            .flatten()
            .collect(),
    )
}

fn h_test_instruction(expected: &[Instruction], actual: &Instruction) {
    let concatted = concat_instruction(expected);

    if concatted.0.len() != actual.0.len() {
        panic!(
            "Wrong instructions length.\nwant={:?}\ngot={:?}",
            concatted.0, actual.0,
        )
    }

    for (idx, ins) in concatted.0.iter().enumerate() {
        if actual.0[idx] != *ins {
            panic!(
                "Wrong instruction at {}.\nwant={:?}\ngot={:?}",
                idx, concatted.0, actual.0
            )
        }
    }
}

fn h_test_integer_object_c(value: i64, actual: ObjectType) {
    match actual {
        ObjectType::Integer(integer_value) => {
            if integer_value != value {
                panic!("Wrong value. got={}, want={}", integer_value, value)
            }
        }
        _ => panic!(
            "Unexpected value, expected Integer Object, got={:?}",
            actual
        ),
    }
}

fn h_test_constant(expected: &Vec<String>, actual: &Vec<ObjectType>) {
    if expected.len() != actual.len() {
        panic!(
            "Wrong number of constants. got={}, want={}",
            actual.len(),
            expected.len()
        )
    }

    for (idx, constant) in expected.into_iter().enumerate() {
        if let Ok(res) = constant.parse::<i64>() {
            h_test_integer_object_c(res, actual[idx])
        }
    }
}

#[test]
fn test_compiler() {
    let tests: Vec<(&str, Vec<&str>, Vec<Instruction>)> = vec![
        (
            "1 + 2",
            vec!["1", "2"],
            vec![
                make(&OpCode::OpConstant, &vec![0]).unwrap(),
                make(&OpCode::OpConstant, &vec![1]).unwrap(),
                make(&OpCode::OpAdd, &vec![]).unwrap(),
                make(&OpCode::OpPop, &vec![]).unwrap(),
            ],
        ),
        (
            "1; 2",
            vec!["1", "2"],
            vec![
                make(&OpCode::OpConstant, &vec![0]).unwrap(),
                make(&OpCode::OpPop, &vec![]).unwrap(),
                make(&OpCode::OpConstant, &vec![1]).unwrap(),
                make(&OpCode::OpPop, &vec![]).unwrap(),
            ],
        ),
        (
            "1 - 2",
            vec!["1", "2"],
            vec![
                make(&OpCode::OpConstant, &vec![0]).unwrap(),
                make(&OpCode::OpConstant, &vec![1]).unwrap(),
                make(&OpCode::OpSub, &vec![]).unwrap(),
                make(&OpCode::OpPop, &vec![]).unwrap(),
            ],
        ),
        (
            "1 * 2",
            vec!["1", "2"],
            vec![
                make(&OpCode::OpConstant, &vec![0]).unwrap(),
                make(&OpCode::OpConstant, &vec![1]).unwrap(),
                make(&OpCode::OpMul, &vec![]).unwrap(),
                make(&OpCode::OpPop, &vec![]).unwrap(),
            ],
        ),
        (
            "2 / 1",
            vec!["2", "1"],
            vec![
                make(&OpCode::OpConstant, &vec![0]).unwrap(),
                make(&OpCode::OpConstant, &vec![1]).unwrap(),
                make(&OpCode::OpDiv, &vec![]).unwrap(),
                make(&OpCode::OpPop, &vec![]).unwrap(),
            ],
        ),
        (
            "true",
            vec![],
            vec![
                make(&OpCode::OpTrue, &vec![]).unwrap(),
                make(&OpCode::OpPop, &vec![]).unwrap(),
            ],
        ),
        (
            "false",
            vec![],
            vec![
                make(&OpCode::OpFalse, &vec![]).unwrap(),
                make(&OpCode::OpPop, &vec![]).unwrap(),
            ],
        ),
        (
            "1 > 2",
            vec!["1", "2"],
            vec![
                make(&OpCode::OpConstant, &vec![0]).unwrap(),
                make(&OpCode::OpConstant, &vec![1]).unwrap(),
                make(&OpCode::OpGreaterThan, &vec![]).unwrap(),
                make(&OpCode::OpPop, &vec![]).unwrap(),
            ],
        ),
        (
            "1 < 2",
            vec!["2", "1"],
            vec![
                make(&OpCode::OpConstant, &vec![0]).unwrap(),
                make(&OpCode::OpConstant, &vec![1]).unwrap(),
                make(&OpCode::OpGreaterThan, &vec![]).unwrap(),
                make(&OpCode::OpPop, &vec![]).unwrap(),
            ],
        ),
        (
            "1 == 2",
            vec!["1", "2"],
            vec![
                make(&OpCode::OpConstant, &vec![0]).unwrap(),
                make(&OpCode::OpConstant, &vec![1]).unwrap(),
                make(&OpCode::OpEqual, &vec![]).unwrap(),
                make(&OpCode::OpPop, &vec![]).unwrap(),
            ],
        ),
        (
            "1 != 2",
            vec!["1", "2"],
            vec![
                make(&OpCode::OpConstant, &vec![0]).unwrap(),
                make(&OpCode::OpConstant, &vec![1]).unwrap(),
                make(&OpCode::OpNotEqual, &vec![]).unwrap(),
                make(&OpCode::OpPop, &vec![]).unwrap(),
            ],
        ),
        (
            "true == false",
            vec![],
            vec![
                make(&OpCode::OpTrue, &vec![]).unwrap(),
                make(&OpCode::OpFalse, &vec![]).unwrap(),
                make(&OpCode::OpEqual, &vec![]).unwrap(),
                make(&OpCode::OpPop, &vec![]).unwrap(),
            ],
        ),
        (
            "-1",
            vec!["1"],
            vec![
                make(&OpCode::OpConstant, &vec![0]).unwrap(),
                make(&OpCode::OpMinus, &vec![]).unwrap(),
                make(&OpCode::OpPop, &vec![]).unwrap(),
            ],
        ),
        (
            "!true",
            vec![],
            vec![
                make(&OpCode::OpTrue, &vec![]).unwrap(),
                make(&OpCode::OpBang, &vec![]).unwrap(),
                make(&OpCode::OpPop, &vec![]).unwrap(),
            ],
        ),
        (
            "if (true) { 10 }; 3333;",
            vec!["10", "3333"],
            vec![
                // 000
                make(&OpCode::OpTrue, &vec![]).unwrap(),
                // 001
                make(&OpCode::OpJumpNotTruthy, &vec![10]).unwrap(),
                // 004
                make(&OpCode::OpConstant, &vec![0]).unwrap(),
                // 007
                make(&OpCode::OpJump, &vec![11]).unwrap(),
                // 010
                make(&OpCode::OpNull, &vec![]).unwrap(),
                // 011
                make(&OpCode::OpPop, &vec![]).unwrap(),
                // 012
                make(&OpCode::OpConstant, &vec![1]).unwrap(),
                // 015
                make(&OpCode::OpPop, &vec![]).unwrap(),
            ],
        ),
        (
            "if (true) { 10 } else { 20 }; 3333; ",
            vec!["10", "20", "3333"],
            vec![
                // 000
                make(&OpCode::OpTrue, &vec![]).unwrap(),
                // 001
                make(&OpCode::OpJumpNotTruthy, &vec![10]).unwrap(),
                // 004
                make(&OpCode::OpConstant, &vec![0]).unwrap(), // 10
                // 007
                make(&OpCode::OpJump, &vec![13]).unwrap(),
                // 010
                make(&OpCode::OpConstant, &vec![1]).unwrap(), // 20
                // 013
                make(&OpCode::OpPop, &vec![]).unwrap(),
                // 014
                make(&OpCode::OpConstant, &vec![2]).unwrap(), // 3333
                // 017
                make(&OpCode::OpPop, &vec![]).unwrap(),
            ],
        ),
        (
            "let one = 1;
                        let two = 2;",
            vec!["1", "2"],
            vec![
                make(&OpCode::OpConstant, &vec![0]).unwrap(),
                make(&OpCode::OpSetGlobal, &vec![0]).unwrap(),
                make(&OpCode::OpConstant, &vec![1]).unwrap(),
                make(&OpCode::OpSetGlobal, &vec![1]).unwrap(),
            ],
        ),
        (
            "let one = 1;
                        one;",
            vec!["1"],
            vec![
                make(&OpCode::OpConstant, &vec![0]).unwrap(),
                make(&OpCode::OpSetGlobal, &vec![0]).unwrap(),
                make(&OpCode::OpGetGlobal, &vec![0]).unwrap(),
                make(&OpCode::OpPop, &vec![]).unwrap(),
            ],
        ),
        (
            "let one = 1;
                        let two = one;
                        two;",
            vec!["1"],
            vec![
                make(&OpCode::OpConstant, &vec![0]).unwrap(),
                make(&OpCode::OpSetGlobal, &vec![0]).unwrap(),
                make(&OpCode::OpGetGlobal, &vec![0]).unwrap(),
                make(&OpCode::OpSetGlobal, &vec![1]).unwrap(),
                make(&OpCode::OpGetGlobal, &vec![1]).unwrap(),
                make(&OpCode::OpPop, &vec![]).unwrap(),
            ],
        ),
    ];

    for (input, expected_constant, expected_instructions) in tests {
        let program = h_parse_for_compile(input);
        let mut compiler = Compiler::new();

        match compiler.compile_program(program.statments) {
            Ok(..) => {
                let bytecode = compiler.bytecode();
                h_test_instruction(&expected_instructions, &bytecode.instruction);
                let expected_constant: Vec<String> =
                    expected_constant.into_iter().map(|c| c.to_string()).collect();
                h_test_constant(&expected_constant, &bytecode.constant);
            }
            Err(..) => {
                panic!("Compile error: ");
            }
        }
    }
}

#[test]
fn test_unresolved_identifier_errors() {
    let program = h_parse_for_compile("missing;");
    let mut compiler = Compiler::new();
    match compiler.compile_program(program.statments) {
        Ok(_) => panic!("expected an unresolved-identifier error"),
        Err(e) => assert!(matches!(
            e,
            evasion::compiler::CompileError::UnresolvedIdentifier { .. }
        )),
    }
}

#[test]
fn test_function_literals_are_rejected() {
    let program = h_parse_for_compile("fn(x) { x; };");
    let mut compiler = Compiler::new();
    match compiler.compile_program(program.statments) {
        Ok(_) => panic!("expected an unsupported-construct error"),
        Err(e) => assert!(matches!(
            e,
            evasion::compiler::CompileError::UnsupportedConstruct
        )),
    }
}

#[test]
fn test_return_statements_are_rejected() {
    let program = h_parse_for_compile("return 5;");
    let mut compiler = Compiler::new();
    match compiler.compile_program(program.statments) {
        Ok(_) => panic!("expected an unsupported-construct error"),
        Err(e) => assert!(matches!(
            e,
            evasion::compiler::CompileError::UnsupportedConstruct
        )),
    }
}

#[test]
fn test_less_than_swaps_operands() {
    let a = h_parse_for_compile("1 < 2");
    let b = h_parse_for_compile("2 > 1");
    let mut ca = Compiler::new();
    let mut cb = Compiler::new();
    ca.compile_program(a.statments).unwrap();
    cb.compile_program(b.statments).unwrap();
    assert_eq!(ca.bytecode().instruction.0, cb.bytecode().instruction.0);
    assert_eq!(ca.bytecode().constant, cb.bytecode().constant);
}

#[test]
fn test_bytecode_over_jump_range_is_rejected() {
    // Each `1;` emits OpConstant plus OpPop, four bytes, so this program
    // outgrows the 16-bit address space a jump operand can span.
    let program = h_parse_for_compile(&"1;".repeat(20_000));
    let mut compiler = Compiler::new();
    match compiler.compile_program(program.statments) {
        Ok(_) => panic!("expected an internal error for oversized bytecode"),
        Err(e) => assert!(matches!(e, evasion::compiler::CompileError::Internal)),
    }
}

#[test]
fn test_definitions_over_globals_frame_are_rejected() {
    // Identifiers are letter runs, so spell each name in base 26.
    let letter_name = |mut i: usize| -> String {
        let mut name = String::from("x");
        for _ in 0..3 {
            name.push((b'a' + (i % 26) as u8) as char);
            i /= 26;
        }
        name
    };
    let mut source = String::new();
    for i in 0..(evasion::vm::GLOBAL_SIZE + 1) {
        source.push_str(&format!("let {} = 1;", letter_name(i)));
    }
    let program = h_parse_for_compile(&source);
    let mut compiler = Compiler::new();
    match compiler.compile_program(program.statments) {
        Ok(_) => panic!("expected an internal error for too many definitions"),
        Err(e) => assert!(matches!(e, evasion::compiler::CompileError::Internal)),
    }
}
