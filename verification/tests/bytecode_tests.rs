use evasion::bytecode::{make, read_operhands, read_unit16, Definition, Instruction, OpCode};

#[test]
fn test_make() {
    let tests: Vec<(OpCode, Vec<usize>, Vec<u8>)> = vec![
        (OpCode::OpConstant, vec![65534], vec![0, 255, 254]),
        (OpCode::OpAdd, vec![], vec![1]),
        (OpCode::OpPop, vec![], vec![2]),
    ];
    for (opcode, operand, expected) in tests {
        let instruction = make(&opcode, &operand);

        if let Some(instruction) = instruction {
            if instruction.0.len() != expected.len() {
                panic!(
                    "Expectect instruction length of {}, got={}",
                    expected.len(),
                    instruction.0.len()
                )
            }

            for idx in 0..expected.len() {
                if instruction.0[idx] != expected[idx] {
                    panic!(
                        "Wrong token at positon={} while parsing the instruction, expected={}, got={}",
                        idx, expected[idx], instruction.0[idx]
                    )
                }
            }
        } else {
            panic!("Couldn't find an instruction for opcode={:?}", opcode)
        }
    }
}

#[test]
fn test_instruction_string() {
    let instructions = vec![
        make(&OpCode::OpAdd, &vec![]),
        make(&OpCode::OpConstant, &vec![2]),
        make(&OpCode::OpConstant, &vec![65535]),
        make(&OpCode::OpPop, &vec![]),
    ];

    let expected = "0000 OpAdd\n0001 OpConstant 2\n0004 OpConstant 65535\n0007 OpPop\n";

    let instr = Instruction(
        instructions
            .into_iter()
            .map(|f| f.unwrap().0)
            .flatten()
            .collect::<Vec<u8>>(),
    );

    if instr.render() != expected.to_string() {
        panic!(
            "Instructions wrongly formatted.\nwant={}\ngot={}",
            expected,
            instr.render()
        )
    }
}

#[test]
fn test_read_operhands() {
    let tests: Vec<(OpCode, Vec<usize>, usize)> = vec![(OpCode::OpConstant, vec![65534], 2)];

    for (opcode, operand, bytes_read) in tests {
        let instruction = make(&opcode, &operand).unwrap();
        let definition = Definition::lookup(&opcode);

        if let Some(def) = definition {
            // The opcode byte is removed so only the operand bytes remain.
            let (read, length) = read_operhands(&def, &instruction.0[1..]);

            if length != bytes_read {
                panic!("wrong length of bytes read\nwant={}, got={}", bytes_read, length)
            }
            for idx in 0..operand.len() {
                if read[idx] != operand[idx] {
                    panic!(
                        "wrong operand read at index={}\nwant={}, got={}",
                        idx, operand[idx], read[idx]
                    )
                }
            }
        } else {
            panic!("Definition not found")
        }
    }
}

#[test]
fn test_read_unit16() {
    assert_eq!(read_unit16(&[255, 254]), 65534);
    assert_eq!(read_unit16(&[0, 7]), 7);
    assert_eq!(read_unit16(&[1, 0]), 256);
}
