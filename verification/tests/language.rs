use std::rc::Rc;

use stacklang::checking::type_check;
use stacklang::execute::execute;
use stacklang::instructions::{Instruction, Procedure, Value};
use stacklang::sink::StringSink;
use stacklang::types::Type;

const FUEL: u64 = 1_000_000;

#[test]
fn add() {
    let instructions = [
        Instruction::Push(Value::Integer(5)),
        Instruction::Push(Value::Integer(6)),
        Instruction::Add,
        Instruction::Print,
    ];

    let mut type_stack = Vec::new();
    type_check(&instructions, &mut type_stack).unwrap();
    assert_eq!(type_stack, []);

    let mut output = StringSink::new();
    let mut stack = Vec::new();
    execute(&instructions, &mut stack, &mut output, FUEL).unwrap();
    assert_eq!(stack, []);
    assert_eq!(output.into_string(), "11\n");
}

#[test]
fn if_else() {
    let instructions = [
        Instruction::Push(Value::Bool(true)),
        Instruction::If {
            then_block: vec![Instruction::Push(Value::Integer(69))],
            else_block: vec![Instruction::Push(Value::Integer(420))],
        },
        Instruction::Print,
        Instruction::Push(Value::Bool(false)),
        Instruction::If {
            then_block: vec![Instruction::Push(Value::Integer(5))],
            else_block: vec![
                Instruction::Push(Value::Integer(34)),
                Instruction::Push(Value::Integer(35)),
                Instruction::Add,
            ],
        },
    ];

    let mut type_stack = Vec::new();
    type_check(&instructions, &mut type_stack).unwrap();
    assert_eq!(type_stack, [Type::Integer]);

    let mut output = StringSink::new();
    let mut stack = Vec::new();
    execute(&instructions, &mut stack, &mut output, FUEL).unwrap();
    assert_eq!(stack, [Value::Integer(69)]);
    assert_eq!(output.into_string(), "69\n");
}

#[test]
fn while_() {
    let instructions = [
        Instruction::Push(Value::Integer(1)),
        Instruction::While {
            condition_block: vec![
                Instruction::Dup,
                Instruction::Push(Value::Integer(10)),
                Instruction::GreaterThan,
                Instruction::Not,
            ],
            body_block: vec![
                Instruction::Dup,
                Instruction::Print,
                Instruction::Push(Value::Integer(1)),
                Instruction::Add,
            ],
        },
        Instruction::Drop,
    ];

    let mut type_stack = Vec::new();
    type_check(&instructions, &mut type_stack).unwrap();
    assert_eq!(type_stack, []);

    let mut output = StringSink::new();
    let mut stack = Vec::new();
    execute(&instructions, &mut stack, &mut output, FUEL).unwrap();
    assert_eq!(stack, []);
    assert_eq!(output.into_string(), "1\n2\n3\n4\n5\n6\n7\n8\n9\n10\n");
}

#[test]
fn procedure() {
    let instructions = [
        Instruction::Push(Value::Integer(5)),
        Instruction::Push(Value::Procedure(Rc::new(Procedure {
            typ: Type::Procedure(vec![Type::Integer], vec![Type::Integer]),
            instructions: vec![],
        }))),
        Instruction::Call,
        Instruction::Print,
        Instruction::Push(Value::Integer(34)),
        Instruction::Push(Value::Integer(35)),
        Instruction::Push(Value::Procedure(Rc::new(Procedure {
            typ: Type::Procedure(vec![Type::Integer, Type::Integer], vec![]),
            instructions: vec![Instruction::Add, Instruction::Print],
        }))),
        Instruction::Call,
    ];

    let mut type_stack = Vec::new();
    type_check(&instructions, &mut type_stack).unwrap();
    assert_eq!(type_stack, []);

    let mut output = StringSink::new();
    let mut stack = Vec::new();
    execute(&instructions, &mut stack, &mut output, FUEL).unwrap();
    assert_eq!(stack, []);
    assert_eq!(output.into_string(), "5\n69\n");
}
