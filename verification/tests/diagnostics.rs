use std::rc::Rc;

use stacklang::checking::{joins_grounded, type_check};
use stacklang::instructions::{Instruction, Procedure, Value};
use stacklang::types::Type;

#[test]
fn add_on_booleans_is_rejected() {
    let instructions = [Instruction::Push(Value::Bool(true)), Instruction::Add];
    let mut type_stack = Vec::new();
    let message = type_check(&instructions, &mut type_stack).unwrap_err();
    assert_eq!(message, "Expected at least [int, int], but got [bool]");
}

#[test]
fn unequal_if_branches_are_rejected() {
    let instructions = [
        Instruction::Push(Value::Bool(true)),
        Instruction::If {
            then_block: vec![Instruction::Push(Value::Integer(1))],
            else_block: vec![],
        },
    ];
    let mut type_stack = Vec::new();
    let message = type_check(&instructions, &mut type_stack).unwrap_err();
    assert_eq!(message, "Expected [int], but got []");
}

#[test]
fn dup_on_empty_stack_is_rejected() {
    let instructions = [Instruction::Dup];
    let mut type_stack = Vec::new();
    let message = type_check(&instructions, &mut type_stack).unwrap_err();
    assert_eq!(message, "Expected at least 1 types, but got only 0 types");
}

#[test]
fn equal_needs_two_operands() {
    let instructions = [Instruction::Push(Value::Integer(1)), Instruction::Equal];
    let mut type_stack = Vec::new();
    let message = type_check(&instructions, &mut type_stack).unwrap_err();
    assert_eq!(message, "Expected at least 2 types, but got only 1 types");
}

#[test]
fn call_on_integer_is_rejected() {
    let instructions = [Instruction::Push(Value::Integer(5)), Instruction::Call];
    let mut type_stack = Vec::new();
    let message = type_check(&instructions, &mut type_stack).unwrap_err();
    assert_eq!(message, "Expected a procedure to call, but got int");
}

#[test]
fn call_with_missing_parameters_is_rejected() {
    let instructions = [
        Instruction::Push(Value::Bool(true)),
        Instruction::Push(Value::Procedure(Rc::new(Procedure {
            typ: Type::Procedure(vec![Type::Integer], vec![]),
            instructions: vec![Instruction::Drop],
        }))),
        Instruction::Call,
    ];
    let mut type_stack = Vec::new();
    let message = type_check(&instructions, &mut type_stack).unwrap_err();
    assert_eq!(message, "Expected at least [int], but got [bool]");
}

#[test]
fn procedure_with_non_procedure_type_is_rejected() {
    let instructions = [Instruction::Push(Value::Procedure(Rc::new(Procedure {
        typ: Type::Integer,
        instructions: vec![],
    })))];
    let mut type_stack = Vec::new();
    let message = type_check(&instructions, &mut type_stack).unwrap_err();
    assert_eq!(message, "Expected a procedure type, but got int");
}

#[test]
fn procedure_body_must_produce_declared_results() {
    let instructions = [Instruction::Push(Value::Procedure(Rc::new(Procedure {
        typ: Type::Procedure(vec![], vec![Type::Integer]),
        instructions: vec![],
    })))];
    let mut type_stack = Vec::new();
    let message = type_check(&instructions, &mut type_stack).unwrap_err();
    assert_eq!(message, "Expected [int], but got []");
}

#[test]
fn while_condition_must_leave_a_boolean() {
    let instructions = [Instruction::While {
        condition_block: vec![Instruction::Push(Value::Integer(1))],
        body_block: vec![],
    }];
    let mut type_stack = Vec::new();
    let message = type_check(&instructions, &mut type_stack).unwrap_err();
    assert_eq!(message, "Expected at least [bool], but got [int]");
}

#[test]
fn while_condition_must_be_stack_neutral() {
    let instructions = [
        Instruction::Push(Value::Integer(1)),
        Instruction::While {
            condition_block: vec![Instruction::Drop, Instruction::Push(Value::Bool(true))],
            body_block: vec![],
        },
    ];
    let mut type_stack = Vec::new();
    let message = type_check(&instructions, &mut type_stack).unwrap_err();
    assert_eq!(message, "Expected [int], but got []");
}

#[test]
fn while_body_must_be_stack_neutral() {
    let instructions = [
        Instruction::Push(Value::Integer(1)),
        Instruction::While {
            condition_block: vec![
                Instruction::Dup,
                Instruction::Push(Value::Integer(10)),
                Instruction::LessThan,
            ],
            body_block: vec![Instruction::Push(Value::Integer(1))],
        },
    ];
    let mut type_stack = Vec::new();
    let message = type_check(&instructions, &mut type_stack).unwrap_err();
    assert_eq!(message, "Expected [int], but got [int, int]");
}

#[test]
fn grounded_joins_are_recognized() {
    let empty: Vec<Type> = Vec::new();
    let branching = [
        Instruction::Push(Value::Bool(true)),
        Instruction::If {
            then_block: vec![Instruction::Push(Value::Integer(1))],
            else_block: vec![Instruction::Push(Value::Integer(2))],
        },
    ];
    assert!(joins_grounded(&branching, &empty));

    let layered = [
        Instruction::Push(Value::Integer(7)),
        Instruction::Push(Value::Bool(true)),
        Instruction::If {
            then_block: vec![Instruction::Push(Value::Integer(1))],
            else_block: vec![
                Instruction::Push(Value::Integer(1)),
                Instruction::Push(Value::Integer(2)),
            ],
        },
    ];
    assert!(!joins_grounded(&layered, &empty));
}

#[test]
fn checker_leaves_successful_stack_observable() {
    let instructions = [
        Instruction::Push(Value::Integer(2)),
        Instruction::Push(Value::Integer(3)),
        Instruction::LessThan,
    ];
    let mut type_stack = Vec::new();
    type_check(&instructions, &mut type_stack).unwrap();
    assert_eq!(type_stack, [Type::Bool]);
}
