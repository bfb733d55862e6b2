use std::rc::Rc;

use stacklang::checking::type_check;
use stacklang::execute::{execute, RunError};
use stacklang::instructions::{Instruction, Procedure, Value};
use stacklang::sink::{FailingSink, StringSink, WriteError};
use stacklang::types::Type;

const FUEL: u64 = 1_000_000;

fn run_program(instructions: &[Instruction]) -> (Vec<Value>, String) {
    let mut type_stack = Vec::new();
    type_check(instructions, &mut type_stack).unwrap();
    let mut output = StringSink::new();
    let mut stack = Vec::new();
    execute(instructions, &mut stack, &mut output, FUEL).unwrap();
    (stack, output.into_string())
}

#[test]
fn type_display_follows_the_grammar() {
    assert_eq!(Type::Type.display(), "type");
    assert_eq!(Type::Integer.display(), "int");
    assert_eq!(Type::Bool.display(), "bool");
    assert_eq!(Type::Procedure(vec![], vec![]).display(), "proc[] -> []");
    assert_eq!(
        Type::Procedure(vec![Type::Integer, Type::Bool], vec![Type::Type]).display(),
        "proc[int bool] -> [type]"
    );
    assert_eq!(
        Type::Procedure(
            vec![Type::Procedure(vec![], vec![Type::Integer])],
            vec![Type::Bool],
        )
        .display(),
        "proc[proc[] -> [int]] -> [bool]"
    );
}

#[test]
fn print_renders_every_value_kind() {
    let instructions = [
        Instruction::Push(Value::Integer(-42)),
        Instruction::Print,
        Instruction::Push(Value::Bool(false)),
        Instruction::Print,
        Instruction::Push(Value::Type(Type::Procedure(vec![Type::Integer], vec![]))),
        Instruction::Print,
        Instruction::Push(Value::Procedure(Rc::new(Procedure {
            typ: Type::Procedure(vec![], vec![]),
            instructions: vec![],
        }))),
        Instruction::Print,
    ];
    let (stack, output) = run_program(&instructions);
    assert_eq!(stack, []);
    assert_eq!(output, "-42\nfalse\nproc[int] -> []\nproc[] -> [] { ... }\n");
}

#[test]
fn arithmetic_and_comparisons() {
    let instructions = [
        Instruction::Push(Value::Integer(10)),
        Instruction::Push(Value::Integer(4)),
        Instruction::Subtract,
        Instruction::Print,
        Instruction::Push(Value::Integer(1)),
        Instruction::Push(Value::Integer(2)),
        Instruction::LessThan,
        Instruction::Print,
        Instruction::Push(Value::Integer(1)),
        Instruction::Push(Value::Integer(2)),
        Instruction::GreaterThan,
        Instruction::Print,
        Instruction::Push(Value::Bool(true)),
        Instruction::Not,
        Instruction::Print,
        Instruction::Push(Value::Integer(5)),
        Instruction::Dup,
        Instruction::Add,
        Instruction::Print,
    ];
    let (stack, output) = run_program(&instructions);
    assert_eq!(stack, []);
    assert_eq!(output, "6\ntrue\nfalse\nfalse\n10\n");
}

#[test]
fn equal_compares_structurally() {
    let shared = Rc::new(Procedure {
        typ: Type::Procedure(vec![], vec![]),
        instructions: vec![],
    });
    let same = Rc::new(Procedure {
        typ: Type::Procedure(vec![], vec![]),
        instructions: vec![],
    });
    let other = Rc::new(Procedure {
        typ: Type::Procedure(vec![], vec![]),
        instructions: vec![
            Instruction::Push(Value::Integer(1)),
            Instruction::Drop,
        ],
    });
    let instructions = [
        Instruction::Push(Value::Integer(1)),
        Instruction::Push(Value::Integer(1)),
        Instruction::Equal,
        Instruction::Print,
        Instruction::Push(Value::Integer(1)),
        Instruction::Push(Value::Integer(2)),
        Instruction::Equal,
        Instruction::Print,
        Instruction::Push(Value::Procedure(shared)),
        Instruction::Push(Value::Procedure(same)),
        Instruction::Equal,
        Instruction::Print,
        Instruction::Push(Value::Procedure(Rc::new(Procedure {
            typ: Type::Procedure(vec![], vec![]),
            instructions: vec![],
        }))),
        Instruction::Push(Value::Procedure(other)),
        Instruction::Equal,
        Instruction::Print,
        Instruction::Push(Value::Integer(3)),
        Instruction::Push(Value::Bool(true)),
        Instruction::Equal,
        Instruction::Print,
    ];
    let (stack, output) = run_program(&instructions);
    assert_eq!(stack, []);
    assert_eq!(output, "true\nfalse\ntrue\nfalse\nfalse\n");
}

#[test]
fn get_type_reports_value_types() {
    assert_eq!(Value::Integer(3).get_type(), Type::Integer);
    assert_eq!(Value::Bool(true).get_type(), Type::Bool);
    assert_eq!(Value::Type(Type::Bool).get_type(), Type::Type);
    let p = Value::Procedure(Rc::new(Procedure {
        typ: Type::Procedure(vec![Type::Integer], vec![Type::Bool]),
        instructions: vec![Instruction::Drop, Instruction::Push(Value::Bool(true))],
    }));
    assert_eq!(p.get_type(), Type::Procedure(vec![Type::Integer], vec![Type::Bool]));
}

#[test]
fn sink_errors_are_propagated() {
    let instructions = [Instruction::Push(Value::Integer(1)), Instruction::Print];
    let mut type_stack = Vec::new();
    type_check(&instructions, &mut type_stack).unwrap();
    let mut sink = FailingSink;
    let mut stack = Vec::new();
    let result = execute(&instructions, &mut stack, &mut sink, FUEL);
    assert_eq!(result, Err(RunError::Write(WriteError)));
}

#[test]
fn an_endless_loop_exhausts_the_budget() {
    let instructions = [
        Instruction::Push(Value::Bool(true)),
        Instruction::While {
            condition_block: vec![Instruction::Dup],
            body_block: vec![],
        },
    ];
    let mut type_stack = Vec::new();
    type_check(&instructions, &mut type_stack).unwrap();
    let mut output = StringSink::new();
    let mut stack = Vec::new();
    let result = execute(&instructions, &mut stack, &mut output, 5);
    assert_eq!(result, Err(RunError::OutOfFuel));
}

#[test]
fn addition_wraps_in_twos_complement() {
    let instructions = [
        Instruction::Push(Value::Integer(isize::MAX)),
        Instruction::Push(Value::Integer(1)),
        Instruction::Add,
        Instruction::Print,
    ];
    let (stack, output) = run_program(&instructions);
    assert_eq!(stack, []);
    assert_eq!(output, format!("{}\n", isize::MAX.wrapping_add(1)));
}

#[test]
fn procedure_bodies_may_push_procedures() {
    let inner = Rc::new(Procedure {
        typ: Type::Procedure(vec![], vec![]),
        instructions: vec![],
    });
    let outer = Rc::new(Procedure {
        typ: Type::Procedure(vec![Type::Integer], vec![Type::Integer]),
        instructions: vec![
            Instruction::Push(Value::Procedure(inner)),
            Instruction::Drop,
        ],
    });
    let instructions = [
        Instruction::Push(Value::Integer(1)),
        Instruction::Push(Value::Procedure(outer)),
        Instruction::Call,
        Instruction::Print,
    ];
    let (stack, output) = run_program(&instructions);
    assert_eq!(stack, []);
    assert_eq!(output, "1\n");
}

#[test]
fn drop_discards_the_top_value() {
    let instructions = [
        Instruction::Push(Value::Integer(7)),
        Instruction::Push(Value::Integer(8)),
        Instruction::Drop,
    ];
    let (stack, output) = run_program(&instructions);
    assert_eq!(stack, [Value::Integer(7)]);
    assert_eq!(output, "");
}
