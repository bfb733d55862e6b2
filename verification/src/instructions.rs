use std::rc::Rc;
use vstd::prelude::*;
use vstd::string::StringExecFns;

use crate::text::{int_text, push_int_text};
use crate::types::{clone_type, push_type_text, type_equal, type_text, Type, TypeView};

verus! {

broadcast use vstd::std_specs::vec::group_vec_axioms;

/// An immutable procedure: its declared stack-transformer type and its body.
#[derive(Debug, PartialEq)]
pub struct Procedure {
    pub typ: Type,
    pub instructions: Vec<Instruction>,
}

/// A runtime value: a type, an integer, a boolean, or a shared reference to
/// a procedure.
#[derive(Debug, PartialEq)]
pub enum Value {
    Type(Type),
    Integer(isize),
    Bool(bool),
    Procedure(Rc<Procedure>),
}

/// One node of the instruction tree. Block-structured instructions carry
/// their blocks as nested instruction sequences.
#[derive(Debug, PartialEq)]
pub enum Instruction {
    Push(Value),
    Dup,
    Drop,
    Add,
    Subtract,
    LessThan,
    GreaterThan,
    Equal,
    Not,
    Print,
    If { then_block: Vec<Instruction>, else_block: Vec<Instruction> },
    While { condition_block: Vec<Instruction>, body_block: Vec<Instruction> },
    Call,
}

/// Mathematical model of a `Procedure`.
#[verifier::ext_equal]
pub struct ProcedureView {
    pub typ: TypeView,
    pub instructions: Seq<InstructionView>,
}

/// Mathematical model of a `Value`; procedure sharing disappears in the
/// model, which holds the procedure itself.
#[verifier::ext_equal]
pub enum ValueView {
    Type(TypeView),
    Integer(isize),
    Bool(bool),
    Procedure(ProcedureView),
}

/// Mathematical model of an `Instruction`.
#[verifier::ext_equal]
pub enum InstructionView {
    Push(ValueView),
    Dup,
    Drop,
    Add,
    Subtract,
    LessThan,
    GreaterThan,
    Equal,
    Not,
    Print,
    If { then_block: Seq<InstructionView>, else_block: Seq<InstructionView> },
    While { condition_block: Seq<InstructionView>, body_block: Seq<InstructionView> },
    Call,
}

/// Model of a procedure.
pub open spec fn proc_view(p: Procedure) -> ProcedureView
    decreases p, 1int,
{
    ProcedureView { typ: p.typ@, instructions: instrs_view(p.instructions@) }
}

/// Model of a value.
pub open spec fn value_view(v: Value) -> ValueView
    decreases v, 2int,
{
    match v {
        Value::Type(t) => ValueView::Type(t@),
        Value::Integer(i) => ValueView::Integer(i),
        Value::Bool(b) => ValueView::Bool(b),
        Value::Procedure(p) => ValueView::Procedure(proc_view(*p)),
    }
}

/// Model of an instruction.
pub open spec fn instr_view(ins: Instruction) -> InstructionView
    decreases ins, 3int,
{
    match ins {
        Instruction::Push(v) => InstructionView::Push(value_view(v)),
        Instruction::Dup => InstructionView::Dup,
        Instruction::Drop => InstructionView::Drop,
        Instruction::Add => InstructionView::Add,
        Instruction::Subtract => InstructionView::Subtract,
        Instruction::LessThan => InstructionView::LessThan,
        Instruction::GreaterThan => InstructionView::GreaterThan,
        Instruction::Equal => InstructionView::Equal,
        Instruction::Not => InstructionView::Not,
        Instruction::Print => InstructionView::Print,
        Instruction::If { then_block, else_block } => InstructionView::If {
            then_block: instrs_view(then_block@),
            else_block: instrs_view(else_block@),
        },
        Instruction::While { condition_block, body_block } => InstructionView::While {
            condition_block: instrs_view(condition_block@),
            body_block: instrs_view(body_block@),
        },
        Instruction::Call => InstructionView::Call,
    }
}

/// Model of the first `n` elements of a sequence of instructions.
pub open spec fn instrs_view_to(is: Seq<Instruction>, n: int) -> Seq<InstructionView>
    decreases is, n,
{
    if n <= 0 || n > is.len() {
        Seq::empty()
    } else {
        instrs_view_to(is, n - 1).push(instr_view(is[n - 1]))
    }
}

/// Model of a sequence of instructions, element by element.
pub open spec fn instrs_view(is: Seq<Instruction>) -> Seq<InstructionView>
    decreases is, is.len() as int + 4,
{
    instrs_view_to(is, is.len() as int)
}

/// Model of the first `n` elements of a sequence of values.
pub open spec fn values_view_to(vs: Seq<Value>, n: int) -> Seq<ValueView>
    decreases vs, n,
{
    if n <= 0 || n > vs.len() {
        Seq::empty()
    } else {
        values_view_to(vs, n - 1).push(value_view(vs[n - 1]))
    }
}

/// Model of a sequence of values, element by element.
pub open spec fn values_view(vs: Seq<Value>) -> Seq<ValueView>
    decreases vs, vs.len() as int + 4,
{
    values_view_to(vs, vs.len() as int)
}

impl View for Procedure {
    type V = ProcedureView;

    open spec fn view(&self) -> ProcedureView {
        proc_view(*self)
    }
}

impl View for Value {
    type V = ValueView;

    open spec fn view(&self) -> ValueView {
        value_view(*self)
    }
}

impl View for Instruction {
    type V = InstructionView;

    open spec fn view(&self) -> InstructionView {
        instr_view(*self)
    }
}

proof fn lemma_instrs_view_to(is: Seq<Instruction>, n: int)
    requires
        0 <= n <= is.len(),
    ensures
        instrs_view_to(is, n).len() == n,
        forall|i: int| 0 <= i < n ==> instrs_view_to(is, n)[i] == is[i]@,
    decreases n,
{
    if n > 0 {
        lemma_instrs_view_to(is, n - 1);
        assert(instrs_view_to(is, n) == instrs_view_to(is, n - 1).push(is[n - 1]@));
        assert forall|i: int| 0 <= i < n implies instrs_view_to(is, n)[i] == is[i]@ by {
            if i < n - 1 {
                assert(instrs_view_to(is, n - 1)[i] == is[i]@);
            }
        }
    }
}

/// The model of an instruction sequence has the same length and is the
/// model of the elements, pointwise.
pub proof fn lemma_instrs_view(is: Seq<Instruction>)
    ensures
        instrs_view(is).len() == is.len(),
        forall|i: int| 0 <= i < is.len() ==> instrs_view(is)[i] == is[i]@,
{
    lemma_instrs_view_to(is, is.len() as int);
}

proof fn lemma_values_view_to(vs: Seq<Value>, n: int)
    requires
        0 <= n <= vs.len(),
    ensures
        values_view_to(vs, n).len() == n,
        forall|i: int| 0 <= i < n ==> values_view_to(vs, n)[i] == vs[i]@,
    decreases n,
{
    if n > 0 {
        lemma_values_view_to(vs, n - 1);
        assert(values_view_to(vs, n) == values_view_to(vs, n - 1).push(vs[n - 1]@));
        assert forall|i: int| 0 <= i < n implies values_view_to(vs, n)[i] == vs[i]@ by {
            if i < n - 1 {
                assert(values_view_to(vs, n - 1)[i] == vs[i]@);
            }
        }
    }
}

/// The model of a value sequence has the same length and is the model of
/// the elements, pointwise.
pub proof fn lemma_values_view(vs: Seq<Value>)
    ensures
        values_view(vs).len() == vs.len(),
        forall|i: int| 0 <= i < vs.len() ==> values_view(vs)[i] == vs[i]@,
{
    lemma_values_view_to(vs, vs.len() as int);
}

/// Appending a value appends its model.
pub proof fn lemma_values_view_push(s: Seq<Value>, x: Value)
    ensures
        values_view(s.push(x)) == values_view(s).push(value_view(x)),
{
    lemma_values_view(s.push(x));
    lemma_values_view(s);
    assert(values_view(s.push(x)) =~= values_view(s).push(value_view(x)));
}

/// Dropping the last value drops the last model element.
pub proof fn lemma_values_view_drop_last(s: Seq<Value>)
    requires
        s.len() > 0,
    ensures
        values_view(s.drop_last()) == values_view(s).drop_last(),
{
    lemma_values_view(s.drop_last());
    lemma_values_view(s);
    assert(values_view(s.drop_last()) =~= values_view(s).drop_last());
}

/// The type of a value: values carry their type directly; a procedure
/// value's type is the declared type of the procedure it references.
pub open spec fn type_of(v: ValueView) -> TypeView {
    match v {
        ValueView::Type(_) => TypeView::Type,
        ValueView::Integer(_) => TypeView::Integer,
        ValueView::Bool(_) => TypeView::Bool,
        ValueView::Procedure(p) => p.typ,
    }
}

impl Value {
    /// The type of this value.
    pub fn get_type(&self) -> (t: Type)
        ensures
            t@ == type_of(self@),
    {
        match self {
            Value::Type(_) => Type::Type,
            Value::Integer(_) => Type::Integer,
            Value::Bool(_) => Type::Bool,
            Value::Procedure(p) => clone_type(&p.typ),
        }
    }
}

/// Relies on `Rc::clone` from std: the clone shares the same referent, so
/// it is the same value.
#[verifier::external_body]
fn share_procedure(p: &Rc<Procedure>) -> (r: Rc<Procedure>)
    ensures
        r == *p,
{
    Rc::clone(p)
}

/// Copy of a value with the same model; a procedure value shares its
/// referenced procedure instead of copying the body.
pub fn clone_value(v: &Value) -> (r: Value)
    ensures
        r@ == v@,
{
    match v {
        Value::Type(t) => Value::Type(clone_type(t)),
        Value::Integer(i) => Value::Integer(*i),
        Value::Bool(b) => Value::Bool(*b),
        Value::Procedure(p) => Value::Procedure(share_procedure(p)),
    }
}

/// Structural equality of two values, the equality the interpreter's
/// `Equal` instruction computes; procedure values compare by their type and
/// body, structurally.
pub fn value_equal(a: &Value, b: &Value) -> (r: bool)
    ensures
        r == (a@ == b@),
    decreases a, 2int,
{
    match (a, b) {
        (Value::Type(x), Value::Type(y)) => type_equal(x, y),
        (Value::Integer(x), Value::Integer(y)) => *x == *y,
        (Value::Bool(x), Value::Bool(y)) => *x == *y,
        (Value::Procedure(p), Value::Procedure(q)) => procedure_equal(p, q),
        _ => false,
    }
}

/// Structural equality of two procedures: same declared type, same body.
fn procedure_equal(a: &Procedure, b: &Procedure) -> (r: bool)
    ensures
        r == (a@ == b@),
    decreases a, 1int,
{
    let te = type_equal(&a.typ, &b.typ);
    let ie = instrs_equal(&a.instructions, &b.instructions);
    te && ie
}

/// Structural equality of two instruction sequences.
fn instrs_equal(a: &Vec<Instruction>, b: &Vec<Instruction>) -> (r: bool)
    ensures
        r == (instrs_view(a@) == instrs_view(b@)),
    decreases a@, 0int,
{
    proof {
        lemma_instrs_view(a@);
        lemma_instrs_view(b@);
    }
    if a.len() != b.len() {
        return false;
    }
    let mut i: usize = 0;
    while i < a.len()
        invariant
            i <= a@.len(),
            a@.len() == b@.len(),
            forall|j: int| 0 <= j < i ==> instrs_view(a@)[j] == instrs_view(b@)[j],
        decreases a@.len() - i,
    {
        proof {
            lemma_instrs_view(a@);
            lemma_instrs_view(b@);
        }
        if !instr_equal(&a[i], &b[i]) {
            proof {
                assert(instrs_view(a@)[i as int] != instrs_view(b@)[i as int]);
            }
            return false;
        }
        i += 1;
    }
    proof {
        lemma_instrs_view(a@);
        lemma_instrs_view(b@);
        assert(instrs_view(a@) =~= instrs_view(b@));
    }
    true
}

/// Structural equality of two instructions.
fn instr_equal(a: &Instruction, b: &Instruction) -> (r: bool)
    ensures
        r == (a@ == b@),
    decreases a, 3int,
{
    match (a, b) {
        (Instruction::Push(x), Instruction::Push(y)) => value_equal(x, y),
        (Instruction::Dup, Instruction::Dup) => true,
        (Instruction::Drop, Instruction::Drop) => true,
        (Instruction::Add, Instruction::Add) => true,
        (Instruction::Subtract, Instruction::Subtract) => true,
        (Instruction::LessThan, Instruction::LessThan) => true,
        (Instruction::GreaterThan, Instruction::GreaterThan) => true,
        (Instruction::Equal, Instruction::Equal) => true,
        (Instruction::Not, Instruction::Not) => true,
        (Instruction::Print, Instruction::Print) => true,
        (
            Instruction::If { then_block: at, else_block: ae },
            Instruction::If { then_block: bt, else_block: be },
        ) => {
            let t = instrs_equal(at, bt);
            let e = instrs_equal(ae, be);
            t && e
        },
        (
            Instruction::While { condition_block: ac, body_block: ab },
            Instruction::While { condition_block: bc, body_block: bb },
        ) => {
            let c = instrs_equal(ac, bc);
            let d = instrs_equal(ab, bb);
            c && d
        },
        (Instruction::Call, Instruction::Call) => true,
        _ => false,
    }
}

/// The rendering of a value: integers in signed decimal, booleans as
/// `true` or `false`, types as their own rendering, and procedure values as
/// their type followed by an elided body.
pub open spec fn value_text(v: ValueView) -> Seq<char> {
    match v {
        ValueView::Type(t) => type_text(t),
        ValueView::Integer(i) => int_text(i as int),
        ValueView::Bool(b) => if b {
            "true"@
        } else {
            "false"@
        },
        ValueView::Procedure(p) => type_text(p.typ) + " { ... }"@,
    }
}

/// The human-readable rendering of `v`, as `Print` writes it.
pub fn render_value(v: &Value) -> (out: String)
    ensures
        out@ == value_text(v@),
{
    let mut out = String::new();
    match v {
        Value::Type(t) => push_type_text(&mut out, t),
        Value::Integer(i) => push_int_text(&mut out, *i),
        Value::Bool(b) => {
            if *b {
                out.append("true");
            } else {
                out.append("false");
            }
        },
        Value::Procedure(p) => {
            push_type_text(&mut out, &p.typ);
            out.append(" { ... }");
        },
    }
    proof {
        assert(out@ =~= value_text(v@));
    }
    out
}

} // verus!
