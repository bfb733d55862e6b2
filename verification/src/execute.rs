use vstd::pervasive::unreached;
use vstd::prelude::*;
use std::rc::Rc;

use crate::checking::{check, check_instr, check_seq, grounded, grounded_instr, grounded_seq};
use crate::instructions::{
    clone_value, instrs_view, lemma_instrs_view, lemma_values_view, lemma_values_view_drop_last,
    lemma_values_view_push, render_value, type_of, value_equal, value_text, value_view,
    values_view, Instruction, InstructionView, Value, ValueView,
};
use crate::instructions::{proc_view, Procedure};
use crate::sink::{OutSink, WriteError};
use crate::types::TypeView;

verus! {

broadcast use vstd::std_specs::vec::group_vec_axioms;

/// The interpreter's failure: a sink write error, propagated unchanged, or
/// an exhausted step budget.
#[derive(Debug, PartialEq, Eq)]
pub enum RunError {
    Write(WriteError),
    OutOfFuel,
}

/// The types of the values on a stack, bottom to top.
pub open spec fn stack_types(vs: Seq<ValueView>) -> Seq<TypeView> {
    Seq::new(vs.len(), |i: int| type_of(vs[i]))
}

/// A well-formed runtime value: a procedure value's declared type is a
/// procedure type, and the checker maps its body from the declared
/// parameters to the declared results with every join grounded.
pub open spec fn value_wf(v: ValueView) -> bool {
    match v {
        ValueView::Procedure(p) => match p.typ {
            TypeView::Procedure(ps, rs) => check(p.instructions, ps) == Ok::<
                Seq<TypeView>,
                Seq<char>,
            >(rs) && grounded(p.instructions, ps),
            _ => false,
        },
        _ => true,
    }
}

/// Every value on the stack is well-formed.
pub open spec fn stack_wf(vs: Seq<ValueView>) -> bool {
    forall|i: int| 0 <= i < vs.len() ==> value_wf(vs[i])
}

/// The complete outcome of a run given a step budget.
#[verifier::ext_equal]
pub enum RunOutcome {
    /// The run finished, leaving this stack and this printed text.
    Done { stack: Seq<ValueView>, output: Seq<char> },
    /// The step budget ran out before the run finished.
    OutOfFuel,
    /// The run reached a state the semantics gives no step for; on a
    /// tree the checker has accepted this does not happen.
    Stuck,
}

/// One instruction's operational behaviour: the budget pays one unit for
/// each loop iteration and each procedure call. Integer arithmetic wraps
/// in two's complement at the machine word width.
pub open spec fn run_instr(
    ins: InstructionView,
    stack: Seq<ValueView>,
    output: Seq<char>,
    fuel: nat,
) -> RunOutcome
    decreases fuel, ins, 0int,
{
    match ins {
        InstructionView::Push(v) => RunOutcome::Done { stack: stack.push(v), output },
        InstructionView::Dup => if stack.len() >= 1 {
            RunOutcome::Done { stack: stack.push(stack.last()), output }
        } else {
            RunOutcome::Stuck
        },
        InstructionView::Drop => if stack.len() >= 1 {
            RunOutcome::Done { stack: stack.drop_last(), output }
        } else {
            RunOutcome::Stuck
        },
        InstructionView::Add => if stack.len() >= 2 {
            match (stack[stack.len() - 2], stack[stack.len() - 1]) {
                (ValueView::Integer(a), ValueView::Integer(b)) => RunOutcome::Done {
                    stack: stack.drop_last().drop_last().push(
                        ValueView::Integer(a.wrapping_add(b)),
                    ),
                    output,
                },
                _ => RunOutcome::Stuck,
            }
        } else {
            RunOutcome::Stuck
        },
        InstructionView::Subtract => if stack.len() >= 2 {
            match (stack[stack.len() - 2], stack[stack.len() - 1]) {
                (ValueView::Integer(a), ValueView::Integer(b)) => RunOutcome::Done {
                    stack: stack.drop_last().drop_last().push(
                        ValueView::Integer(a.wrapping_sub(b)),
                    ),
                    output,
                },
                _ => RunOutcome::Stuck,
            }
        } else {
            RunOutcome::Stuck
        },
        InstructionView::LessThan => if stack.len() >= 2 {
            match (stack[stack.len() - 2], stack[stack.len() - 1]) {
                (ValueView::Integer(a), ValueView::Integer(b)) => RunOutcome::Done {
                    stack: stack.drop_last().drop_last().push(ValueView::Bool(a < b)),
                    output,
                },
                _ => RunOutcome::Stuck,
            }
        } else {
            RunOutcome::Stuck
        },
        InstructionView::GreaterThan => if stack.len() >= 2 {
            match (stack[stack.len() - 2], stack[stack.len() - 1]) {
                (ValueView::Integer(a), ValueView::Integer(b)) => RunOutcome::Done {
                    stack: stack.drop_last().drop_last().push(ValueView::Bool(a > b)),
                    output,
                },
                _ => RunOutcome::Stuck,
            }
        } else {
            RunOutcome::Stuck
        },
        InstructionView::Equal => if stack.len() >= 2 {
            RunOutcome::Done {
                stack: stack.drop_last().drop_last().push(
                    ValueView::Bool(stack[stack.len() - 2] == stack[stack.len() - 1]),
                ),
                output,
            }
        } else {
            RunOutcome::Stuck
        },
        InstructionView::Not => if stack.len() >= 1 {
            match stack.last() {
                ValueView::Bool(b) => RunOutcome::Done {
                    stack: stack.drop_last().push(ValueView::Bool(!b)),
                    output,
                },
                _ => RunOutcome::Stuck,
            }
        } else {
            RunOutcome::Stuck
        },
        InstructionView::Print => if stack.len() >= 1 {
            RunOutcome::Done {
                stack: stack.drop_last(),
                output: output + value_text(stack.last()) + "\n"@,
            }
        } else {
            RunOutcome::Stuck
        },
        InstructionView::If { then_block, else_block } => if stack.len() >= 1 {
            match stack.last() {
                ValueView::Bool(c) => if c {
                    run_seq(then_block, 0, stack.drop_last(), output, fuel)
                } else {
                    run_seq(else_block, 0, stack.drop_last(), output, fuel)
                },
                _ => RunOutcome::Stuck,
            }
        } else {
            RunOutcome::Stuck
        },
        InstructionView::While { condition_block, body_block } => if fuel == 0 {
            RunOutcome::OutOfFuel
        } else {
            match run_seq(condition_block, 0, stack, output, (fuel - 1) as nat) {
                RunOutcome::Done { stack: s1, output: o1 } => if s1.len() >= 1 {
                    match s1.last() {
                        ValueView::Bool(c) => if c {
                            match run_seq(body_block, 0, s1.drop_last(), o1, (fuel - 1) as nat) {
                                RunOutcome::Done { stack: s2, output: o2 } => run_instr(
                                    ins,
                                    s2,
                                    o2,
                                    (fuel - 1) as nat,
                                ),
                                other => other,
                            }
                        } else {
                            RunOutcome::Done { stack: s1.drop_last(), output: o1 }
                        },
                        _ => RunOutcome::Stuck,
                    }
                } else {
                    RunOutcome::Stuck
                },
                other => other,
            }
        },
        InstructionView::Call => if stack.len() >= 1 {
            match stack.last() {
                ValueView::Procedure(p) => if fuel == 0 {
                    RunOutcome::OutOfFuel
                } else {
                    run_seq(p.instructions, 0, stack.drop_last(), output, (fuel - 1) as nat)
                },
                _ => RunOutcome::Stuck,
            }
        } else {
            RunOutcome::Stuck
        },
    }
}

/// The operational behaviour of the instructions from position `i` on.
pub open spec fn run_seq(
    instrs: Seq<InstructionView>,
    i: int,
    stack: Seq<ValueView>,
    output: Seq<char>,
    fuel: nat,
) -> RunOutcome
    decreases fuel, instrs, instrs.len() - i + 1,
{
    if i < 0 || i >= instrs.len() {
        RunOutcome::Done { stack, output }
    } else {
        match run_instr(instrs[i], stack, output, fuel) {
            RunOutcome::Done { stack: s, output: o } => run_seq(instrs, i + 1, s, o, fuel),
            other => other,
        }
    }
}

/// The operational behaviour of a whole instruction sequence.
pub open spec fn run(
    instrs: Seq<InstructionView>,
    stack: Seq<ValueView>,
    output: Seq<char>,
    fuel: nat,
) -> RunOutcome {
    run_seq(instrs, 0, stack, output, fuel)
}

/// One text extends another when the shorter is a prefix of the longer.
pub open spec fn text_extends(longer: Seq<char>, shorter: Seq<char>) -> bool {
    shorter.len() <= longer.len() && longer.subrange(0, shorter.len() as int) == shorter
}

proof fn lemma_text_extends_refl(t: Seq<char>)
    ensures
        text_extends(t, t),
{
    assert(t.subrange(0, t.len() as int) =~= t);
}

proof fn lemma_text_extends_trans(a: Seq<char>, b: Seq<char>, c: Seq<char>)
    requires
        text_extends(b, a),
        text_extends(c, b),
    ensures
        text_extends(c, a),
{
    assert(c.subrange(0, a.len() as int) =~= a) by {
        assert forall|i: int| 0 <= i < a.len() implies c.subrange(0, a.len() as int)[i] == a[i] by {
            assert(c.subrange(0, b.len() as int)[i] == c[i]);
            assert(b.subrange(0, a.len() as int)[i] == b[i]);
        }
    }
}

proof fn lemma_text_extends_same_len(a: Seq<char>, b: Seq<char>)
    requires
        text_extends(b, a),
        a.len() == b.len(),
    ensures
        a == b,
{
    assert(b.subrange(0, a.len() as int) =~= b);
}

/// A finished run only ever appends to the printed text.
pub proof fn lemma_run_instr_extends(
    ins: InstructionView,
    stack: Seq<ValueView>,
    out: Seq<char>,
    fuel: nat,
)
    ensures
        run_instr(ins, stack, out, fuel) matches RunOutcome::Done { output: o2, .. }
            ==> text_extends(o2, out),
    decreases fuel, ins, 0int,
{
    lemma_text_extends_refl(out);
    match ins {
        InstructionView::Print => {
            if stack.len() >= 1 {
                assert((out + value_text(stack.last()) + "\n"@).subrange(0, out.len() as int)
                    =~= out);
            }
        },
        InstructionView::If { then_block, else_block } => {
            if stack.len() >= 1 {
                match stack.last() {
                    ValueView::Bool(c) => {
                        if c {
                            lemma_run_seq_extends(then_block, 0, stack.drop_last(), out, fuel);
                        } else {
                            lemma_run_seq_extends(else_block, 0, stack.drop_last(), out, fuel);
                        }
                    },
                    _ => {},
                }
            }
        },
        InstructionView::While { condition_block, body_block } => {
            if fuel > 0 {
                let f1 = (fuel - 1) as nat;
                lemma_run_seq_extends(condition_block, 0, stack, out, f1);
                match run_seq(condition_block, 0, stack, out, f1) {
                    RunOutcome::Done { stack: s1, output: o1 } => {
                        if s1.len() >= 1 {
                            match s1.last() {
                                ValueView::Bool(c) => {
                                    if c {
                                        lemma_run_seq_extends(
                                            body_block,
                                            0,
                                            s1.drop_last(),
                                            o1,
                                            f1,
                                        );
                                        match run_seq(body_block, 0, s1.drop_last(), o1, f1) {
                                            RunOutcome::Done { stack: s2, output: ob } => {
                                                lemma_run_instr_extends(ins, s2, ob, f1);
                                                match run_instr(ins, s2, ob, f1) {
                                                    RunOutcome::Done { output: o3, .. } => {
                                                        lemma_text_extends_trans(out, o1, ob);
                                                        lemma_text_extends_trans(out, ob, o3);
                                                    },
                                                    _ => {},
                                                }
                                            },
                                            _ => {},
                                        }
                                    }
                                },
                                _ => {},
                            }
                        }
                    },
                    _ => {},
                }
            }
        },
        InstructionView::Call => {
            if stack.len() >= 1 {
                match stack.last() {
                    ValueView::Procedure(p) => {
                        if fuel > 0 {
                            lemma_run_seq_extends(
                                p.instructions,
                                0,
                                stack.drop_last(),
                                out,
                                (fuel - 1) as nat,
                            );
                        }
                    },
                    _ => {},
                }
            }
        },
        _ => {},
    }
}

/// A finished run of an instruction sequence only ever appends to the
/// printed text.
pub proof fn lemma_run_seq_extends(
    instrs: Seq<InstructionView>,
    i: int,
    stack: Seq<ValueView>,
    out: Seq<char>,
    fuel: nat,
)
    ensures
        run_seq(instrs, i, stack, out, fuel) matches RunOutcome::Done { output: o2, .. }
            ==> text_extends(o2, out),
    decreases fuel, instrs, instrs.len() - i + 1,
{
    lemma_text_extends_refl(out);
    if 0 <= i < instrs.len() {
        lemma_run_instr_extends(instrs[i], stack, out, fuel);
        match run_instr(instrs[i], stack, out, fuel) {
            RunOutcome::Done { stack: s, output: o } => {
                lemma_run_seq_extends(instrs, i + 1, s, o, fuel);
                match run_seq(instrs, i + 1, s, o, fuel) {
                    RunOutcome::Done { output: o2, .. } => {
                        lemma_text_extends_trans(out, o, o2);
                    },
                    _ => {},
                }
            },
            _ => {},
        }
    }
}

/// Whether running this instruction can ever write to the sink: only
/// `Print` writes, and a block or a procedure call may reach one.
pub open spec fn may_print(ins: InstructionView) -> bool
    decreases ins, 0int,
{
    match ins {
        InstructionView::Print => true,
        InstructionView::Call => true,
        InstructionView::If { then_block, else_block } => seq_may_print(then_block)
            || seq_may_print(else_block),
        InstructionView::While { condition_block, body_block } => seq_may_print(condition_block)
            || seq_may_print(body_block),
        _ => false,
    }
}

/// Whether any instruction from position `i` on can write to the sink.
pub open spec fn seq_may_print(instrs: Seq<InstructionView>) -> bool
    decreases instrs, instrs.len() + 1,
{
    exists|i: int| 0 <= i < instrs.len() && may_print(#[trigger] instrs[i])
}

/// One half of the print-ordering law: an instruction that can reach no
/// `Print` leaves the printed text exactly as it was. The other half is
/// the `Print` case of `run_instr` itself, which appends exactly the
/// rendering of the popped value and one newline, in the order reached.
pub proof fn lemma_silent_instr(ins: InstructionView, stack: Seq<ValueView>, out: Seq<char>, fuel: nat)
    requires
        !may_print(ins),
    ensures
        run_instr(ins, stack, out, fuel) matches RunOutcome::Done { output: o2, .. } ==> o2 == out,
    decreases fuel, ins, 0int,
{
    match ins {
        InstructionView::If { then_block, else_block } => {
            if stack.len() >= 1 {
                match stack.last() {
                    ValueView::Bool(c) => {
                        if c {
                            lemma_silent_seq(then_block, 0, stack.drop_last(), out, fuel);
                        } else {
                            lemma_silent_seq(else_block, 0, stack.drop_last(), out, fuel);
                        }
                    },
                    _ => {},
                }
            }
        },
        InstructionView::While { condition_block, body_block } => {
            if fuel > 0 {
                let f1 = (fuel - 1) as nat;
                lemma_silent_seq(condition_block, 0, stack, out, f1);
                match run_seq(condition_block, 0, stack, out, f1) {
                    RunOutcome::Done { stack: s1, output: o1 } => {
                        if s1.len() >= 1 {
                            match s1.last() {
                                ValueView::Bool(c) => {
                                    if c {
                                        lemma_silent_seq(body_block, 0, s1.drop_last(), o1, f1);
                                        match run_seq(body_block, 0, s1.drop_last(), o1, f1) {
                                            RunOutcome::Done { stack: s2, output: ob } => {
                                                lemma_silent_instr(ins, s2, ob, f1);
                                            },
                                            _ => {},
                                        }
                                    }
                                },
                                _ => {},
                            }
                        }
                    },
                    _ => {},
                }
            }
        },
        _ => {},
    }
}

/// No instruction of a sequence that can reach no `Print` writes to the
/// sink.
pub proof fn lemma_silent_seq(
    instrs: Seq<InstructionView>,
    i: int,
    stack: Seq<ValueView>,
    out: Seq<char>,
    fuel: nat,
)
    requires
        !seq_may_print(instrs),
    ensures
        run_seq(instrs, i, stack, out, fuel) matches RunOutcome::Done { output: o2, .. } ==> o2
            == out,
    decreases fuel, instrs, instrs.len() - i + 1,
{
    if 0 <= i < instrs.len() {
        lemma_silent_instr(instrs[i], stack, out, fuel);
        match run_instr(instrs[i], stack, out, fuel) {
            RunOutcome::Done { stack: s, output: o } => {
                lemma_silent_seq(instrs, i + 1, s, o, fuel);
            },
            _ => {},
        }
    }
}

/// A value whose type is `int` is an integer value.
proof fn lemma_int_value(v: ValueView)
    requires
        type_of(v) == TypeView::Integer,
        value_wf(v),
    ensures
        v is Integer,
{
    match v {
        ValueView::Type(_) => {},
        ValueView::Integer(_) => {},
        ValueView::Bool(_) => {},
        ValueView::Procedure(p) => {
            assert(false);
        },
    }
}

/// A value whose type is `bool` is a boolean value.
proof fn lemma_bool_value(v: ValueView)
    requires
        type_of(v) == TypeView::Bool,
        value_wf(v),
    ensures
        v is Bool,
{
    match v {
        ValueView::Type(_) => {},
        ValueView::Integer(_) => {},
        ValueView::Bool(_) => {},
        ValueView::Procedure(p) => {
            assert(false);
        },
    }
}

/// A value whose type is a procedure type is a procedure value.
proof fn lemma_proc_value(v: ValueView)
    requires
        type_of(v) is Procedure,
        value_wf(v),
    ensures
        v is Procedure,
{
}

/// The types of a stack, pointwise.
proof fn lemma_stack_types_len(vs: Seq<ValueView>)
    ensures
        stack_types(vs).len() == vs.len(),
        forall|i: int| 0 <= i < vs.len() ==> stack_types(vs)[i] == type_of(vs[i]),
{
}

/// Dropping the top value keeps the rest well-formed.
proof fn lemma_wf_drop(vs: Seq<ValueView>)
    requires
        stack_wf(vs),
        vs.len() > 0,
    ensures
        stack_wf(vs.drop_last()),
{
    assert forall|i: int| 0 <= i < vs.drop_last().len() implies value_wf(vs.drop_last()[i]) by {
        assert(vs.drop_last()[i] == vs[i]);
    }
}

/// Pushing a well-formed value keeps the stack well-formed.
proof fn lemma_wf_push(vs: Seq<ValueView>, v: ValueView)
    requires
        stack_wf(vs),
        value_wf(v),
    ensures
        stack_wf(vs.push(v)),
{
    assert forall|i: int| 0 <= i < vs.push(v).len() implies value_wf(vs.push(v)[i]) by {
        if i < vs.len() {
            assert(vs.push(v)[i] == vs[i]);
        }
    }
}

/// The types of a stack after a push.
proof fn lemma_types_of_push(vs: Seq<ValueView>, v: ValueView)
    ensures
        stack_types(vs.push(v)) == stack_types(vs).push(type_of(v)),
{
    assert(stack_types(vs.push(v)) =~= stack_types(vs).push(type_of(v)));
}

/// The types of a stack after dropping the top.
proof fn lemma_types_of_drop(vs: Seq<ValueView>)
    requires
        vs.len() > 0,
    ensures
        stack_types(vs.drop_last()) == stack_types(vs).drop_last(),
{
    assert(stack_types(vs.drop_last()) =~= stack_types(vs).drop_last());
}

/// Pops the top value off a non-empty stack.
fn pop_value(stack: &mut Vec<Value>) -> (v: Value)
    requires
        old(stack)@.len() > 0,
    ensures
        final(stack)@ == old(stack)@.drop_last(),
        values_view(final(stack)@) == values_view(old(stack)@).drop_last(),
        value_view(v) == values_view(old(stack)@).last(),
{
    proof {
        lemma_values_view(stack@);
    }
    let r = stack.pop();
    match r {
        Some(v) => {
            proof {
                assert(old(stack)@.subrange(0, old(stack)@.len() - 1) =~= old(
                    stack,
                )@.drop_last());
                lemma_values_view_drop_last(old(stack)@);
                lemma_values_view(old(stack)@);
            }
            v
        },
        None => unreached(),
    }
}

/// The integer held by an integer value.
fn take_int(v: Value) -> (i: isize)
    requires
        value_view(v) is Integer,
    ensures
        value_view(v) == ValueView::Integer(i),
{
    match v {
        Value::Integer(i) => i,
        _ => unreached(),
    }
}

/// The boolean held by a boolean value.
fn take_bool(v: Value) -> (b: bool)
    requires
        value_view(v) is Bool,
    ensures
        value_view(v) == ValueView::Bool(b),
{
    match v {
        Value::Bool(b) => b,
        _ => unreached(),
    }
}

/// The shared procedure held by a procedure value.
fn take_proc(v: Value) -> (p: Rc<Procedure>)
    requires
        value_view(v) is Procedure,
    ensures
        value_view(v) == ValueView::Procedure(proc_view(*p)),
{
    match v {
        Value::Procedure(p) => p,
        _ => unreached(),
    }
}

/// Performs one instruction, exactly as `run_instr` describes it, keeping
/// the stack in the shape the checker computed: on entry the stack's types
/// are `extra` under the checked context `ctx`, and on success they are
/// `extra` under the context `check_instr` yields.
#[verifier::rlimit(100)]
fn exec_instr<S: OutSink>(
    instruction: &Instruction,
    stack: &mut Vec<Value>,
    stdout: &mut S,
    fuel: u64,
    Ghost(extra): Ghost<Seq<TypeView>>,
    Ghost(ctx): Ghost<Seq<TypeView>>,
) -> (r: Result<(), RunError>)
    requires
        check_instr(instruction@, ctx) is Ok,
        grounded_instr(instruction@, ctx),
        stack_types(values_view(old(stack)@)) == extra + ctx,
        stack_wf(values_view(old(stack)@)),
    ensures
        r is Ok ==> ({
            &&& run_instr(instruction@, values_view(old(stack)@), old(stdout).text(), fuel as nat)
                == (RunOutcome::Done {
                stack: values_view(final(stack)@),
                output: final(stdout).text(),
            })
            &&& stack_wf(values_view(final(stack)@))
            &&& stack_types(values_view(final(stack)@)) == extra + check_instr(
                instruction@,
                ctx,
            )->Ok_0
        }),
        r matches Err(RunError::OutOfFuel) ==> run_instr(
            instruction@,
            values_view(old(stack)@),
            old(stdout).text(),
            fuel as nat,
        ) == RunOutcome::OutOfFuel,
        (run_instr(instruction@, values_view(old(stack)@), old(stdout).text(), fuel as nat)
            matches RunOutcome::Done { output: o2, .. } && o2 == old(stdout).text()) ==> r is Ok,
        (S::never_fails() && run_instr(
            instruction@,
            values_view(old(stack)@),
            old(stdout).text(),
            fuel as nat,
        ) matches RunOutcome::Done { .. }) ==> r is Ok,
    decreases fuel, instruction, 5int,
{
    let ghost v0 = values_view(stack@);
    let ghost out0 = stdout.text();
    proof {
        lemma_values_view(stack@);
        lemma_stack_types_len(v0);
        assert(v0.len() == extra.len() + ctx.len());
        assert(stack@.len() == v0.len());
        if ctx.len() >= 1 {
            assert((extra + ctx)[v0.len() - 1] == ctx[ctx.len() - 1]);
            assert(stack_types(v0)[v0.len() - 1] == type_of(v0[v0.len() - 1]));
            assert(type_of(v0[v0.len() - 1]) == ctx[ctx.len() - 1]);
        }
        if ctx.len() >= 2 {
            assert((extra + ctx)[v0.len() - 2] == ctx[ctx.len() - 2]);
            assert(stack_types(v0)[v0.len() - 2] == type_of(v0[v0.len() - 2]));
            assert(type_of(v0[v0.len() - 2]) == ctx[ctx.len() - 2]);
        }
    }
    match instruction {
        Instruction::Push(value) => {
            let c = clone_value(value);
            let ghost before = stack@;
            stack.push(c);
            proof {
                lemma_values_view_push(before, c);
                lemma_types_of_push(v0, value_view(c));
                assert(extra + ctx.push(type_of(value_view(c))) =~= (extra + ctx).push(
                    type_of(value_view(c)),
                ));
                assert(value_wf(value_view(c)));
                lemma_wf_push(v0, value_view(c));
                assert(stack_types(values_view(stack@)) == extra + check_instr(
                    instruction@,
                    ctx,
                )->Ok_0);
            }
            Ok(())
        },
        Instruction::Dup => {
            proof {
                assert(ctx.len() >= 1);
                assert(stack@.len() > 0);
            }
            let n = stack.len();
            let c = clone_value(&stack[n - 1]);
            let ghost before = stack@;
            proof {
                lemma_values_view(before);
                assert(value_view(c) == v0.last());
            }
            stack.push(c);
            proof {
                lemma_values_view_push(before, c);
                lemma_types_of_push(v0, v0.last());
                assert(extra + ctx.push(ctx.last()) =~= (extra + ctx).push(ctx.last()));
                assert(type_of(v0.last()) == ctx.last());
                assert(value_wf(v0.last()));
                lemma_wf_push(v0, v0.last());
                assert(stack_types(values_view(stack@)) == extra + check_instr(
                    instruction@,
                    ctx,
                )->Ok_0);
            }
            Ok(())
        },
        Instruction::Drop => {
            proof {
                assert(ctx.len() >= 1);
                assert(stack@.len() > 0);
            }
            pop_value(stack);
            proof {
                lemma_types_of_drop(v0);
                lemma_wf_drop(v0);
                assert((extra + ctx).drop_last() =~= extra + ctx.drop_last());
            }
            Ok(())
        },
        Instruction::Add => {
            proof {
                assert(ctx.subrange(ctx.len() - 2, ctx.len() as int)[1] == ctx[ctx.len() - 1]);
                assert(ctx.subrange(ctx.len() - 2, ctx.len() as int)[0] == ctx[ctx.len() - 2]);
                assert(type_of(v0[v0.len() - 1]) == TypeView::Integer);
                assert(type_of(v0[v0.len() - 2]) == TypeView::Integer);
                lemma_int_value(v0[v0.len() - 1]);
                lemma_int_value(v0[v0.len() - 2]);
                assert(stack@.len() >= 2);
            }
            let b_val = pop_value(stack);
            let a_val = pop_value(stack);
            proof {
                assert(value_view(a_val) == v0.drop_last().last());
                assert(v0.drop_last().last() == v0[v0.len() - 2]);
            }
            let b = take_int(b_val);
            let a = take_int(a_val);
            let sum = a.wrapping_add(b);
            let ghost before = stack@;
            stack.push(Value::Integer(sum));
            proof {
                lemma_values_view_push(before, Value::Integer(sum));
                lemma_types_of_drop(v0);
                lemma_types_of_drop(v0.drop_last());
                lemma_types_of_push(v0.drop_last().drop_last(), ValueView::Integer(sum));
                assert(extra + ctx.drop_last() =~= ((extra + ctx).drop_last()));
                lemma_wf_drop(v0);
                lemma_wf_drop(v0.drop_last());
                lemma_wf_push(v0.drop_last().drop_last(), ValueView::Integer(sum));
                assert(stack_types(values_view(stack@)) =~= extra + ctx.drop_last());
                assert(run_instr(instruction@, v0, out0, fuel as nat) == (RunOutcome::Done {
                    stack: values_view(stack@),
                    output: out0,
                }));
            }
            Ok(())
        },
        Instruction::Subtract => {
            proof {
                assert(ctx.subrange(ctx.len() - 2, ctx.len() as int)[1] == ctx[ctx.len() - 1]);
                assert(ctx.subrange(ctx.len() - 2, ctx.len() as int)[0] == ctx[ctx.len() - 2]);
                assert(type_of(v0[v0.len() - 1]) == TypeView::Integer);
                assert(type_of(v0[v0.len() - 2]) == TypeView::Integer);
                lemma_int_value(v0[v0.len() - 1]);
                lemma_int_value(v0[v0.len() - 2]);
                assert(stack@.len() >= 2);
            }
            let b_val = pop_value(stack);
            let a_val = pop_value(stack);
            proof {
                assert(value_view(a_val) == v0.drop_last().last());
                assert(v0.drop_last().last() == v0[v0.len() - 2]);
            }
            let b = take_int(b_val);
            let a = take_int(a_val);
            let diff = a.wrapping_sub(b);
            let ghost before = stack@;
            stack.push(Value::Integer(diff));
            proof {
                lemma_values_view_push(before, Value::Integer(diff));
                lemma_types_of_drop(v0);
                lemma_types_of_drop(v0.drop_last());
                lemma_types_of_push(v0.drop_last().drop_last(), ValueView::Integer(diff));
                assert(extra + ctx.drop_last() =~= ((extra + ctx).drop_last()));
                lemma_wf_drop(v0);
                lemma_wf_drop(v0.drop_last());
                lemma_wf_push(v0.drop_last().drop_last(), ValueView::Integer(diff));
                assert(stack_types(values_view(stack@)) =~= extra + ctx.drop_last());
                assert(run_instr(instruction@, v0, out0, fuel as nat) == (RunOutcome::Done {
                    stack: values_view(stack@),
                    output: out0,
                }));
            }
            Ok(())
        },
        Instruction::LessThan => {
            proof {
                assert(ctx.subrange(ctx.len() - 2, ctx.len() as int)[1] == ctx[ctx.len() - 1]);
                assert(ctx.subrange(ctx.len() - 2, ctx.len() as int)[0] == ctx[ctx.len() - 2]);
                assert(type_of(v0[v0.len() - 1]) == TypeView::Integer);
                assert(type_of(v0[v0.len() - 2]) == TypeView::Integer);
                lemma_int_value(v0[v0.len() - 1]);
                lemma_int_value(v0[v0.len() - 2]);
                assert(stack@.len() >= 2);
            }
            let b_val = pop_value(stack);
            let a_val = pop_value(stack);
            proof {
                assert(value_view(a_val) == v0.drop_last().last());
                assert(v0.drop_last().last() == v0[v0.len() - 2]);
            }
            let b = take_int(b_val);
            let a = take_int(a_val);
            let flag = a < b;
            let ghost before = stack@;
            stack.push(Value::Bool(flag));
            proof {
                lemma_values_view_push(before, Value::Bool(flag));
                lemma_types_of_drop(v0);
                lemma_types_of_drop(v0.drop_last());
                lemma_types_of_push(v0.drop_last().drop_last(), ValueView::Bool(flag));
                lemma_wf_drop(v0);
                lemma_wf_drop(v0.drop_last());
                lemma_wf_push(v0.drop_last().drop_last(), ValueView::Bool(flag));
                assert(stack_types(values_view(stack@)) =~= extra + check_instr(
                    instruction@,
                    ctx,
                )->Ok_0);
                assert(run_instr(instruction@, v0, out0, fuel as nat) == (RunOutcome::Done {
                    stack: values_view(stack@),
                    output: out0,
                }));
            }
            Ok(())
        },
        Instruction::GreaterThan => {
            proof {
                assert(ctx.subrange(ctx.len() - 2, ctx.len() as int)[1] == ctx[ctx.len() - 1]);
                assert(ctx.subrange(ctx.len() - 2, ctx.len() as int)[0] == ctx[ctx.len() - 2]);
                assert(type_of(v0[v0.len() - 1]) == TypeView::Integer);
                assert(type_of(v0[v0.len() - 2]) == TypeView::Integer);
                lemma_int_value(v0[v0.len() - 1]);
                lemma_int_value(v0[v0.len() - 2]);
                assert(stack@.len() >= 2);
            }
            let b_val = pop_value(stack);
            let a_val = pop_value(stack);
            proof {
                assert(value_view(a_val) == v0.drop_last().last());
                assert(v0.drop_last().last() == v0[v0.len() - 2]);
            }
            let b = take_int(b_val);
            let a = take_int(a_val);
            let flag = a > b;
            let ghost before = stack@;
            stack.push(Value::Bool(flag));
            proof {
                lemma_values_view_push(before, Value::Bool(flag));
                lemma_types_of_drop(v0);
                lemma_types_of_drop(v0.drop_last());
                lemma_types_of_push(v0.drop_last().drop_last(), ValueView::Bool(flag));
                lemma_wf_drop(v0);
                lemma_wf_drop(v0.drop_last());
                lemma_wf_push(v0.drop_last().drop_last(), ValueView::Bool(flag));
                assert(stack_types(values_view(stack@)) =~= extra + check_instr(
                    instruction@,
                    ctx,
                )->Ok_0);
                assert(run_instr(instruction@, v0, out0, fuel as nat) == (RunOutcome::Done {
                    stack: values_view(stack@),
                    output: out0,
                }));
            }
            Ok(())
        },
        Instruction::Equal => {
            proof {
                assert(ctx.len() >= 2);
                assert(stack@.len() >= 2);
            }
            let b_val = pop_value(stack);
            let a_val = pop_value(stack);
            proof {
                assert(value_view(a_val) == v0.drop_last().last());
                assert(v0.drop_last().last() == v0[v0.len() - 2]);
            }
            let eq = value_equal(&a_val, &b_val);
            let ghost before = stack@;
            stack.push(Value::Bool(eq));
            proof {
                lemma_values_view_push(before, Value::Bool(eq));
                lemma_types_of_drop(v0);
                lemma_types_of_drop(v0.drop_last());
                lemma_types_of_push(v0.drop_last().drop_last(), ValueView::Bool(eq));
                lemma_wf_drop(v0);
                lemma_wf_drop(v0.drop_last());
                lemma_wf_push(v0.drop_last().drop_last(), ValueView::Bool(eq));
                assert(stack_types(values_view(stack@)) =~= extra + check_instr(
                    instruction@,
                    ctx,
                )->Ok_0);
                assert(run_instr(instruction@, v0, out0, fuel as nat) == (RunOutcome::Done {
                    stack: values_view(stack@),
                    output: out0,
                }));
            }
            Ok(())
        },
        Instruction::Not => {
            proof {
                assert(ctx.subrange(ctx.len() - 1, ctx.len() as int)[0] == ctx[ctx.len() - 1]);
                assert(type_of(v0[v0.len() - 1]) == TypeView::Bool);
                lemma_bool_value(v0[v0.len() - 1]);
                assert(stack@.len() >= 1);
            }
            let b_val = pop_value(stack);
            let b = take_bool(b_val);
            let ghost before = stack@;
            stack.push(Value::Bool(!b));
            proof {
                lemma_values_view_push(before, Value::Bool(!b));
                lemma_types_of_drop(v0);
                lemma_types_of_push(v0.drop_last(), ValueView::Bool(!b));
                lemma_wf_drop(v0);
                lemma_wf_push(v0.drop_last(), ValueView::Bool(!b));
                assert(stack_types(values_view(stack@)) =~= extra + ctx);
                assert(run_instr(instruction@, v0, out0, fuel as nat) == (RunOutcome::Done {
                    stack: values_view(stack@),
                    output: out0,
                }));
            }
            Ok(())
        },
        Instruction::Print => {
            proof {
                assert(ctx.len() >= 1);
                assert(stack@.len() > 0);
            }
            let v = pop_value(stack);
            let s = render_value(&v);
            match stdout.write_line(s.as_str()) {
                Ok(()) => {},
                Err(e) => {
                    proof {
                        reveal_strlit("\n");
                        assert((out0 + value_text(v0.last()) + "\n"@).len() > out0.len());
                    }
                    return Err(RunError::Write(e));
                },
            }
            proof {
                lemma_types_of_drop(v0);
                lemma_wf_drop(v0);
                assert((extra + ctx).drop_last() =~= extra + ctx.drop_last());
                assert(stdout.text() =~= out0 + value_text(v0.last()) + "\n"@);
                assert(run_instr(instruction@, v0, out0, fuel as nat) == (RunOutcome::Done {
                    stack: values_view(stack@),
                    output: stdout.text(),
                }));
            }
            Ok(())
        },
        Instruction::If { then_block, else_block } => {
            proof {
                assert(ctx.subrange(ctx.len() - 1, ctx.len() as int)[0] == ctx[ctx.len() - 1]);
                assert(type_of(v0[v0.len() - 1]) == TypeView::Bool);
                lemma_bool_value(v0[v0.len() - 1]);
                assert(stack@.len() > 0);
            }
            let c_val = pop_value(stack);
            let c = take_bool(c_val);
            proof {
                lemma_wf_drop(v0);
                lemma_types_of_drop(v0);
                assert(ctx.drop_last() =~= Seq::<TypeView>::empty());
                assert(stack_types(values_view(stack@)) =~= extra + Seq::<TypeView>::empty());
            }
            if c {
                match exec_seq(
                    then_block.as_slice(),
                    stack,
                    stdout,
                    fuel,
                    Ghost(extra),
                    Ghost(Seq::empty()),
                ) {
                    Ok(()) => {},
                    Err(e) => {
                        return Err(e);
                    },
                }
            } else {
                match exec_seq(
                    else_block.as_slice(),
                    stack,
                    stdout,
                    fuel,
                    Ghost(extra),
                    Ghost(Seq::empty()),
                ) {
                    Ok(()) => {},
                    Err(e) => {
                        return Err(e);
                    },
                }
            }
            Ok(())
        },
        Instruction::While { condition_block, body_block } => {
            proof {
                crate::checking::lemma_loop_neutrality(
                    instrs_view(condition_block@),
                    instrs_view(body_block@),
                    ctx,
                    check_instr(instruction@, ctx)->Ok_0,
                );
            }
            exec_while(condition_block, body_block, stack, stdout, fuel, Ghost(extra), Ghost(ctx))
        },
        Instruction::Call => {
            proof {
                assert(ctx.subrange(ctx.len() - 1, ctx.len() as int) =~= ctx.subrange(
                    ctx.len() - 1,
                    ctx.len() as int,
                ));
                assert(type_of(v0[v0.len() - 1]) == ctx[ctx.len() - 1]);
                lemma_proc_value(v0[v0.len() - 1]);
                assert(stack@.len() > 0);
            }
            let p_val = pop_value(stack);
            let p = take_proc(p_val);
            if fuel == 0 {
                return Err(RunError::OutOfFuel);
            }
            let ghost pw = v0.last()->Procedure_0;
            let ghost pt = ctx.last();
            let ghost ps_v = pt->Procedure_0;
            let ghost rs_v = pt->Procedure_1;
            let ghost rest_t = ctx.drop_last();
            let ghost c0 = rest_t.subrange(0, rest_t.len() - ps_v.len());
            proof {
                assert(pw == proc_view(*p));
                assert(pw.typ == pt);
                assert(value_wf(v0.last()));
                assert(check(pw.instructions, ps_v) == Ok::<Seq<TypeView>, Seq<char>>(rs_v));
                assert(grounded(pw.instructions, ps_v));
                lemma_wf_drop(v0);
                lemma_types_of_drop(v0);
                assert((extra + ctx).drop_last() =~= extra + rest_t);
                assert(rest_t.subrange(rest_t.len() - ps_v.len(), rest_t.len() as int) == ps_v);
                assert(extra + rest_t =~= (extra + c0) + ps_v);
            }
            match exec_seq(
                p.instructions.as_slice(),
                stack,
                stdout,
                fuel - 1,
                Ghost(extra + c0),
                Ghost(ps_v),
            ) {
                Ok(()) => {},
                Err(e) => {
                    return Err(e);
                },
            }
            proof {
                assert((extra + c0) + rs_v =~= extra + (c0 + rs_v));
                assert(check_instr(instruction@, ctx)->Ok_0 == c0 + rs_v);
            }
            Ok(())
        },
    }
}

/// Runs one `While` loop to completion, one budget unit per iteration,
/// exactly as `run_instr` describes it.
#[verifier::rlimit(100)]
fn exec_while<S: OutSink>(
    condition_block: &Vec<Instruction>,
    body_block: &Vec<Instruction>,
    stack: &mut Vec<Value>,
    stdout: &mut S,
    fuel: u64,
    Ghost(extra): Ghost<Seq<TypeView>>,
    Ghost(sctx): Ghost<Seq<TypeView>>,
) -> (r: Result<(), RunError>)
    requires
        check(instrs_view(condition_block@), sctx) == Ok::<Seq<TypeView>, Seq<char>>(
            sctx.push(TypeView::Bool),
        ),
        check(instrs_view(body_block@), sctx) == Ok::<Seq<TypeView>, Seq<char>>(sctx),
        grounded(instrs_view(condition_block@), sctx),
        grounded(instrs_view(body_block@), sctx),
        stack_types(values_view(old(stack)@)) == extra + sctx,
        stack_wf(values_view(old(stack)@)),
    ensures
        r is Ok ==> ({
            &&& run_instr(
                InstructionView::While {
                    condition_block: instrs_view(condition_block@),
                    body_block: instrs_view(body_block@),
                },
                values_view(old(stack)@),
                old(stdout).text(),
                fuel as nat,
            ) == (RunOutcome::Done {
                stack: values_view(final(stack)@),
                output: final(stdout).text(),
            })
            &&& stack_wf(values_view(final(stack)@))
            &&& stack_types(values_view(final(stack)@)) == extra + sctx
        }),
        r matches Err(RunError::OutOfFuel) ==> run_instr(
            InstructionView::While {
                condition_block: instrs_view(condition_block@),
                body_block: instrs_view(body_block@),
            },
            values_view(old(stack)@),
            old(stdout).text(),
            fuel as nat,
        ) == RunOutcome::OutOfFuel,
        (run_instr(
            InstructionView::While {
                condition_block: instrs_view(condition_block@),
                body_block: instrs_view(body_block@),
            },
            values_view(old(stack)@),
            old(stdout).text(),
            fuel as nat,
        ) matches RunOutcome::Done { output: o2, .. } && o2 == old(stdout).text()) ==> r is Ok,
        (S::never_fails() && run_instr(
            InstructionView::While {
                condition_block: instrs_view(condition_block@),
                body_block: instrs_view(body_block@),
            },
            values_view(old(stack)@),
            old(stdout).text(),
            fuel as nat,
        ) matches RunOutcome::Done { .. }) ==> r is Ok,
    decreases fuel, condition_block@, 11int,
{
    let ghost w = InstructionView::While {
        condition_block: instrs_view(condition_block@),
        body_block: instrs_view(body_block@),
    };
    let ghost v0 = values_view(stack@);
    let ghost out0 = stdout.text();
    if fuel == 0 {
        return Err(RunError::OutOfFuel);
    }
    let f1 = fuel - 1;
    match exec_seq(condition_block.as_slice(), stack, stdout, f1, Ghost(extra), Ghost(sctx)) {
        Ok(()) => {},
        Err(e) => {
            proof {
                let civ = instrs_view(condition_block@);
                let biv = instrs_view(body_block@);
                if S::never_fails() {
                    match run_instr(w, v0, out0, fuel as nat) {
                        RunOutcome::Done { .. } => {
                            match run_seq(civ, 0, v0, out0, f1 as nat) {
                                RunOutcome::Done { .. } => {
                                    assert(false);
                                },
                                _ => {},
                            }
                        },
                        _ => {},
                    }
                }
                lemma_run_seq_extends(civ, 0, v0, out0, f1 as nat);
                match run_instr(w, v0, out0, fuel as nat) {
                    RunOutcome::Done { output: og, .. } => {
                        if og == out0 {
                            match run_seq(civ, 0, v0, out0, f1 as nat) {
                                RunOutcome::Done { stack: s1g, output: o1g } => {
                                    match s1g.last() {
                                        ValueView::Bool(cg) => {
                                            if cg {
                                                lemma_run_seq_extends(
                                                    biv,
                                                    0,
                                                    s1g.drop_last(),
                                                    o1g,
                                                    f1 as nat,
                                                );
                                                match run_seq(
                                                    biv,
                                                    0,
                                                    s1g.drop_last(),
                                                    o1g,
                                                    f1 as nat,
                                                ) {
                                                    RunOutcome::Done {
                                                        stack: s2g,
                                                        output: obg,
                                                    } => {
                                                        lemma_run_instr_extends(
                                                            w,
                                                            s2g,
                                                            obg,
                                                            f1 as nat,
                                                        );
                                                        lemma_text_extends_trans(out0, o1g, obg);
                                                        lemma_text_extends_trans(out0, obg, og);
                                                        lemma_text_extends_same_len(out0, o1g);
                                                    },
                                                    _ => {},
                                                }
                                            }
                                        },
                                        _ => {},
                                    }
                                    assert(false);
                                },
                                _ => {},
                            }
                        }
                    },
                    _ => {},
                }
            }
            return Err(e);
        },
    }
    let ghost v1 = values_view(stack@);
    let ghost out1 = stdout.text();
    proof {
        lemma_values_view(stack@);
        lemma_stack_types_len(v1);
        assert(stack_types(v1) == extra + sctx.push(TypeView::Bool));
        assert(v1.len() == extra.len() + sctx.len() + 1);
        assert((extra + sctx.push(TypeView::Bool))[v1.len() - 1] == TypeView::Bool);
        assert(stack_types(v1)[v1.len() - 1] == type_of(v1[v1.len() - 1]));
        assert(type_of(v1[v1.len() - 1]) == TypeView::Bool);
        lemma_bool_value(v1[v1.len() - 1]);
        assert(stack@.len() > 0);
    }
    let c_val = pop_value(stack);
    let c = take_bool(c_val);
    proof {
        lemma_wf_drop(v1);
        lemma_types_of_drop(v1);
        assert((extra + sctx.push(TypeView::Bool)).drop_last() =~= extra + sctx);
    }
    if !c {
        proof {
            assert(run_instr(w, v0, out0, fuel as nat) == (RunOutcome::Done {
                stack: values_view(stack@),
                output: stdout.text(),
            }));
        }
        return Ok(());
    }
    match exec_seq(body_block.as_slice(), stack, stdout, f1, Ghost(extra), Ghost(sctx)) {
        Ok(()) => {},
        Err(e) => {
            proof {
                let civ = instrs_view(condition_block@);
                let biv = instrs_view(body_block@);
                if S::never_fails() {
                    match run_instr(w, v0, out0, fuel as nat) {
                        RunOutcome::Done { .. } => {
                            match run_seq(biv, 0, v1.drop_last(), out1, f1 as nat) {
                                RunOutcome::Done { .. } => {
                                    assert(false);
                                },
                                _ => {},
                            }
                        },
                        _ => {},
                    }
                }
                match run_instr(w, v0, out0, fuel as nat) {
                    RunOutcome::Done { output: og, .. } => {
                        if og == out0 {
                            lemma_run_seq_extends(civ, 0, v0, out0, f1 as nat);
                            match run_seq(biv, 0, v1.drop_last(), out1, f1 as nat) {
                                RunOutcome::Done { stack: s2g, output: obg } => {
                                    lemma_run_seq_extends(
                                        biv,
                                        0,
                                        v1.drop_last(),
                                        out1,
                                        f1 as nat,
                                    );
                                    lemma_run_instr_extends(w, s2g, obg, f1 as nat);
                                    lemma_text_extends_trans(out0, out1, obg);
                                    lemma_text_extends_trans(out0, obg, og);
                                    lemma_text_extends_same_len(out1, obg);
                                    assert(false);
                                },
                                _ => {},
                            }
                        }
                    },
                    _ => {},
                }
            }
            return Err(e);
        },
    }
    let ghost v2 = values_view(stack@);
    let ghost out2 = stdout.text();
    let r = exec_while(condition_block, body_block, stack, stdout, f1, Ghost(extra), Ghost(sctx));
    proof {
        assert(run_instr(w, v0, out0, fuel as nat) == run_instr(w, v2, out2, f1 as nat));
        match run_instr(w, v0, out0, fuel as nat) {
            RunOutcome::Done { output: og, .. } => {
                if og == out0 {
                    lemma_run_seq_extends(
                        instrs_view(condition_block@),
                        0,
                        v0,
                        out0,
                        f1 as nat,
                    );
                    lemma_run_seq_extends(
                        instrs_view(body_block@),
                        0,
                        v1.drop_last(),
                        out1,
                        f1 as nat,
                    );
                    lemma_run_instr_extends(w, v2, out2, f1 as nat);
                    lemma_text_extends_trans(out0, out1, out2);
                    lemma_text_extends_same_len(out0, out2);
                }
            },
            _ => {},
        }
    }
    r
}

/// Runs the instructions from the start of `instructions`, exactly as
/// `run_seq` describes them, keeping the stack in the shape the checker
/// computed.
#[verifier::rlimit(100)]
fn exec_seq<S: OutSink>(
    instructions: &[Instruction],
    stack: &mut Vec<Value>,
    stdout: &mut S,
    fuel: u64,
    Ghost(extra): Ghost<Seq<TypeView>>,
    Ghost(ctx): Ghost<Seq<TypeView>>,
) -> (r: Result<(), RunError>)
    requires
        check(instrs_view(instructions@), ctx) is Ok,
        grounded(instrs_view(instructions@), ctx),
        stack_types(values_view(old(stack)@)) == extra + ctx,
        stack_wf(values_view(old(stack)@)),
    ensures
        r is Ok ==> ({
            &&& run(
                instrs_view(instructions@),
                values_view(old(stack)@),
                old(stdout).text(),
                fuel as nat,
            ) == (RunOutcome::Done {
                stack: values_view(final(stack)@),
                output: final(stdout).text(),
            })
            &&& stack_wf(values_view(final(stack)@))
            &&& stack_types(values_view(final(stack)@)) == extra + check(
                instrs_view(instructions@),
                ctx,
            )->Ok_0
        }),
        r matches Err(RunError::OutOfFuel) ==> run(
            instrs_view(instructions@),
            values_view(old(stack)@),
            old(stdout).text(),
            fuel as nat,
        ) == RunOutcome::OutOfFuel,
        (run(instrs_view(instructions@), values_view(old(stack)@), old(stdout).text(), fuel as nat)
            matches RunOutcome::Done { output: o2, .. } && o2 == old(stdout).text()) ==> r is Ok,
        (S::never_fails() && run(
            instrs_view(instructions@),
            values_view(old(stack)@),
            old(stdout).text(),
            fuel as nat,
        ) matches RunOutcome::Done { .. }) ==> r is Ok,
    decreases fuel, instructions@, 9int,
{
    let ghost iv = instrs_view(instructions@);
    let ghost overall = check(iv, ctx);
    proof {
        lemma_instrs_view(instructions@);
        lemma_text_extends_refl(stdout.text());
    }
    let mut i: usize = 0;
    let ghost mut cur_ctx = ctx;
    while i < instructions.len()
        invariant
            i <= instructions@.len(),
            iv == instrs_view(instructions@),
            iv.len() == instructions@.len(),
            forall|q: int| 0 <= q < instructions@.len() ==> iv[q] == instructions@[q]@,
            overall == check(iv, ctx),
            overall is Ok,
            check_seq(iv, i as int, cur_ctx) == overall,
            grounded_seq(iv, i as int, cur_ctx),
            stack_types(values_view(stack@)) == extra + cur_ctx,
            stack_wf(values_view(stack@)),
            run_seq(iv, i as int, values_view(stack@), stdout.text(), fuel as nat) == run_seq(
                iv,
                0,
                values_view(old(stack)@),
                old(stdout).text(),
                fuel as nat,
            ),
            text_extends(stdout.text(), old(stdout).text()),
        decreases instructions@.len() - i,
    {
        let ghost prev_view = values_view(stack@);
        let ghost prev_out = stdout.text();
        proof {
            assert(check_instr(iv[i as int], cur_ctx) is Ok);
        }
        match exec_instr(&instructions[i], stack, stdout, fuel, Ghost(extra), Ghost(cur_ctx)) {
            Ok(()) => {},
            Err(e) => {
                proof {
                    match e {
                        RunError::OutOfFuel => {
                            assert(run_instr(iv[i as int], prev_view, prev_out, fuel as nat)
                                == RunOutcome::OutOfFuel);
                            assert(run_seq(iv, i as int, prev_view, prev_out, fuel as nat)
                                == RunOutcome::OutOfFuel);
                        },
                        RunError::Write(_) => {},
                    }
                    if S::never_fails() {
                        match run_seq(
                            iv,
                            0,
                            values_view(old(stack)@),
                            old(stdout).text(),
                            fuel as nat,
                        ) {
                            RunOutcome::Done { .. } => {
                                match run_instr(iv[i as int], prev_view, prev_out, fuel as nat) {
                                    RunOutcome::Done { .. } => {
                                        assert(false);
                                    },
                                    _ => {},
                                }
                            },
                            _ => {},
                        }
                    }
                    match run_seq(iv, 0, values_view(old(stack)@), old(stdout).text(), fuel as nat) {
                        RunOutcome::Done { output: og, .. } => {
                            if og == old(stdout).text() {
                                lemma_run_instr_extends(iv[i as int], prev_view, prev_out, fuel as nat);
                                match run_instr(iv[i as int], prev_view, prev_out, fuel as nat) {
                                    RunOutcome::Done { stack: sg, output: og1 } => {
                                        lemma_run_seq_extends(iv, i as int + 1, sg, og1, fuel as nat);
                                        lemma_text_extends_trans(old(stdout).text(), prev_out, og1);
                                        lemma_text_extends_trans(old(stdout).text(), og1, og);
                                        lemma_text_extends_same_len(prev_out, og1);
                                        assert(false);
                                    },
                                    _ => {},
                                }
                            }
                        },
                        _ => {},
                    }
                }
                return Err(e);
            },
        }
        proof {
            assert(run_instr(iv[i as int], prev_view, prev_out, fuel as nat) == (RunOutcome::Done {
                stack: values_view(stack@),
                output: stdout.text(),
            }));
            lemma_run_instr_extends(iv[i as int], prev_view, prev_out, fuel as nat);
            lemma_text_extends_trans(old(stdout).text(), prev_out, stdout.text());
            cur_ctx = check_instr(iv[i as int], cur_ctx)->Ok_0;
        }
        i += 1;
    }
    Ok(())
}

/// Runs a type-checked instruction tree against `stack`, writing each
/// `Print` rendering and a newline to `stdout`, and mutating the stack in
/// place. `fuel` bounds loop iterations and procedure calls, a bound the
/// semantics itself does not have; an exhausted budget is reported as
/// `RunError::OutOfFuel`, and a sink failure is propagated unchanged as
/// `RunError::Write`. On success the final stack and the text written are
/// exactly what the operational semantics `run` yields, and the stack's
/// types are exactly the abstract stack the checker computed. Success is
/// also owed, not merely described: when `run` finishes within the budget
/// and the sink is a kind that accepts every write (`StringSink`), or the
/// run finishes without printing at all, the call must return `Ok` —
/// failure can only come from the budget or from the sink.
///
/// The caller must hand over a tree the checker accepted whose `If` joins
/// are also grounded: the checker reads an `If`'s else branch from an
/// empty abstract stack, so where an `If` is checked with types below its
/// condition, the checked shape and the else path's runtime shape can
/// part ways, and the guarantee above would not hold.
pub fn execute<S: OutSink>(
    instructions: &[Instruction],
    stack: &mut Vec<Value>,
    stdout: &mut S,
    fuel: u64,
) -> (r: Result<(), RunError>)
    requires
        check(instrs_view(instructions@), stack_types(values_view(old(stack)@))) is Ok,
        grounded(instrs_view(instructions@), stack_types(values_view(old(stack)@))),
        stack_wf(values_view(old(stack)@)),
    ensures
        r is Ok ==> ({
            &&& run(
                instrs_view(instructions@),
                values_view(old(stack)@),
                old(stdout).text(),
                fuel as nat,
            ) == (RunOutcome::Done {
                stack: values_view(final(stack)@),
                output: final(stdout).text(),
            })
            &&& stack_wf(values_view(final(stack)@))
            &&& stack_types(values_view(final(stack)@)) == check(
                instrs_view(instructions@),
                stack_types(values_view(old(stack)@)),
            )->Ok_0
        }),
        r matches Err(RunError::OutOfFuel) ==> run(
            instrs_view(instructions@),
            values_view(old(stack)@),
            old(stdout).text(),
            fuel as nat,
        ) == RunOutcome::OutOfFuel,
        (run(instrs_view(instructions@), values_view(old(stack)@), old(stdout).text(), fuel as nat)
            matches RunOutcome::Done { output: o2, .. } && o2 == old(stdout).text()) ==> r is Ok,
        (S::never_fails() && run(
            instrs_view(instructions@),
            values_view(old(stack)@),
            old(stdout).text(),
            fuel as nat,
        ) matches RunOutcome::Done { .. }) ==> r is Ok,
{
    let ghost ctx = stack_types(values_view(stack@));
    proof {
        assert(stack_types(values_view(stack@)) =~= Seq::<TypeView>::empty() + ctx);
    }
    let r = exec_seq(instructions, stack, stdout, fuel, Ghost(Seq::empty()), Ghost(ctx));
    proof {
        if r is Ok {
            assert(Seq::<TypeView>::empty() + check(instrs_view(instructions@), ctx)->Ok_0
                =~= check(instrs_view(instructions@), ctx)->Ok_0);
        }
    }
    r
}

} // verus!

