use vstd::prelude::*;
use vstd::string::StringExecFns;

use crate::instructions::{
    instrs_view, lemma_instrs_view, Instruction, InstructionView, ProcedureView, Value, ValueView,
};
use crate::instructions::type_of;
use crate::text::{dec_text, push_dec_text};
use crate::types::{
    clone_type, clone_types, lemma_types_view, lemma_types_view_drop_last, lemma_types_view_push,
    push_type_text, push_types_list, type_equal, type_text, types_equal, types_list_text,
    types_view, Type, TypeView,
};

verus! {

broadcast use vstd::std_specs::vec::group_vec_axioms;

/// Diagnostic for a stack that holds fewer types than an instruction needs.
pub open spec fn count_message(need: nat, got: nat) -> Seq<char> {
    "Expected at least "@ + dec_text(need) + " types, but got only "@ + dec_text(got) + " types"@
}

/// Diagnostic for a stack whose top does not match the types an
/// instruction consumes.
pub open spec fn shape_message(need: Seq<TypeView>, stack: Seq<TypeView>) -> Seq<char> {
    "Expected at least "@ + types_list_text(need) + ", but got "@ + types_list_text(stack)
}

/// Diagnostic for two stacks that a control-flow join requires to be equal
/// but are not.
pub open spec fn join_message(want: Seq<TypeView>, got: Seq<TypeView>) -> Seq<char> {
    "Expected "@ + types_list_text(want) + ", but got "@ + types_list_text(got)
}

/// Diagnostic for `Call` on a stack whose top is not a procedure type.
pub open spec fn call_message(t: TypeView) -> Seq<char> {
    "Expected a procedure to call, but got "@ + type_text(t)
}

/// Diagnostic for pushing a procedure value whose declared type is not a
/// procedure type.
pub open spec fn proc_type_message(t: TypeView) -> Seq<char> {
    "Expected a procedure type, but got "@ + type_text(t)
}

/// Whether the top of `stack` is exactly `need`, in order.
pub open spec fn has_top(stack: Seq<TypeView>, need: Seq<TypeView>) -> bool {
    stack.len() >= need.len() && stack.subrange(
        stack.len() - need.len(),
        stack.len() as int,
    ) == need
}

/// The checker's verdict on one instruction against an abstract stack:
/// the stack after the instruction's effect, or the first diagnostic.
pub open spec fn check_instr(ins: InstructionView, stack: Seq<TypeView>) -> Result<
    Seq<TypeView>,
    Seq<char>,
>
    decreases ins, 0int,
{
    match ins {
        InstructionView::Push(v) => match v {
            ValueView::Procedure(p) => match p.typ {
                TypeView::Procedure(ps, rs) => match check_seq(p.instructions, 0, ps) {
                    Ok(fin) => if fin == rs {
                        Ok(stack.push(p.typ))
                    } else {
                        Err(join_message(rs, fin))
                    },
                    Err(m) => Err(m),
                },
                t => Err(proc_type_message(t)),
            },
            _ => Ok(stack.push(type_of(v))),
        },
        InstructionView::Dup => if stack.len() >= 1 {
            Ok(stack.push(stack.last()))
        } else {
            Err(count_message(1, stack.len()))
        },
        InstructionView::Drop => if stack.len() >= 1 {
            Ok(stack.drop_last())
        } else {
            Err(count_message(1, stack.len()))
        },
        InstructionView::Add | InstructionView::Subtract => if has_top(
            stack,
            seq![TypeView::Integer, TypeView::Integer],
        ) {
            Ok(stack.drop_last())
        } else {
            Err(shape_message(seq![TypeView::Integer, TypeView::Integer], stack))
        },
        InstructionView::LessThan | InstructionView::GreaterThan => if has_top(
            stack,
            seq![TypeView::Integer, TypeView::Integer],
        ) {
            Ok(stack.drop_last().drop_last().push(TypeView::Bool))
        } else {
            Err(shape_message(seq![TypeView::Integer, TypeView::Integer], stack))
        },
        InstructionView::Equal => if stack.len() >= 2 {
            Ok(stack.drop_last().drop_last().push(TypeView::Bool))
        } else {
            Err(count_message(2, stack.len()))
        },
        InstructionView::Not => if has_top(stack, seq![TypeView::Bool]) {
            Ok(stack)
        } else {
            Err(shape_message(seq![TypeView::Bool], stack))
        },
        InstructionView::Print => if stack.len() >= 1 {
            Ok(stack.drop_last())
        } else {
            Err(count_message(1, stack.len()))
        },
        InstructionView::If { then_block, else_block } => if has_top(
            stack,
            seq![TypeView::Bool],
        ) {
            match check_seq(then_block, 0, stack.drop_last()) {
                Ok(t_stack) => match check_seq(else_block, 0, Seq::empty()) {
                    Ok(e_stack) => if e_stack == t_stack {
                        Ok(t_stack)
                    } else {
                        Err(join_message(t_stack, e_stack))
                    },
                    Err(m) => Err(m),
                },
                Err(m) => Err(m),
            }
        } else {
            Err(shape_message(seq![TypeView::Bool], stack))
        },
        InstructionView::While { condition_block, body_block } => match check_seq(
            condition_block,
            0,
            stack,
        ) {
            Ok(c_stack) => if has_top(c_stack, seq![TypeView::Bool]) {
                if c_stack.drop_last() == stack {
                    match check_seq(body_block, 0, stack) {
                        Ok(b_stack) => if b_stack == stack {
                            Ok(stack)
                        } else {
                            Err(join_message(stack, b_stack))
                        },
                        Err(m) => Err(m),
                    }
                } else {
                    Err(join_message(stack, c_stack.drop_last()))
                }
            } else {
                Err(shape_message(seq![TypeView::Bool], c_stack))
            },
            Err(m) => Err(m),
        },
        InstructionView::Call => if stack.len() >= 1 {
            match stack.last() {
                TypeView::Procedure(ps, rs) => {
                    let rest = stack.drop_last();
                    if has_top(rest, ps) {
                        Ok(rest.subrange(0, rest.len() - ps.len()) + rs)
                    } else {
                        Err(shape_message(ps, rest))
                    }
                },
                t => Err(call_message(t)),
            }
        } else {
            Err(count_message(1, stack.len()))
        },
    }
}

/// The checker's verdict on the instructions from position `i` on, run left
/// to right against `stack`.
pub open spec fn check_seq(
    instrs: Seq<InstructionView>,
    i: int,
    stack: Seq<TypeView>,
) -> Result<Seq<TypeView>, Seq<char>>
    decreases instrs, instrs.len() - i + 1,
{
    if i < 0 || i >= instrs.len() {
        Ok(stack)
    } else {
        match check_instr(instrs[i], stack) {
            Ok(next) => check_seq(instrs, i + 1, next),
            Err(m) => Err(m),
        }
    }
}

/// The checker's verdict on a whole instruction sequence against `stack`.
pub open spec fn check(instrs: Seq<InstructionView>, stack: Seq<TypeView>) -> Result<
    Seq<TypeView>,
    Seq<char>,
> {
    check_seq(instrs, 0, stack)
}

/// Whether one instruction keeps every `If` join grounded: an `If` is met
/// only where nothing but its condition is on the abstract stack, so that
/// checking its else branch from an empty stack agrees with how the branch
/// runs. Procedure bodies and loop blocks are grounded recursively.
pub open spec fn grounded_instr(ins: InstructionView, stack: Seq<TypeView>) -> bool
    decreases ins, 0int,
{
    match ins {
        InstructionView::Push(v) => match v {
            ValueView::Procedure(p) => match p.typ {
                TypeView::Procedure(ps, rs) => grounded_seq(p.instructions, 0, ps),
                _ => true,
            },
            _ => true,
        },
        InstructionView::If { then_block, else_block } => stack.len() <= 1 && grounded_seq(
            then_block,
            0,
            Seq::empty(),
        ) && grounded_seq(else_block, 0, Seq::empty()),
        InstructionView::While { condition_block, body_block } => grounded_seq(
            condition_block,
            0,
            stack,
        ) && grounded_seq(body_block, 0, stack),
        _ => true,
    }
}

/// Whether the instructions from position `i` on keep every `If` join
/// grounded, following the abstract stacks the checker computes.
pub open spec fn grounded_seq(instrs: Seq<InstructionView>, i: int, stack: Seq<TypeView>) -> bool
    decreases instrs, instrs.len() - i + 1,
{
    if i < 0 || i >= instrs.len() {
        true
    } else {
        grounded_instr(instrs[i], stack) && match check_instr(instrs[i], stack) {
            Ok(next) => grounded_seq(instrs, i + 1, next),
            Err(_) => true,
        }
    }
}

/// Whether a whole instruction sequence keeps every `If` join grounded.
pub open spec fn grounded(instrs: Seq<InstructionView>, stack: Seq<TypeView>) -> bool {
    grounded_seq(instrs, 0, stack)
}

/// A list holding `Integer, Integer`, the operand types of the arithmetic
/// and comparison instructions.
fn int_int_need() -> (r: Vec<Type>)
    ensures
        types_view(r@) == seq![TypeView::Integer, TypeView::Integer],
{
    let mut r: Vec<Type> = Vec::new();
    r.push(Type::Integer);
    r.push(Type::Integer);
    proof {
        lemma_types_view(r@);
        assert(types_view(r@) =~= seq![TypeView::Integer, TypeView::Integer]);
    }
    r
}

/// A list holding the single type `Bool`.
fn bool_need() -> (r: Vec<Type>)
    ensures
        types_view(r@) == seq![TypeView::Bool],
{
    let mut r: Vec<Type> = Vec::new();
    r.push(Type::Bool);
    proof {
        lemma_types_view(r@);
        assert(types_view(r@) =~= seq![TypeView::Bool]);
    }
    r
}

/// Whether the top of `stack` is exactly `need`, in order.
fn top_matches(stack: &Vec<Type>, need: &Vec<Type>) -> (r: bool)
    ensures
        r == has_top(types_view(stack@), types_view(need@)),
{
    proof {
        lemma_types_view(stack@);
        lemma_types_view(need@);
    }
    if stack.len() < need.len() {
        return false;
    }
    let base = stack.len() - need.len();
    let ghost sub = types_view(stack@).subrange(
        types_view(stack@).len() - types_view(need@).len(),
        types_view(stack@).len() as int,
    );
    let mut j: usize = 0;
    while j < need.len()
        invariant
            stack@.len() >= need@.len(),
            base + need@.len() == stack@.len(),
            j <= need@.len(),
            sub == types_view(stack@).subrange(
                types_view(stack@).len() - types_view(need@).len(),
                types_view(stack@).len() as int,
            ),
            forall|q: int| 0 <= q < j ==> sub[q] == types_view(need@)[q],
        decreases need@.len() - j,
    {
        proof {
            lemma_types_view(stack@);
            lemma_types_view(need@);
        }
        let n2 = stack.len();
        proof {
            assert(base + j < n2);
        }
        if !type_equal(&stack[base + j], &need[j]) {
            proof {
                assert(sub[j as int] == types_view(stack@)[base as int + j as int]);
                assert(sub[j as int] != types_view(need@)[j as int]);
            }
            return false;
        }
        proof {
            assert(sub[j as int] == types_view(stack@)[base as int + j as int]);
        }
        j += 1;
    }
    proof {
        lemma_types_view(stack@);
        lemma_types_view(need@);
        assert(sub =~= types_view(need@));
    }
    true
}

/// Checks that the stack holds at least `type_count` types; otherwise
/// reports how many it needs and how many it has.
fn expect_at_least_type_count(type_stack: &Vec<Type>, type_count: usize) -> (r: Result<
    (),
    String,
>)
    ensures
        r is Ok <==> types_view(type_stack@).len() >= type_count,
        r matches Err(m) ==> m@ == count_message(type_count as nat, types_view(type_stack@).len()),
{
    proof {
        lemma_types_view(type_stack@);
    }
    if type_stack.len() >= type_count {
        return Ok(());
    }
    let mut m = String::new();
    m.append("Expected at least ");
    push_dec_text(&mut m, type_count as u128);
    m.append(" types, but got only ");
    push_dec_text(&mut m, type_stack.len() as u128);
    m.append(" types");
    proof {
        assert(m@ =~= count_message(type_count as nat, types_view(type_stack@).len()));
    }
    Err(m)
}

/// Checks that the top of the stack is exactly `types`, in order;
/// otherwise reports the needed types and the whole stack.
fn expect_at_least_types(type_stack: &Vec<Type>, types: &Vec<Type>) -> (r: Result<(), String>)
    ensures
        r is Ok <==> has_top(types_view(type_stack@), types_view(types@)),
        r matches Err(m) ==> m@ == shape_message(types_view(types@), types_view(type_stack@)),
{
    if top_matches(type_stack, types) {
        return Ok(());
    }
    let mut m = String::new();
    m.append("Expected at least ");
    push_types_list(&mut m, types);
    m.append(", but got ");
    push_types_list(&mut m, type_stack);
    proof {
        assert(m@ =~= shape_message(types_view(types@), types_view(type_stack@)));
    }
    Err(m)
}

/// Checks that two stacks that must agree are equal; otherwise reports the
/// wanted stack and the stack found.
fn expect_types_equal(type_stack: &Vec<Type>, types: &Vec<Type>) -> (r: Result<(), String>)
    ensures
        r is Ok <==> types_view(type_stack@) == types_view(types@),
        r matches Err(m) ==> m@ == join_message(types_view(types@), types_view(type_stack@)),
{
    if types_equal(type_stack, types) {
        return Ok(());
    }
    let mut m = String::new();
    m.append("Expected ");
    push_types_list(&mut m, types);
    m.append(", but got ");
    push_types_list(&mut m, type_stack);
    proof {
        assert(m@ =~= join_message(types_view(types@), types_view(type_stack@)));
    }
    Err(m)
}

/// Applies one instruction's static effect to the abstract stack, exactly
/// as `check_instr` describes it.
#[verifier::rlimit(60)]
fn check_one(instruction: &Instruction, type_stack: &mut Vec<Type>) -> (r: Result<(), String>)
    ensures
        (match check_instr(instruction@, types_view(old(type_stack)@)) {
            Ok(next) => r is Ok && types_view(final(type_stack)@) == next,
            Err(m) => r matches Err(e) && e@ == m,
        }),
    decreases instruction, 5int,
{
    match instruction {
        Instruction::Push(value) => {
            if let Value::Procedure(p) = value {
                match &p.typ {
                    Type::Procedure(ps, rs) => {
                        let mut body_stack = clone_types(ps);
                        match type_check(p.instructions.as_slice(), &mut body_stack) {
                            Ok(()) => {},
                            Err(e) => {
                                return Err(e);
                            },
                        }
                        match expect_types_equal(&body_stack, rs) {
                            Ok(()) => {},
                            Err(e) => {
                                return Err(e);
                            },
                        }
                    },
                    other => {
                        let mut m = String::new();
                        m.append("Expected a procedure type, but got ");
                        push_type_text(&mut m, other);
                        proof {
                            assert(m@ =~= proc_type_message(other@));
                        }
                        return Err(m);
                    },
                }
            }
            let t = value.get_type();
            type_stack.push(t);
            proof {
                lemma_types_view_push(old(type_stack)@, t);
            }
            Ok(())
        },
        Instruction::Dup => {
            match expect_at_least_type_count(&*type_stack, 1) {
                Ok(()) => {},
                Err(e) => {
                    return Err(e);
                },
            }
            proof {
                lemma_types_view(type_stack@);
            }
            let top = clone_type(&type_stack[type_stack.len() - 1]);
            type_stack.push(top);
            proof {
                lemma_types_view_push(old(type_stack)@, top);
            }
            Ok(())
        },
        Instruction::Drop => {
            match expect_at_least_type_count(&*type_stack, 1) {
                Ok(()) => {},
                Err(e) => {
                    return Err(e);
                },
            }
            type_stack.pop();
            proof {
                assert(old(type_stack)@.subrange(0, old(type_stack)@.len() - 1) =~= old(
                    type_stack,
                )@.drop_last());
                lemma_types_view_drop_last(old(type_stack)@);
            }
            Ok(())
        },
        Instruction::Add | Instruction::Subtract => {
            let need = int_int_need();
            match expect_at_least_types(&*type_stack, &need) {
                Ok(()) => {},
                Err(e) => {
                    return Err(e);
                },
            }
            type_stack.pop();
            proof {
                assert(old(type_stack)@.subrange(0, old(type_stack)@.len() - 1) =~= old(
                    type_stack,
                )@.drop_last());
                lemma_types_view_drop_last(old(type_stack)@);
            }
            Ok(())
        },
        Instruction::LessThan | Instruction::GreaterThan => {
            let need = int_int_need();
            match expect_at_least_types(&*type_stack, &need) {
                Ok(()) => {},
                Err(e) => {
                    return Err(e);
                },
            }
            type_stack.pop();
            let ghost mid = type_stack@;
            proof {
                assert(old(type_stack)@.subrange(0, old(type_stack)@.len() - 1) =~= old(
                    type_stack,
                )@.drop_last());
                lemma_types_view_drop_last(old(type_stack)@);
            }
            type_stack.pop();
            proof {
                assert(mid.subrange(0, mid.len() - 1) =~= mid.drop_last());
                lemma_types_view_drop_last(mid);
            }
            type_stack.push(Type::Bool);
            proof {
                lemma_types_view_push(mid.drop_last(), Type::Bool);
            }
            Ok(())
        },
        Instruction::Equal => {
            match expect_at_least_type_count(&*type_stack, 2) {
                Ok(()) => {},
                Err(e) => {
                    return Err(e);
                },
            }
            proof {
                lemma_types_view(type_stack@);
            }
            type_stack.pop();
            let ghost mid = type_stack@;
            proof {
                assert(old(type_stack)@.subrange(0, old(type_stack)@.len() - 1) =~= old(
                    type_stack,
                )@.drop_last());
                lemma_types_view_drop_last(old(type_stack)@);
            }
            type_stack.pop();
            proof {
                assert(mid.subrange(0, mid.len() - 1) =~= mid.drop_last());
                lemma_types_view_drop_last(mid);
            }
            type_stack.push(Type::Bool);
            proof {
                lemma_types_view_push(mid.drop_last(), Type::Bool);
            }
            Ok(())
        },
        Instruction::Not => {
            let need = bool_need();
            match expect_at_least_types(&*type_stack, &need) {
                Ok(()) => {},
                Err(e) => {
                    return Err(e);
                },
            }
            Ok(())
        },
        Instruction::Print => {
            match expect_at_least_type_count(&*type_stack, 1) {
                Ok(()) => {},
                Err(e) => {
                    return Err(e);
                },
            }
            type_stack.pop();
            proof {
                assert(old(type_stack)@.subrange(0, old(type_stack)@.len() - 1) =~= old(
                    type_stack,
                )@.drop_last());
                lemma_types_view_drop_last(old(type_stack)@);
            }
            Ok(())
        },
        Instruction::If { then_block, else_block } => {
            let need = bool_need();
            match expect_at_least_types(&*type_stack, &need) {
                Ok(()) => {},
                Err(e) => {
                    return Err(e);
                },
            }
            type_stack.pop();
            proof {
                assert(old(type_stack)@.subrange(0, old(type_stack)@.len() - 1) =~= old(
                    type_stack,
                )@.drop_last());
                lemma_types_view_drop_last(old(type_stack)@);
            }
            match type_check(then_block.as_slice(), type_stack) {
                Ok(()) => {},
                Err(e) => {
                    return Err(e);
                },
            }
            let mut else_types: Vec<Type> = Vec::new();
            proof {
                lemma_types_view(else_types@);
                assert(types_view(else_types@) =~= Seq::<TypeView>::empty());
            }
            match type_check(else_block.as_slice(), &mut else_types) {
                Ok(()) => {},
                Err(e) => {
                    return Err(e);
                },
            }
            match expect_types_equal(&else_types, &*type_stack) {
                Ok(()) => {},
                Err(e) => {
                    return Err(e);
                },
            }
            Ok(())
        },
        Instruction::While { condition_block, body_block } => {
            let mut condition_types = clone_types(&*type_stack);
            match type_check(condition_block.as_slice(), &mut condition_types) {
                Ok(()) => {},
                Err(e) => {
                    return Err(e);
                },
            }
            let need = bool_need();
            match expect_at_least_types(&condition_types, &need) {
                Ok(()) => {},
                Err(e) => {
                    return Err(e);
                },
            }
            let ghost c_full = condition_types@;
            condition_types.pop();
            proof {
                assert(c_full.subrange(0, c_full.len() - 1) =~= c_full.drop_last());
                lemma_types_view_drop_last(c_full);
            }
            match expect_types_equal(&condition_types, &*type_stack) {
                Ok(()) => {},
                Err(e) => {
                    return Err(e);
                },
            }
            let mut body_types = clone_types(&*type_stack);
            match type_check(body_block.as_slice(), &mut body_types) {
                Ok(()) => {},
                Err(e) => {
                    return Err(e);
                },
            }
            match expect_types_equal(&body_types, &*type_stack) {
                Ok(()) => {},
                Err(e) => {
                    return Err(e);
                },
            }
            Ok(())
        },
        Instruction::Call => {
            match expect_at_least_type_count(&*type_stack, 1) {
                Ok(()) => {},
                Err(e) => {
                    return Err(e);
                },
            }
            proof {
                lemma_types_view(type_stack@);
            }
            let n = type_stack.len();
            let (params, results) = match &type_stack[n - 1] {
                Type::Procedure(ps, rs) => (clone_types(ps), clone_types(rs)),
                other => {
                    let mut m = String::new();
                    m.append("Expected a procedure to call, but got ");
                    push_type_text(&mut m, other);
                    proof {
                        assert(m@ =~= call_message(other@));
                    }
                    return Err(m);
                },
            };
            type_stack.pop();
            proof {
                assert(old(type_stack)@.subrange(0, old(type_stack)@.len() - 1) =~= old(
                    type_stack,
                )@.drop_last());
                lemma_types_view_drop_last(old(type_stack)@);
            }
            match expect_at_least_types(&*type_stack, &params) {
                Ok(()) => {},
                Err(e) => {
                    return Err(e);
                },
            }
            let ghost rest = types_view(type_stack@);
            let ghost ps_v = types_view(params@);
            let ghost rs_v = types_view(results@);
            proof {
                lemma_types_view(params@);
                lemma_types_view(results@);
            }
            let mut j: usize = 0;
            while j < params.len()
                invariant
                    j <= params@.len(),
                    ps_v == types_view(params@),
                    ps_v.len() == params@.len(),
                    rest.len() >= params@.len(),
                    types_view(type_stack@) == rest.subrange(0, rest.len() - j),
                decreases params@.len() - j,
            {
                proof {
                    lemma_types_view(type_stack@);
                }
                let ghost before = type_stack@;
                type_stack.pop();
                proof {
                    assert(before.subrange(0, before.len() - 1) =~= before.drop_last());
                    lemma_types_view_drop_last(before);
                    assert(types_view(type_stack@) =~= rest.subrange(0, rest.len() - (j + 1)));
                }
                j += 1;
            }
            let ghost base = types_view(type_stack@);
            proof {
                assert(base == rest.subrange(0, rest.len() - ps_v.len()));
            }
            let mut k: usize = 0;
            while k < results.len()
                invariant
                    k <= results@.len(),
                    rs_v == types_view(results@),
                    rs_v.len() == results@.len(),
                    base == rest.subrange(0, rest.len() - ps_v.len()),
                    types_view(type_stack@) == base + rs_v.subrange(0, k as int),
                decreases results@.len() - k,
            {
                proof {
                    lemma_types_view(results@);
                }
                let c = clone_type(&results[k]);
                let ghost before = type_stack@;
                type_stack.push(c);
                proof {
                    lemma_types_view_push(before, c);
                    assert(types_view(type_stack@) =~= base + rs_v.subrange(0, k as int + 1));
                }
                k += 1;
            }
            proof {
                assert(rs_v.subrange(0, rs_v.len() as int) =~= rs_v);
                assert(types_view(type_stack@) == base + rs_v);
            }
            Ok(())
        },
    }
}

/// Checks `instructions` left to right against `type_stack`, mutating it in
/// place. On success the stack holds the checker's final abstract stack;
/// on the first violation the walk stops and its diagnostic is returned,
/// with the stack left in an unspecified intermediate state.
pub fn type_check(instructions: &[Instruction], type_stack: &mut Vec<Type>) -> (r: Result<
    (),
    String,
>)
    ensures
        (match check(instrs_view(instructions@), types_view(old(type_stack)@)) {
            Ok(fin) => r is Ok && types_view(final(type_stack)@) == fin,
            Err(m) => r matches Err(e) && e@ == m,
        }),
    decreases instructions@, 6int,
{
    let ghost iv = instrs_view(instructions@);
    let ghost overall = check(iv, types_view(type_stack@));
    proof {
        lemma_instrs_view(instructions@);
    }
    let mut i: usize = 0;
    while i < instructions.len()
        invariant
            i <= instructions@.len(),
            iv == instrs_view(instructions@),
            iv.len() == instructions@.len(),
            forall|q: int| 0 <= q < instructions@.len() ==> iv[q] == instructions@[q]@,
            overall == check(iv, types_view(old(type_stack)@)),
            check_seq(iv, i as int, types_view(type_stack@)) == overall,
        decreases instructions@.len() - i,
    {
        match check_one(&instructions[i], type_stack) {
            Ok(()) => {},
            Err(e) => {
                return Err(e);
            },
        }
        i += 1;
    }
    Ok(())
}

/// Whether one instruction keeps every `If` join grounded, per
/// `grounded_instr`.
fn grounded_one(instruction: &Instruction, type_stack: &Vec<Type>) -> (r: bool)
    ensures
        r == grounded_instr(instruction@, types_view(type_stack@)),
    decreases instruction, 7int,
{
    proof {
        lemma_types_view(type_stack@);
    }
    match instruction {
        Instruction::Push(value) => {
            if let Value::Procedure(p) = value {
                match &p.typ {
                    Type::Procedure(ps, _) => {
                        let base = clone_types(ps);
                        joins_grounded(p.instructions.as_slice(), &base)
                    },
                    _ => true,
                }
            } else {
                true
            }
        },
        Instruction::If { then_block, else_block } => {
            if type_stack.len() > 1 {
                return false;
            }
            let empty: Vec<Type> = Vec::new();
            proof {
                lemma_types_view(empty@);
                assert(types_view(empty@) =~= Seq::<TypeView>::empty());
            }
            let t = joins_grounded(then_block.as_slice(), &empty);
            let e = joins_grounded(else_block.as_slice(), &empty);
            t && e
        },
        Instruction::While { condition_block, body_block } => {
            let c = joins_grounded(condition_block.as_slice(), type_stack);
            let b = joins_grounded(body_block.as_slice(), type_stack);
            c && b
        },
        _ => true,
    }
}

/// Whether every `If` join in `instructions`, checked against
/// `type_stack`, is grounded: together with a successful `type_check`,
/// this is what `execute` asks of its callers.
pub fn joins_grounded(instructions: &[Instruction], type_stack: &Vec<Type>) -> (r: bool)
    ensures
        r == grounded(instrs_view(instructions@), types_view(type_stack@)),
    decreases instructions@, 8int,
{
    let ghost iv = instrs_view(instructions@);
    let ghost ctx0 = types_view(type_stack@);
    proof {
        lemma_instrs_view(instructions@);
    }
    let mut cur = clone_types(type_stack);
    let mut i: usize = 0;
    while i < instructions.len()
        invariant
            i <= instructions@.len(),
            iv == instrs_view(instructions@),
            ctx0 == types_view(type_stack@),
            iv.len() == instructions@.len(),
            forall|q: int| 0 <= q < instructions@.len() ==> iv[q] == instructions@[q]@,
            grounded_seq(iv, 0, ctx0) == grounded_seq(iv, i as int, types_view(cur@)),
            check_seq(iv, i as int, types_view(cur@)) == check_seq(iv, 0, ctx0),
        decreases instructions@.len() - i,
    {
        let ghost prev = types_view(cur@);
        let g = grounded_one(&instructions[i], &cur);
        proof {
            assert(iv[i as int] == instructions@[i as int]@);
            assert(g == grounded_instr(iv[i as int], prev));
        }
        if !g {
            proof {
                assert(!grounded_seq(iv, i as int, prev));
            }
            return false;
        }
        match check_one(&instructions[i], &mut cur) {
            Ok(()) => {
                proof {
                    assert(types_view(cur@) == check_instr(iv[i as int], prev)->Ok_0);
                    assert(grounded_seq(iv, i as int, prev) == grounded_seq(
                        iv,
                        i as int + 1,
                        types_view(cur@),
                    ));
                }
            },
            Err(_) => {
                proof {
                    assert(check_instr(iv[i as int], prev) is Err);
                    assert(grounded_seq(iv, i as int, prev));
                }
                return true;
            },
        }
        i += 1;
    }
    true
}

/// Join equality is total: when an `If` type-checks, the abstract stack
/// after its then branch equals the stack its else branch produces from an
/// empty stack, and both are the checker's answer for the whole `If`.
pub proof fn lemma_join_equality(
    then_block: Seq<InstructionView>,
    else_block: Seq<InstructionView>,
    stack: Seq<TypeView>,
    result: Seq<TypeView>,
)
    requires
        check_instr(InstructionView::If { then_block, else_block }, stack) == Ok::<
            Seq<TypeView>,
            Seq<char>,
        >(result),
    ensures
        check(then_block, stack.drop_last()) == Ok::<Seq<TypeView>, Seq<char>>(result),
        check(else_block, Seq::<TypeView>::empty()) == Ok::<Seq<TypeView>, Seq<char>>(result),
        check(then_block, stack.drop_last()) == check(else_block, Seq::<TypeView>::empty()),
{
}

/// Loop neutrality: when a `While` type-checks, its condition leaves the
/// entry stack with one boolean on top, its body maps the entry stack back
/// to itself, and the whole loop leaves the abstract stack unchanged.
pub proof fn lemma_loop_neutrality(
    condition_block: Seq<InstructionView>,
    body_block: Seq<InstructionView>,
    stack: Seq<TypeView>,
    result: Seq<TypeView>,
)
    requires
        check_instr(InstructionView::While { condition_block, body_block }, stack) == Ok::<
            Seq<TypeView>,
            Seq<char>,
        >(result),
    ensures
        result == stack,
        check(condition_block, stack) == Ok::<Seq<TypeView>, Seq<char>>(stack.push(TypeView::Bool)),
        check(body_block, stack) == Ok::<Seq<TypeView>, Seq<char>>(stack),
{
    let c_stack = check(condition_block, stack)->Ok_0;
    assert(c_stack.drop_last() == stack);
    assert(c_stack.subrange(c_stack.len() - 1, c_stack.len() as int)[0] == TypeView::Bool);
    assert(c_stack =~= stack.push(TypeView::Bool));
}

/// Procedure type honesty: pushing a procedure value type-checks exactly
/// when the checker maps the procedure's body from its declared parameter
/// stack to its declared result stack, and then pushes the declared type.
pub proof fn lemma_procedure_honesty(p: ProcedureView, stack: Seq<TypeView>)
    ensures
        (check_instr(InstructionView::Push(ValueView::Procedure(p)), stack) is Ok) <==> (p.typ
            matches TypeView::Procedure(ps, rs) && check(p.instructions, ps) == Ok::<
            Seq<TypeView>,
            Seq<char>,
        >(rs)),
        (check_instr(InstructionView::Push(ValueView::Procedure(p)), stack) is Ok)
            ==> check_instr(InstructionView::Push(ValueView::Procedure(p)), stack) == Ok::<
            Seq<TypeView>,
            Seq<char>,
        >(stack.push(p.typ)),
{
}

} // verus!
