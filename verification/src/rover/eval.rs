//! What Rover expressions mean and what the code generator's instructions compute, each on its
//! own terms, and the law that ties the two through the translation.

use vstd::prelude::*;
use cranelift_codegen::ir::Value;
use cranelift_jit::JITModule;
use cranelift_module::FuncId;
use crate::rover::ast::Ast;
use crate::rover::jit::{BinOp, IntCond, ValueDef};
use crate::rover::translate::{computes, spec_parse_i32};

verus! {

/// Whether the signed comparison `c` holds of `a` and `b`.
pub open spec fn cond_holds(c: IntCond, a: int, b: int) -> bool {
    match c {
        IntCond::Equal => a == b,
        IntCond::NotEqual => a != b,
        IntCond::SignedLessThan => a < b,
        IntCond::SignedLessThanOrEqual => a <= b,
        IntCond::SignedGreaterThan => a > b,
        IntCond::SignedGreaterThanOrEqual => a >= b,
    }
}

/// Whether `a` is a 64-bit signed integer.
pub open spec fn is_word(a: int) -> bool {
    i64::MIN <= a <= i64::MAX
}

/// What the instruction `op` computes from `a` and `b`; `None` where this model gives no
/// answer (an unsigned division of a negative number or by zero or less, a bit operation on a
/// number wider than 64 bits).
pub open spec fn apply_binop(op: BinOp, a: int, b: int) -> Option<int> {
    match op {
        BinOp::Add => Some(a + b),
        BinOp::Sub => Some(a - b),
        BinOp::Mul => Some(a * b),
        BinOp::UDiv => if a >= 0 && b > 0 {
            Some(a / b)
        } else {
            None
        },
        BinOp::And => if is_word(a) && is_word(b) {
            Some(((a as i64) & (b as i64)) as int)
        } else {
            None
        },
        BinOp::Or => if is_word(a) && is_word(b) {
            Some(((a as i64) | (b as i64)) as int)
        } else {
            None
        },
    }
}

/// The number value `v` holds, following the instructions that define it at most `fuel` deep:
/// a constant is its integer, an arithmetic instruction applies to its operands' numbers, a
/// comparison gives 1 when it holds and 0 when not. `None` for what is defined otherwise.
pub open spec fn ir_value(defs: Map<Value, ValueDef>, v: Value, fuel: nat) -> Option<int>
    decreases fuel,
{
    if fuel == 0 || !defs.contains_key(v) {
        None
    } else {
        match defs[v] {
            ValueDef::Const(n) => Some(n),
            ValueDef::Binary(op, x, y) => match (ir_value(defs, x, (fuel - 1) as nat), ir_value(defs, y, (fuel - 1) as nat)) {
                (Some(a), Some(b)) => apply_binop(op, a, b),
                _ => None,
            },
            ValueDef::Compare(c, x, y) => match (ir_value(defs, x, (fuel - 1) as nat), ir_value(defs, y, (fuel - 1) as nat)) {
                (Some(a), Some(b)) => Some(if cond_holds(c, a, b) { 1int } else { 0int }),
                _ => None,
            },
            _ => None,
        }
    }
}

/// 1 for a truth, 0 for a falsehood: Rover's value of a comparison.
pub open spec fn truth(b: bool) -> int {
    if b {
        1
    } else {
        0
    }
}

/// The number a Rover expression made of literals, fields and operators evaluates to: `+`,
/// `-` and `*` are the integer operations, `/` divides a non-negative number by a positive one,
/// `&&` and `||` combine the bits of 64-bit numbers, and a comparison gives 1 when it holds and
/// 0 when not; an assignment has the value assigned and a field reads as 0. `None` for an
/// expression that reads a variable, calls, branches or loops, and where `/`, `&&` or `||` get
/// operands outside those ranges.
pub open spec fn ast_value(e: Ast) -> Option<int>
    decreases e,
{
    match e {
        Ast::Literal(l) => match spec_parse_i32(l) {
            Some(n) => Some(n as int),
            None => None,
        },
        Ast::Field(_) => Some(0),
        Ast::Assign(_, x) => ast_value(*x),
        Ast::Add(a, b) => match (ast_value(*a), ast_value(*b)) {
            (Some(x), Some(y)) => Some(x + y),
            _ => None,
        },
        Ast::Sub(a, b) => match (ast_value(*a), ast_value(*b)) {
            (Some(x), Some(y)) => Some(x - y),
            _ => None,
        },
        Ast::Mul(a, b) => match (ast_value(*a), ast_value(*b)) {
            (Some(x), Some(y)) => Some(x * y),
            _ => None,
        },
        Ast::Div(a, b) => match (ast_value(*a), ast_value(*b)) {
            (Some(x), Some(y)) => if x >= 0 && y > 0 {
                Some(x / y)
            } else {
                None
            },
            _ => None,
        },
        Ast::And(a, b) => match (ast_value(*a), ast_value(*b)) {
            (Some(x), Some(y)) => if is_word(x) && is_word(y) {
                Some(((x as i64) & (y as i64)) as int)
            } else {
                None
            },
            _ => None,
        },
        Ast::Or(a, b) => match (ast_value(*a), ast_value(*b)) {
            (Some(x), Some(y)) => if is_word(x) && is_word(y) {
                Some(((x as i64) | (y as i64)) as int)
            } else {
                None
            },
            _ => None,
        },
        Ast::Eq(a, b) => match (ast_value(*a), ast_value(*b)) {
            (Some(x), Some(y)) => Some(truth(x == y)),
            _ => None,
        },
        Ast::Ne(a, b) => match (ast_value(*a), ast_value(*b)) {
            (Some(x), Some(y)) => Some(truth(x != y)),
            _ => None,
        },
        Ast::Lt(a, b) => match (ast_value(*a), ast_value(*b)) {
            (Some(x), Some(y)) => Some(truth(x < y)),
            _ => None,
        },
        Ast::Le(a, b) => match (ast_value(*a), ast_value(*b)) {
            (Some(x), Some(y)) => Some(truth(x <= y)),
            _ => None,
        },
        Ast::Gt(a, b) => match (ast_value(*a), ast_value(*b)) {
            (Some(x), Some(y)) => Some(truth(x > y)),
            _ => None,
        },
        Ast::Ge(a, b) => match (ast_value(*a), ast_value(*b)) {
            (Some(x), Some(y)) => Some(truth(x >= y)),
            _ => None,
        },
        _ => None,
    }
}

/// How deep the operators of `e` nest.
pub open spec fn depth(e: Ast) -> nat
    decreases e,
{
    match e {
        Ast::Assign(_, x) => depth(*x),
        Ast::Add(a, b) | Ast::Sub(a, b) | Ast::Mul(a, b) | Ast::Div(a, b) | Ast::And(a, b) | Ast::Or(a, b)
        | Ast::Eq(a, b) | Ast::Ne(a, b) | Ast::Lt(a, b) | Ast::Le(a, b) | Ast::Gt(a, b) | Ast::Ge(a, b) => 1
            + if depth(*a) >= depth(*b) {
            depth(*a)
        } else {
            depth(*b)
        },
        _ => 1,
    }
}

/// Following the instructions deeper gives the same number once one is found.
pub proof fn lemma_ir_value_deeper(defs: Map<Value, ValueDef>, v: Value, f: nat, g: nat)
    requires
        ir_value(defs, v, f) is Some,
        f <= g,
    ensures
        ir_value(defs, v, g) == ir_value(defs, v, f),
    decreases f,
{
    match defs[v] {
        ValueDef::Binary(_, x, y) => {
            lemma_ir_value_deeper(defs, x, (f - 1) as nat, (g - 1) as nat);
            lemma_ir_value_deeper(defs, y, (f - 1) as nat, (g - 1) as nat);
        },
        ValueDef::Compare(_, x, y) => {
            lemma_ir_value_deeper(defs, x, (f - 1) as nat, (g - 1) as nat);
            lemma_ir_value_deeper(defs, y, (f - 1) as nat, (g - 1) as nat);
        },
        _ => {},
    }
}

/// The instructions the translation emits for an expression compute the number the
/// expression evaluates to: every literal, field, operator, comparison and assignment is
/// translated into instructions whose result is the expression's value.
pub proof fn lemma_translation_evaluates(
    s: crate::rover::jit::BuilderView,
    imported: Seq<(String, FuncId)>,
    m: JITModule,
    e: Ast,
    v: Value,
)
    requires
        computes(s, imported, m, e, v),
        ast_value(e) is Some,
    ensures
        ir_value(s.defs, v, depth(e)) == ast_value(e),
    decreases e,
{
    match e {
        Ast::Assign(_, x) => {
            lemma_translation_evaluates(s, imported, m, *x, v);
        },
        Ast::Add(a, b) | Ast::Sub(a, b) | Ast::Mul(a, b) | Ast::Div(a, b) | Ast::And(a, b) | Ast::Or(a, b)
        | Ast::Eq(a, b) | Ast::Ne(a, b) | Ast::Lt(a, b) | Ast::Le(a, b) | Ast::Gt(a, b) | Ast::Ge(a, b) => {
            let (x, y) = match s.defs[v] {
                ValueDef::Binary(_, x, y) => (x, y),
                ValueDef::Compare(_, x, y) => (x, y),
                _ => (v, v),
            };
            lemma_translation_evaluates(s, imported, m, *a, x);
            lemma_translation_evaluates(s, imported, m, *b, y);
            lemma_ir_value_deeper(s.defs, x, depth(*a), (depth(e) - 1) as nat);
            lemma_ir_value_deeper(s.defs, y, depth(*b), (depth(e) - 1) as nat);
        },
        _ => {},
    }
}

} // verus!
