//! The parser of Rover programs: the grammar of `grammar` run on a program's text.

use vstd::prelude::*;
use vstd::string::StrSliceExecFns;
use crate::rover::ast::{ASTNode, Ast, asts};
use crate::rover::grammar as g;
use crate::rover::grammar::{lit, FunctionView};
use crate::from_bevy::console::str_chars;

verus! {

/// The parser's view of a program: its text and its characters.
pub open spec fn src_ok(input: &str, s: &Vec<char>) -> bool {
    s@ == input@ && s@.len() <= usize::MAX
}

fn skip_blank(s: &Vec<char>, p: usize) -> (q: usize)
    requires
        p <= s@.len(),
    ensures
        q == g::skip_blank(s@, p as int),
        p <= q <= s@.len(),
{
    let mut q = p;
    while q < s.len() && (s[q] == ' ' || s[q] == '\t')
        invariant
            p <= q <= s@.len(),
            g::skip_blank(s@, p as int) == g::skip_blank(s@, q as int),
        decreases s@.len() - q,
    {
        q = q + 1;
    }
    q
}

fn skip_space(s: &Vec<char>, p: usize) -> (q: usize)
    requires
        p <= s@.len(),
    ensures
        q == g::skip_space(s@, p as int),
        p <= q <= s@.len(),
{
    let mut q = p;
    while q < s.len() && (s[q] == ' ' || s[q] == '\t' || s[q] == '\n')
        invariant
            p <= q <= s@.len(),
            g::skip_space(s@, p as int) == g::skip_space(s@, q as int),
        decreases s@.len() - q,
    {
        q = q + 1;
    }
    q
}

fn is_ident_start(c: char) -> (b: bool)
    ensures
        b == g::is_ident_start(c),
{
    ('a' <= c && c <= 'z') || ('A' <= c && c <= 'Z') || c == '_'
}

fn is_ident_char(c: char) -> (b: bool)
    ensures
        b == g::is_ident_char(c),
{
    is_ident_start(c) || ('0' <= c && c <= '9')
}

fn ident_end(s: &Vec<char>, p: usize) -> (q: usize)
    requires
        p <= s@.len(),
    ensures
        q == g::ident_end(s@, p as int),
        p <= q <= s@.len(),
{
    let mut q = p;
    while q < s.len() && is_ident_char(s[q])
        invariant
            p <= q <= s@.len(),
            g::ident_end(s@, p as int) == g::ident_end(s@, q as int),
        decreases s@.len() - q,
    {
        q = q + 1;
    }
    q
}

fn digits_end(s: &Vec<char>, p: usize) -> (q: usize)
    requires
        p <= s@.len(),
    ensures
        q == g::digits_end(s@, p as int),
        p <= q <= s@.len(),
{
    let mut q = p;
    while q < s.len() && ('0' <= s[q] && s[q] <= '9')
        invariant
            p <= q <= s@.len(),
            g::digits_end(s@, p as int) == g::digits_end(s@, q as int),
        decreases s@.len() - q,
    {
        q = q + 1;
    }
    q
}

/// Whether the text `l` stands at `p`.
fn lit_at(s: &Vec<char>, p: usize, l: &[char]) -> (b: bool)
    ensures
        b == lit(s@, p as int, l@),
{
    if p > s.len() || l.len() > s.len() - p {
        return false;
    }
    let mut i: usize = 0;
    while i < l.len()
        invariant
            p + l@.len() <= s@.len(),
            s@.len() == s.len(),
            0 <= i <= l@.len(),
            forall|j: int| 0 <= j < i ==> s@[p + j] == l@[j],
        decreases l@.len() - i,
    {
        if s[p + i] != l[i] {
            assert(s@.subrange(p as int, p + l@.len())[i as int] != l@[i as int]);
            return false;
        }
        i = i + 1;
    }
    assert(s@.subrange(p as int, p + l@.len()) =~= l@);
    true
}

/// The characters `[p, q)` of the program as a string.
fn text(input: &str, s: &Vec<char>, p: usize, q: usize) -> (t: String)
    requires
        src_ok(input, s),
        p <= q <= s@.len(),
    ensures
        t@ == s@.subrange(p as int, q as int),
{
    input.substring_char(p, q).to_owned()
}

fn identifier(input: &str, s: &Vec<char>, p: usize) -> (r: Option<(String, usize)>)
    requires
        src_ok(input, s),
        p <= s@.len(),
    ensures
        match r {
            Some((i, e)) => g::identifier(s@, p as int) == Some((i@, e as int)),
            None => g::identifier(s@, p as int) is None,
        },
{
    if p < s.len() && is_ident_start(s[p]) {
        let e = ident_end(s, p + 1);
        Some((text(input, s, p, e), e))
    } else {
        None
    }
}

fn literal(input: &str, s: &Vec<char>, p: usize) -> (r: Option<(ASTNode, usize)>)
    requires
        src_ok(input, s),
        p <= s@.len(),
    ensures
        match r {
            Some((n, e)) => g::literal(s@, p as int) == Some((n.to_ast(), e as int)),
            None => g::literal(s@, p as int) is None,
        },
{
    if p < s.len() && '0' <= s[p] && s[p] <= '9' {
        let e = digits_end(s, p + 1);
        Some((ASTNode::Literal(text(input, s, p, e)), e))
    } else if lit_at(s, p, &['&']) {
        proof {
            assert(['&']@ =~= seq!['&']);
        }
        match identifier(input, s, p + 1) {
            Some((i, e)) => Some((ASTNode::GlobalDataAddr(i), e)),
            None => None,
        }
    } else {
        proof {
            assert(['&']@ =~= seq!['&']);
        }
        None
    }
}

/// Whether binary operator `k` stands at `p`.
fn op_at(s: &Vec<char>, p: usize, k: usize) -> (b: bool)
    requires
        k < g::num_ops(),
    ensures
        b == lit(s@, p as int, g::op_text(k as int)),
{
    proof {
        assert(['|', '|']@ =~= seq!['|', '|']);
        assert(['&', '&']@ =~= seq!['&', '&']);
        assert(['=', '=']@ =~= seq!['=', '=']);
        assert(['!', '=']@ =~= seq!['!', '=']);
        assert(['<']@ =~= seq!['<']);
        assert(['<', '=']@ =~= seq!['<', '=']);
        assert(['>']@ =~= seq!['>']);
        assert(['>', '=']@ =~= seq!['>', '=']);
        assert(['+']@ =~= seq!['+']);
        assert(['-']@ =~= seq!['-']);
        assert(['*']@ =~= seq!['*']);
        assert(['/']@ =~= seq!['/']);
    }
    if k == 0 {
        lit_at(s, p, &['|', '|'])
    } else if k == 1 {
        lit_at(s, p, &['&', '&'])
    } else if k == 2 {
        lit_at(s, p, &['=', '='])
    } else if k == 3 {
        lit_at(s, p, &['!', '='])
    } else if k == 4 {
        lit_at(s, p, &['<'])
    } else if k == 5 {
        lit_at(s, p, &['<', '='])
    } else if k == 6 {
        lit_at(s, p, &['>'])
    } else if k == 7 {
        lit_at(s, p, &['>', '='])
    } else if k == 8 {
        lit_at(s, p, &['+'])
    } else if k == 9 {
        lit_at(s, p, &['-'])
    } else if k == 10 {
        lit_at(s, p, &['*'])
    } else {
        lit_at(s, p, &['/'])
    }
}

fn op_len(k: usize) -> (n: usize)
    requires
        k < g::num_ops(),
    ensures
        n == g::op_text(k as int).len(),
{
    if k == 4 || k == 6 || k == 8 || k == 9 || k == 10 || k == 11 {
        1
    } else {
        2
    }
}

fn op_prec(k: usize) -> (n: usize)
    requires
        k < g::num_ops(),
    ensures
        n == g::op_prec(k as int),
{
    if k == 0 {
        0
    } else if k == 1 {
        1
    } else if k <= 7 {
        2
    } else if k <= 9 {
        3
    } else {
        4
    }
}

fn op_node(k: usize, a: ASTNode, b: ASTNode) -> (n: ASTNode)
    requires
        k < g::num_ops(),
    ensures
        n.to_ast() == g::op_node(k as int, a.to_ast(), b.to_ast()),
{
    let a = Box::new(a);
    let b = Box::new(b);
    if k == 0 {
        ASTNode::Or(a, b)
    } else if k == 1 {
        ASTNode::And(a, b)
    } else if k == 2 {
        ASTNode::Eq(a, b)
    } else if k == 3 {
        ASTNode::Ne(a, b)
    } else if k == 4 {
        ASTNode::Lt(a, b)
    } else if k == 5 {
        ASTNode::Le(a, b)
    } else if k == 6 {
        ASTNode::Gt(a, b)
    } else if k == 7 {
        ASTNode::Ge(a, b)
    } else if k == 8 {
        ASTNode::Add(a, b)
    } else if k == 9 {
        ASTNode::Sub(a, b)
    } else if k == 10 {
        ASTNode::Mul(a, b)
    } else {
        ASTNode::Div(a, b)
    }
}

/// `statements`.
fn statements(input: &str, s: &Vec<char>, p: usize) -> (r: Option<(Vec<ASTNode>, usize)>)
    requires
        src_ok(input, s),
        p <= s@.len(),
    ensures
        match r {
            Some((v, e)) => g::statements(s@, p as int) == Some((asts(v@), e as int)),
            None => g::statements(s@, p as int) is None,
        },
    decreases s@.len() - p, 6int, 0int,
{
    match statement(input, s, p) {
        None => {
            assert(asts(Seq::<ASTNode>::empty()) =~= Seq::<Ast>::empty());
            Some((Vec::new(), p))
        },
        Some((e, p1)) => {
            if !(p < p1 && p1 <= s.len()) {
                return None;
            }
            match statements(input, s, p1) {
                Some((rest, p2)) => {
                    let ghost ea = e.to_ast();
                    let ghost ra = asts(rest@);
                    let mut v: Vec<ASTNode> = Vec::new();
                    v.push(e);
                    let mut rest = rest;
                    v.append(&mut rest);
                    assert(asts(v@) =~= seq![ea] + ra);
                    Some((v, p2))
                },
                None => None,
            }
        },
    }
}

/// `statement`.
fn statement(input: &str, s: &Vec<char>, p: usize) -> (r: Option<(ASTNode, usize)>)
    requires
        src_ok(input, s),
        p <= s@.len(),
    ensures
        match r {
            Some((n, e)) => g::statement(s@, p as int) == Some((n.to_ast(), e as int)),
            None => g::statement(s@, p as int) is None,
        },
    decreases s@.len() - p, 5int, 0int,
{
    let p1 = skip_blank(s, p);
    proof {
        assert([';', '\n']@ =~= seq![';', '\n']);
        assert(['\n']@ =~= seq!['\n']);
    }
    match expression(input, s, p1) {
        None => None,
        Some((e, p2)) => {
            if p2 > s.len() {
                return None;
            }
            let p3 = skip_blank(s, p2);
            if lit_at(s, p3, &[';', '\n']) {
                Some((e, p3 + 2))
            } else if lit_at(s, p3, &['\n']) {
                Some((e, p3 + 1))
            } else {
                None
            }
        },
    }
}

/// `expression`.
fn expression(input: &str, s: &Vec<char>, p: usize) -> (r: Option<(ASTNode, usize)>)
    requires
        src_ok(input, s),
        p <= s@.len(),
    ensures
        match r {
            Some((n, e)) => g::expression(s@, p as int) == Some((n.to_ast(), e as int)),
            None => g::expression(s@, p as int) is None,
        },
    decreases s@.len() - p, 4int, 0int,
{
    match if_else(input, s, p) {
        Some(r) => Some(r),
        None => match while_loop(input, s, p) {
            Some(r) => Some(r),
            None => match assignment(input, s, p) {
                Some(r) => Some(r),
                None => binary_op(input, s, p, 0),
            },
        },
    }
}

/// A block `{` newline statements `}` from `p`.
fn block(input: &str, s: &Vec<char>, start: usize, p: usize) -> (r: Option<(Vec<ASTNode>, usize)>)
    requires
        src_ok(input, s),
        start < p <= s@.len(),
    ensures
        match r {
            Some((v, e)) => g::block(s@, start as int, p as int) == Some((asts(v@), e as int)),
            None => g::block(s@, start as int, p as int) is None,
        },
    decreases s@.len() - start, 3int, 0int,
{
    proof {
        assert(['{']@ =~= seq!['{']);
        assert(['}']@ =~= seq!['}']);
        assert(['\n']@ =~= seq!['\n']);
    }
    let p1 = skip_blank(s, p);
    if !lit_at(s, p1, &['{']) {
        return None;
    }
    let p2 = skip_blank(s, p1 + 1);
    if !lit_at(s, p2, &['\n']) {
        return None;
    }
    match statements(input, s, p2 + 1) {
        None => None,
        Some((body, p3)) => {
            if p3 > s.len() {
                return None;
            }
            let p4 = skip_blank(s, p3);
            if lit_at(s, p4, &['}']) {
                Some((body, p4 + 1))
            } else {
                None
            }
        },
    }
}

/// `if_else`.
fn if_else(input: &str, s: &Vec<char>, p: usize) -> (r: Option<(ASTNode, usize)>)
    requires
        src_ok(input, s),
        p <= s@.len(),
    ensures
        match r {
            Some((n, e)) => g::if_else(s@, p as int) == Some((n.to_ast(), e as int)),
            None => g::if_else(s@, p as int) is None,
        },
    decreases s@.len() - p, 3int, 1int,
{
    proof {
        assert(['i', 'f']@ =~= seq!['i', 'f']);
        assert(['e', 'l', 's', 'e']@ =~= seq!['e', 'l', 's', 'e']);
    }
    if !lit_at(s, p, &['i', 'f']) {
        return None;
    }
    let p1 = skip_blank(s, p + 2);
    match expression(input, s, p1) {
        None => None,
        Some((c, p2)) => {
            if !(p < p2 && p2 <= s.len()) {
                return None;
            }
            match block(input, s, p, p2) {
                None => None,
                Some((then_body, p3)) => {
                    if !(p < p3 && p3 <= s.len()) {
                        return None;
                    }
                    let p4 = skip_blank(s, p3);
                    if !lit_at(s, p4, &['e', 'l', 's', 'e']) {
                        return None;
                    }
                    match block(input, s, p, p4 + 4) {
                        None => None,
                        Some((else_body, p5)) => {
                            Some((ASTNode::IfElse(Box::new(c), then_body, else_body), p5))
                        },
                    }
                },
            }
        },
    }
}

/// `while_loop`.
fn while_loop(input: &str, s: &Vec<char>, p: usize) -> (r: Option<(ASTNode, usize)>)
    requires
        src_ok(input, s),
        p <= s@.len(),
    ensures
        match r {
            Some((n, e)) => g::while_loop(s@, p as int) == Some((n.to_ast(), e as int)),
            None => g::while_loop(s@, p as int) is None,
        },
    decreases s@.len() - p, 3int, 1int,
{
    proof {
        assert(['w', 'h', 'i', 'l', 'e']@ =~= seq!['w', 'h', 'i', 'l', 'e']);
    }
    if !lit_at(s, p, &['w', 'h', 'i', 'l', 'e']) {
        return None;
    }
    let p1 = skip_blank(s, p + 5);
    match expression(input, s, p1) {
        None => None,
        Some((c, p2)) => {
            if !(p < p2 && p2 <= s.len()) {
                return None;
            }
            match block(input, s, p, p2) {
                None => None,
                Some((body, p3)) => {
                    Some((ASTNode::WhileLoop(Box::new(c), body), p3))
                },
            }
        },
    }
}

/// `assignment`.
fn assignment(input: &str, s: &Vec<char>, p: usize) -> (r: Option<(ASTNode, usize)>)
    requires
        src_ok(input, s),
        p <= s@.len(),
    ensures
        match r {
            Some((n, e)) => g::assignment(s@, p as int) == Some((n.to_ast(), e as int)),
            None => g::assignment(s@, p as int) is None,
        },
    decreases s@.len() - p, 3int, 1int,
{
    proof {
        assert(['l', 'e', 't']@ =~= seq!['l', 'e', 't']);
        assert(['=']@ =~= seq!['=']);
    }
    let q = if lit_at(s, p, &['l', 'e', 't']) {
        p + 3
    } else {
        p
    };
    let p1 = skip_blank(s, q);
    match identifier(input, s, p1) {
        None => None,
        Some((name, p2)) => {
            proof {
                g::lemma_identifier(s@, p1 as int);
            }
            let p3 = skip_blank(s, p2);
            if !lit_at(s, p3, &['=']) {
                return None;
            }
            let p4 = skip_blank(s, p3 + 1);
            match expression(input, s, p4) {
                None => None,
                Some((e, p5)) => Some((ASTNode::Assign(name, Box::new(e)), p5)),
            }
        },
    }
}

/// `binary_op` for the operators that bind at least as strongly as `min_prec`.
fn binary_op(input: &str, s: &Vec<char>, p: usize, min_prec: usize) -> (r: Option<(ASTNode, usize)>)
    requires
        src_ok(input, s),
        p <= s@.len(),
    ensures
        match r {
            Some((n, e)) => g::binary_op(s@, p as int, min_prec as int) == Some((n.to_ast(), e as int)),
            None => g::binary_op(s@, p as int, min_prec as int) is None,
        },
    decreases s@.len() - p, 3int, 0int,
{
    match operand(input, s, p) {
        None => None,
        Some((a, p1)) => {
            if !(p < p1 && p1 <= s.len()) {
                return None;
            }
            operators(input, s, a, p1, min_prec, 0)
        },
    }
}

/// The operators after the left operand `lhs`, trying operator `k` and the following ones.
fn operators(input: &str, s: &Vec<char>, lhs: ASTNode, p: usize, min_prec: usize, k: usize) -> (r:
    Option<(ASTNode, usize)>)
    requires
        src_ok(input, s),
        p <= s@.len(),
        k <= g::num_ops(),
    ensures
        match r {
            Some((n, e)) => g::operators(s@, lhs.to_ast(), p as int, min_prec as int, k as int)
                == Some((n.to_ast(), e as int)),
            None => g::operators(s@, lhs.to_ast(), p as int, min_prec as int, k as int) is None,
        },
    decreases s@.len() - p, 1int, g::num_ops() - k,
{
    if k == 12 {
        return Some((lhs, p));
    }
    let p1 = skip_blank(s, p);
    let ghost la = lhs.to_ast();
    if op_prec(k) >= min_prec && op_at(s, p1, k) {
        let p2 = skip_blank(s, p1 + op_len(k));
        match binary_op(input, s, p2, op_prec(k)) {
            Some((b, p3)) => {
                let e = op_node(k, lhs, b);
                if !(p < p3 && p3 <= s.len()) {
                    return None;
                }
                return operators(input, s, e, p3, min_prec, 0);
            },
            None => {
                return operators(input, s, lhs, p, min_prec, k + 1);
            },
        }
    }
    operators(input, s, lhs, p, min_prec, k + 1)
}

/// An operand: a call, an identifier or a literal.
fn operand(input: &str, s: &Vec<char>, p: usize) -> (r: Option<(ASTNode, usize)>)
    requires
        src_ok(input, s),
        p <= s@.len(),
    ensures
        match r {
            Some((n, e)) => g::operand(s@, p as int) == Some((n.to_ast(), e as int)),
            None => g::operand(s@, p as int) is None,
        },
    decreases s@.len() - p, 2int, 0int,
{
    proof {
        assert(['(']@ =~= seq!['(']);
        assert([')']@ =~= seq![')']);
    }
    match identifier(input, s, p) {
        None => literal(input, s, p),
        Some((name, p1)) => {
            proof {
                g::lemma_identifier(s@, p as int);
            }
            let p2 = skip_blank(s, p1);
            if lit_at(s, p2, &['(']) {
                match arguments(input, s, p2 + 1) {
                    Some((args, p3)) => {
                        if lit_at(s, p3, &[')']) {
                            return Some((ASTNode::Call(name, args), p3 + 1));
                        }
                    },
                    None => {},
                }
            }
            Some((ASTNode::Identifier(name), p1))
        },
    }
}

/// An argument: `_ expression _`.
fn argument(input: &str, s: &Vec<char>, p: usize) -> (r: Option<(ASTNode, usize)>)
    requires
        src_ok(input, s),
        p <= s@.len(),
    ensures
        match r {
            Some((n, e)) => g::argument(s@, p as int) == Some((n.to_ast(), e as int)),
            None => g::argument(s@, p as int) is None,
        },
    decreases s@.len() - p, 5int, 0int,
{
    let p1 = skip_blank(s, p);
    match expression(input, s, p1) {
        Some((e, p2)) => {
            if p2 > s.len() {
                return None;
            }
            Some((e, skip_blank(s, p2)))
        },
        None => None,
    }
}

/// The arguments of a call.
fn arguments(input: &str, s: &Vec<char>, p: usize) -> (r: Option<(Vec<ASTNode>, usize)>)
    requires
        src_ok(input, s),
        p <= s@.len(),
    ensures
        match r {
            Some((v, e)) => g::arguments(s@, p as int) == Some((asts(v@), e as int)),
            None => g::arguments(s@, p as int) is None,
        },
    decreases s@.len() - p, 6int, 0int,
{
    match argument(input, s, p) {
        None => {
            assert(asts(Seq::<ASTNode>::empty()) =~= Seq::<Ast>::empty());
            Some((Vec::new(), p))
        },
        Some((e, p1)) => {
            if !(p < p1 && p1 <= s.len()) {
                return None;
            }
            match more_arguments(input, s, p1) {
                Some((rest, p2)) => {
                    let ghost ea = e.to_ast();
                    let ghost ra = asts(rest@);
                    let mut v: Vec<ASTNode> = Vec::new();
                    v.push(e);
                    let mut rest = rest;
                    v.append(&mut rest);
                    assert(asts(v@) =~= seq![ea] + ra);
                    Some((v, p2))
                },
                None => None,
            }
        },
    }
}

/// The arguments after the first.
fn more_arguments(input: &str, s: &Vec<char>, p: usize) -> (r: Option<(Vec<ASTNode>, usize)>)
    requires
        src_ok(input, s),
        p <= s@.len(),
    ensures
        match r {
            Some((v, e)) => g::more_arguments(s@, p as int) == Some((asts(v@), e as int)),
            None => g::more_arguments(s@, p as int) is None,
        },
    decreases s@.len() - p, 6int, 0int,
{
    proof {
        assert([',']@ =~= seq![',']);
        assert(asts(Seq::<ASTNode>::empty()) =~= Seq::<Ast>::empty());
    }
    if !lit_at(s, p, &[',']) {
        return Some((Vec::new(), p));
    }
    match argument(input, s, p + 1) {
        None => Some((Vec::new(), p)),
        Some((e, p1)) => {
            if !(p < p1 && p1 <= s.len()) {
                return None;
            }
            match more_arguments(input, s, p1) {
                Some((rest, p2)) => {
                    let ghost ea = e.to_ast();
                    let ghost ra = asts(rest@);
                    let mut v: Vec<ASTNode> = Vec::new();
                    v.push(e);
                    let mut rest = rest;
                    v.append(&mut rest);
                    assert(asts(v@) =~= seq![ea] + ra);
                    Some((v, p2))
                },
                None => None,
            }
        },
    }
}

/// A parameter: `_ identifier _`.
fn param(input: &str, s: &Vec<char>, p: usize) -> (r: Option<(String, usize)>)
    requires
        src_ok(input, s),
        p <= s@.len(),
    ensures
        match r {
            Some((i, e)) => g::param(s@, p as int) == Some((i@, e as int)),
            None => g::param(s@, p as int) is None,
        },
{
    let p1 = skip_blank(s, p);
    match identifier(input, s, p1) {
        Some((i, p2)) => {
            proof {
                g::lemma_identifier(s@, p1 as int);
            }
            Some((i, skip_blank(s, p2)))
        },
        None => None,
    }
}

/// The parameters after the first, and where they end.
fn more_params(input: &str, s: &Vec<char>, p: usize) -> (r: (Vec<String>, usize))
    requires
        src_ok(input, s),
        p <= s@.len(),
    ensures
        r.0@.map_values(|x: String| x@) == g::more_params(s@, p as int),
        r.1 == g::more_params_end(s@, p as int),
        r.1 <= s@.len(),
    decreases s@.len() - p,
{
    proof {
        assert([',']@ =~= seq![',']);
    }
    if !lit_at(s, p, &[',']) {
        let v: Vec<String> = Vec::new();
        assert(v@.map_values(|x: String| x@) =~= Seq::<Seq<char>>::empty());
        return (v, p);
    }
    match param(input, s, p + 1) {
        None => {
            let v: Vec<String> = Vec::new();
            assert(v@.map_values(|x: String| x@) =~= Seq::<Seq<char>>::empty());
            (v, p)
        },
        Some((i, p1)) => {
            proof {
                g::lemma_param(s@, p + 1);
            }
            let (rest, e) = more_params(input, s, p1);
            let ghost iv = i@;
            let ghost rv = rest@.map_values(|x: String| x@);
            let mut v: Vec<String> = Vec::new();
            v.push(i);
            let mut rest = rest;
            v.append(&mut rest);
            assert(v@.map_values(|x: String| x@) =~= seq![iv] + rv);
            (v, e)
        },
    }
}

/// Parses the text of a Rover function: its name, its parameters, its result variable and its
/// statements. `None` when the text does not follow the grammar.
pub fn function(input: &str) -> (r: Option<(String, Vec<String>, String, Vec<ASTNode>)>)
    ensures
        match r {
            Some((name, params, ret, body)) => g::function(input@) == Some(
                FunctionView {
                    name: name@,
                    params: params@.map_values(|x: String| x@),
                    ret: ret@,
                    body: asts(body@),
                },
            ),
            None => g::function(input@) is None,
        },
{
    let s = str_chars(input);
    assert(s@.len() == s.len());
    proof {
        assert(['f', 'n']@ =~= seq!['f', 'n']);
        assert(['(']@ =~= seq!['(']);
        assert([')']@ =~= seq![')']);
        assert(['-', '>']@ =~= seq!['-', '>']);
        assert(['{']@ =~= seq!['{']);
        assert(['}']@ =~= seq!['}']);
        assert(['\n']@ =~= seq!['\n']);
    }
    let p0 = skip_space(&s, 0);
    if !lit_at(&s, p0, &['f', 'n']) {
        return None;
    }
    let q0 = skip_blank(&s, p0 + 2);
    let (name, p1) = match identifier(input, &s, q0) {
        None => {
            return None;
        },
        Some(r) => r,
    };
    proof {
        g::lemma_identifier(s@, q0 as int);
    }
    let p2 = skip_blank(&s, p1);
    if !lit_at(&s, p2, &['(']) {
        return None;
    }
    let (params, p3) = match param(input, &s, p2 + 1) {
        None => {
            let v: Vec<String> = Vec::new();
            assert(v@.map_values(|x: String| x@) =~= Seq::<Seq<char>>::empty());
            (v, p2 + 1)
        },
        Some((i, q)) => {
            proof {
                g::lemma_param(s@, p2 + 1);
            }
            let (rest, e) = more_params(input, &s, q);
            let ghost iv = i@;
            let ghost rv = rest@.map_values(|x: String| x@);
            let mut v: Vec<String> = Vec::new();
            v.push(i);
            let mut rest = rest;
            v.append(&mut rest);
            assert(v@.map_values(|x: String| x@) =~= seq![iv] + rv);
            (v, e)
        },
    };
    if !lit_at(&s, p3, &[')']) {
        return None;
    }
    let p4 = skip_blank(&s, p3 + 1);
    if !lit_at(&s, p4, &['-', '>']) {
        return None;
    }
    let p5 = skip_blank(&s, p4 + 2);
    if !lit_at(&s, p5, &['(']) {
        return None;
    }
    let (ret, p6) = match param(input, &s, p5 + 1) {
        None => {
            return None;
        },
        Some(r) => r,
    };
    proof {
        g::lemma_param(s@, p5 + 1);
    }
    if !lit_at(&s, p6, &[')']) {
        return None;
    }
    let p7 = skip_blank(&s, p6 + 1);
    if !lit_at(&s, p7, &['{']) {
        return None;
    }
    let p8 = skip_blank(&s, p7 + 1);
    if !lit_at(&s, p8, &['\n']) {
        return None;
    }
    let (body, p9) = match statements(input, &s, p8 + 1) {
        None => {
            return None;
        },
        Some(r) => r,
    };
    if p9 > s.len() {
        proof {
            g::lemma_statements_advance(s@, p8 + 1);
        }
        return None;
    }
    let p10 = skip_blank(&s, p9);
    if !lit_at(&s, p10, &['}']) {
        return None;
    }
    let p11 = skip_blank(&s, p10 + 1);
    if !lit_at(&s, p11, &['\n']) {
        return None;
    }
    if skip_blank(&s, p11 + 1) != s.len() {
        return None;
    }
    Some((name, params, ret, body))
}

} // verus!
