//! The grammar of Rover programs, as a parsing-expression grammar over characters.
//!
//! ```plaintext
//! function   = [ \t\n]* "fn" _ identifier _ "(" (_ identifier _) ** "," ")" _ "->" _
//!              "(" _ identifier _ ")" _ "{" _ "\n" statements _ "}" _ "\n" _ EOF
//! statements = statement*
//! statement  = _ expression _ ";" "\n" / _ expression _ "\n"
//! expression = if_else / while_loop / assignment / binary_op
//! if_else    = "if" _ expression _ "{" _ "\n" statements _ "}" _ "else" _ "{" _ "\n"
//!              statements _ "}"
//! while_loop = "while" _ expression _ "{" _ "\n" statements _ "}"
//! assignment = "let"? _ identifier _ "=" _ expression
//! binary_op  = operators by increasing binding strength, each grouping to the right:
//!              "||"; "&&"; "==" "!=" "<" "<=" ">" ">="; "+" "-"; "*" "/";
//!              operands: identifier _ "(" (_ expression _) ** "," ")" / identifier / literal
//! literal    = [0-9]+ / "&" identifier
//! identifier = [a-zA-Z_][a-zA-Z0-9_]*
//! _          = [ \t]*
//! ```
//!
//! Alternatives are tried in order and the first that matches wins; repetitions are greedy.
//! Each parsing function below takes the input and a position and returns what it parsed and
//! the position after it. Where a parsing function continues from a position another one
//! returned, it checks that the input advanced; every rule that such a position comes from
//! consumes input, so these checks never fail on a parse (`lemma_progress_checks_hold`).

use vstd::prelude::*;
use crate::rover::ast::Ast;

verus! {

pub open spec fn is_blank(c: char) -> bool {
    c == ' ' || c == '\t'
}

pub open spec fn is_space(c: char) -> bool {
    c == ' ' || c == '\t' || c == '\n'
}

pub open spec fn is_ident_start(c: char) -> bool {
    ('a' <= c <= 'z') || ('A' <= c <= 'Z') || c == '_'
}

pub open spec fn is_ident_char(c: char) -> bool {
    is_ident_start(c) || ('0' <= c <= '9')
}

pub open spec fn is_digit(c: char) -> bool {
    '0' <= c <= '9'
}

/// `_`: skips blanks.
pub open spec fn skip_blank(s: Seq<char>, p: int) -> int
    decreases s.len() - p,
{
    if 0 <= p < s.len() && is_blank(s[p]) {
        skip_blank(s, p + 1)
    } else {
        p
    }
}

/// Skips blanks and newlines.
pub open spec fn skip_space(s: Seq<char>, p: int) -> int
    decreases s.len() - p,
{
    if 0 <= p < s.len() && is_space(s[p]) {
        skip_space(s, p + 1)
    } else {
        p
    }
}

/// The end of the run of identifier characters from `p`.
pub open spec fn ident_end(s: Seq<char>, p: int) -> int
    decreases s.len() - p,
{
    if 0 <= p < s.len() && is_ident_char(s[p]) {
        ident_end(s, p + 1)
    } else {
        p
    }
}

/// The end of the run of digits from `p`.
pub open spec fn digits_end(s: Seq<char>, p: int) -> int
    decreases s.len() - p,
{
    if 0 <= p < s.len() && is_digit(s[p]) {
        digits_end(s, p + 1)
    } else {
        p
    }
}

/// The text `l` stands at `p`.
pub open spec fn lit(s: Seq<char>, p: int, l: Seq<char>) -> bool {
    0 <= p && p + l.len() <= s.len() && s.subrange(p, p + l.len()) == l
}

/// `q` lies after `p` in the input.
pub open spec fn advances(s: Seq<char>, p: int, q: int) -> bool {
    p < q <= s.len()
}

pub open spec fn identifier(s: Seq<char>, p: int) -> Option<(Seq<char>, int)> {
    if 0 <= p < s.len() && is_ident_start(s[p]) {
        let e = ident_end(s, p + 1);
        Some((s.subrange(p, e), e))
    } else {
        None
    }
}

pub open spec fn literal(s: Seq<char>, p: int) -> Option<(Ast, int)> {
    if 0 <= p < s.len() && is_digit(s[p]) {
        let e = digits_end(s, p + 1);
        Some((Ast::Literal(s.subrange(p, e)), e))
    } else if lit(s, p, seq!['&']) {
        match identifier(s, p + 1) {
            Some((i, e)) => Some((Ast::GlobalDataAddr(i), e)),
            None => None,
        }
    } else {
        None
    }
}

/// Number of binary operators.
pub open spec fn num_ops() -> int {
    12
}

/// The text of binary operator `k`.
pub open spec fn op_text(k: int) -> Seq<char> {
    if k == 0 {
        seq!['|', '|']
    } else if k == 1 {
        seq!['&', '&']
    } else if k == 2 {
        seq!['=', '=']
    } else if k == 3 {
        seq!['!', '=']
    } else if k == 4 {
        seq!['<']
    } else if k == 5 {
        seq!['<', '=']
    } else if k == 6 {
        seq!['>']
    } else if k == 7 {
        seq!['>', '=']
    } else if k == 8 {
        seq!['+']
    } else if k == 9 {
        seq!['-']
    } else if k == 10 {
        seq!['*']
    } else {
        seq!['/']
    }
}

/// The binding strength of binary operator `k`.
pub open spec fn op_prec(k: int) -> int {
    if k == 0 {
        0
    } else if k == 1 {
        1
    } else if k <= 7 {
        2
    } else if k <= 9 {
        3
    } else {
        4
    }
}

/// The node of binary operator `k` applied to `a` and `b`.
pub open spec fn op_node(k: int, a: Ast, b: Ast) -> Ast {
    let a = Box::new(a);
    let b = Box::new(b);
    if k == 0 {
        Ast::Or(a, b)
    } else if k == 1 {
        Ast::And(a, b)
    } else if k == 2 {
        Ast::Eq(a, b)
    } else if k == 3 {
        Ast::Ne(a, b)
    } else if k == 4 {
        Ast::Lt(a, b)
    } else if k == 5 {
        Ast::Le(a, b)
    } else if k == 6 {
        Ast::Gt(a, b)
    } else if k == 7 {
        Ast::Ge(a, b)
    } else if k == 8 {
        Ast::Add(a, b)
    } else if k == 9 {
        Ast::Sub(a, b)
    } else if k == 10 {
        Ast::Mul(a, b)
    } else {
        Ast::Div(a, b)
    }
}

/// How an operator node is written: the operator's text between its operands; `None` for a
/// node that is no binary operator.
pub open spec fn written_operator(e: Ast) -> Option<(Seq<char>, Ast, Ast)> {
    match e {
        Ast::Or(a, b) => Some(("||"@, *a, *b)),
        Ast::And(a, b) => Some(("&&"@, *a, *b)),
        Ast::Eq(a, b) => Some(("=="@, *a, *b)),
        Ast::Ne(a, b) => Some(("!="@, *a, *b)),
        Ast::Lt(a, b) => Some(("<"@, *a, *b)),
        Ast::Le(a, b) => Some(("<="@, *a, *b)),
        Ast::Gt(a, b) => Some((">"@, *a, *b)),
        Ast::Ge(a, b) => Some((">="@, *a, *b)),
        Ast::Add(a, b) => Some(("+"@, *a, *b)),
        Ast::Sub(a, b) => Some(("-"@, *a, *b)),
        Ast::Mul(a, b) => Some(("*"@, *a, *b)),
        Ast::Div(a, b) => Some(("/"@, *a, *b)),
        _ => None,
    }
}

/// Each operator text builds the node of that same operator, over the two operands in order:
/// the node is written back with the very text that was read, so two texts never share a node
/// kind.
pub proof fn lemma_operator_text_gives_its_node(k: int, j: int, a: Ast, b: Ast)
    requires
        0 <= k < num_ops(),
        0 <= j < num_ops(),
    ensures
        written_operator(op_node(k, a, b)) == Some((op_text(k), a, b)),
        k != j ==> op_text(k) != op_text(j),
        k != j ==> written_operator(op_node(k, a, b)) != written_operator(op_node(j, a, b)),
{
    reveal_strlit("||");
    reveal_strlit("&&");
    reveal_strlit("==");
    reveal_strlit("!=");
    reveal_strlit("<");
    reveal_strlit("<=");
    reveal_strlit(">");
    reveal_strlit(">=");
    reveal_strlit("+");
    reveal_strlit("-");
    reveal_strlit("*");
    reveal_strlit("/");
    assert(written_operator(op_node(j, a, b)) == Some((op_text(j), a, b)));
    assert(op_text(k).len() >= 1 && op_text(j).len() >= 1);
    if k != j && op_text(k) =~= op_text(j) {
        assert(op_text(k)[0] == op_text(j)[0]);
        assert(op_text(k).len() == op_text(j).len());
        if op_text(k).len() == 2 {
            assert(op_text(k)[1] == op_text(j)[1]);
        }
    }
}

pub proof fn lemma_skip_blank(s: Seq<char>, p: int)
    requires
        0 <= p <= s.len(),
    ensures
        p <= skip_blank(s, p) <= s.len(),
    decreases s.len() - p,
{
    if p < s.len() && is_blank(s[p]) {
        lemma_skip_blank(s, p + 1);
    }
}

pub proof fn lemma_skip_space(s: Seq<char>, p: int)
    requires
        0 <= p <= s.len(),
    ensures
        p <= skip_space(s, p) <= s.len(),
    decreases s.len() - p,
{
    if p < s.len() && is_space(s[p]) {
        lemma_skip_space(s, p + 1);
    }
}

pub proof fn lemma_ident_end(s: Seq<char>, p: int)
    requires
        0 <= p <= s.len(),
    ensures
        p <= ident_end(s, p) <= s.len(),
    decreases s.len() - p,
{
    if p < s.len() && is_ident_char(s[p]) {
        lemma_ident_end(s, p + 1);
    }
}

pub proof fn lemma_digits_end(s: Seq<char>, p: int)
    requires
        0 <= p <= s.len(),
    ensures
        p <= digits_end(s, p) <= s.len(),
    decreases s.len() - p,
{
    if p < s.len() && is_digit(s[p]) {
        lemma_digits_end(s, p + 1);
    }
}

pub proof fn lemma_identifier(s: Seq<char>, p: int)
    ensures
        identifier(s, p) matches Some((i, e)) ==> advances(s, p, e),
{
    if 0 <= p < s.len() && is_ident_start(s[p]) {
        lemma_ident_end(s, p + 1);
    }
}

/// `statements`: zero or more statements.
pub open spec fn statements(s: Seq<char>, p: int) -> Option<(Seq<Ast>, int)>
    decreases s.len() - p, 6int, 0int,
{
    if !(0 <= p <= s.len()) {
        None
    } else {
        match statement(s, p) {
            None => Some((Seq::empty(), p)),
            Some((e, p1)) => if advances(s, p, p1) {
                match statements(s, p1) {
                    Some((rest, p2)) => Some((seq![e] + rest, p2)),
                    None => None,
                }
            } else {
                None
            },
        }
    }
}

/// `statement`: an expression ended by a newline, possibly after a semicolon.
pub open spec fn statement(s: Seq<char>, p: int) -> Option<(Ast, int)>
    decreases s.len() - p, 5int, 0int,
{
    if !(0 <= p <= s.len()) {
        None
    } else {
        let p1 = skip_blank(s, p);
        proof {
            lemma_skip_blank(s, p);
        }
        match expression(s, p1) {
            None => None,
            Some((e, p2)) => if 0 <= p2 <= s.len() {
                let p3 = skip_blank(s, p2);
                if lit(s, p3, seq![';', '\n']) {
                    Some((e, p3 + 2))
                } else if lit(s, p3, seq!['\n']) {
                    Some((e, p3 + 1))
                } else {
                    None
                }
            } else {
                None
            },
        }
    }
}

/// `expression`: a conditional, a loop, an assignment or a binary operation.
pub open spec fn expression(s: Seq<char>, p: int) -> Option<(Ast, int)>
    decreases s.len() - p, 4int, 0int,
{
    if !(0 <= p <= s.len()) {
        None
    } else {
        match if_else(s, p) {
            Some(r) => Some(r),
            None => match while_loop(s, p) {
                Some(r) => Some(r),
                None => match assignment(s, p) {
                    Some(r) => Some(r),
                    None => binary_op(s, p, 0),
                },
            },
        }
    }
}

/// A block `{` newline statements `}` from `p`, where `p` lies after `start`.
pub open spec fn block(s: Seq<char>, start: int, p: int) -> Option<(Seq<Ast>, int)>
    decreases s.len() - start, 3int, 0int,
{
    if !(0 <= start < p <= s.len()) {
        None
    } else {
        let p1 = skip_blank(s, p);
        proof {
            lemma_skip_blank(s, p);
        }
        if lit(s, p1, seq!['{']) {
            let p2 = skip_blank(s, p1 + 1);
            proof {
                lemma_skip_blank(s, p1 + 1);
            }
            if lit(s, p2, seq!['\n']) {
                match statements(s, p2 + 1) {
                    None => None,
                    Some((body, p3)) => if 0 <= p3 <= s.len() {
                        let p4 = skip_blank(s, p3);
                        if lit(s, p4, seq!['}']) {
                            Some((body, p4 + 1))
                        } else {
                            None
                        }
                    } else {
                        None
                    },
                }
            } else {
                None
            }
        } else {
            None
        }
    }
}

/// `if_else`.
pub open spec fn if_else(s: Seq<char>, p: int) -> Option<(Ast, int)>
    decreases s.len() - p, 3int, 1int,
{
    if !(0 <= p <= s.len()) || !lit(s, p, seq!['i', 'f']) {
        None
    } else {
        let p1 = skip_blank(s, p + 2);
        proof {
            lemma_skip_blank(s, p + 2);
        }
        match expression(s, p1) {
            None => None,
            Some((c, p2)) => if advances(s, p, p2) {
                match block(s, p, p2) {
                    None => None,
                    Some((then_body, p3)) => if advances(s, p, p3) {
                        let p4 = skip_blank(s, p3);
                        proof {
                            lemma_skip_blank(s, p3);
                        }
                        if lit(s, p4, seq!['e', 'l', 's', 'e']) {
                            match block(s, p, p4 + 4) {
                                None => None,
                                Some((else_body, p5)) => Some(
                                    (Ast::IfElse(Box::new(c), then_body, else_body), p5),
                                ),
                            }
                        } else {
                            None
                        }
                    } else {
                        None
                    },
                }
            } else {
                None
            },
        }
    }
}

/// `while_loop`.
pub open spec fn while_loop(s: Seq<char>, p: int) -> Option<(Ast, int)>
    decreases s.len() - p, 3int, 1int,
{
    if !(0 <= p <= s.len()) || !lit(s, p, seq!['w', 'h', 'i', 'l', 'e']) {
        None
    } else {
        let p1 = skip_blank(s, p + 5);
        proof {
            lemma_skip_blank(s, p + 5);
        }
        match expression(s, p1) {
            None => None,
            Some((c, p2)) => if advances(s, p, p2) {
                match block(s, p, p2) {
                    None => None,
                    Some((body, p3)) => Some((Ast::WhileLoop(Box::new(c), body), p3)),
                }
            } else {
                None
            },
        }
    }
}

/// `assignment`.
pub open spec fn assignment(s: Seq<char>, p: int) -> Option<(Ast, int)>
    decreases s.len() - p, 3int, 1int,
{
    if !(0 <= p <= s.len()) {
        None
    } else {
        let q = if lit(s, p, seq!['l', 'e', 't']) { p + 3 } else { p };
        let p1 = skip_blank(s, q);
        proof {
            lemma_skip_blank(s, q);
        }
        match identifier(s, p1) {
            None => None,
            Some((name, p2)) => {
                proof {
                    lemma_identifier(s, p1);
                }
                let p3 = skip_blank(s, p2);
                proof {
                    lemma_skip_blank(s, p2);
                }
                if lit(s, p3, seq!['=']) {
                    let p4 = skip_blank(s, p3 + 1);
                    proof {
                        lemma_skip_blank(s, p3 + 1);
                    }
                    match expression(s, p4) {
                        None => None,
                        Some((e, p5)) => Some((Ast::Assign(name, Box::new(e)), p5)),
                    }
                } else {
                    None
                }
            },
        }
    }
}

/// `binary_op` for the operators that bind at least as strongly as `min_prec`: an operand,
/// then operators with their right operands.
pub open spec fn binary_op(s: Seq<char>, p: int, min_prec: int) -> Option<(Ast, int)>
    decreases s.len() - p, 3int, 0int,
{
    if !(0 <= p <= s.len()) {
        None
    } else {
        match operand(s, p) {
            None => None,
            Some((a, p1)) => if advances(s, p, p1) {
                operators(s, a, p1, min_prec, 0)
            } else {
                None
            },
        }
    }
}

/// After the left operand `lhs` ending at `p`: the operators from number `k` on are tried in
/// order; the first one that binds at least as strongly as `min_prec` and whose right operand
/// parses extends `lhs`, and the search starts again after it. When none applies, `lhs` is
/// the result.
pub open spec fn operators(s: Seq<char>, lhs: Ast, p: int, min_prec: int, k: int) -> Option<
    (Ast, int),
>
    decreases s.len() - p, 1int, num_ops() - k,
{
    if !(0 <= p <= s.len()) || !(0 <= k <= num_ops()) {
        None
    } else if k == num_ops() {
        Some((lhs, p))
    } else {
        let p1 = skip_blank(s, p);
        proof {
            lemma_skip_blank(s, p);
        }
        let matched = if op_prec(k) >= min_prec && lit(s, p1, op_text(k)) {
            let p2 = skip_blank(s, p1 + op_text(k).len());
            proof {
                lemma_skip_blank(s, p1 + op_text(k).len());
            }
            match binary_op(s, p2, op_prec(k)) {
                Some((b, p3)) => Some((op_node(k, lhs, b), p3)),
                None => None,
            }
        } else {
            None
        };
        match matched {
            Some((e, p3)) => if advances(s, p, p3) {
                operators(s, e, p3, min_prec, 0)
            } else {
                None
            },
            None => operators(s, lhs, p, min_prec, k + 1),
        }
    }
}

/// An operand: a call, an identifier or a literal.
pub open spec fn operand(s: Seq<char>, p: int) -> Option<(Ast, int)>
    decreases s.len() - p, 2int, 0int,
{
    if !(0 <= p <= s.len()) {
        None
    } else {
        match identifier(s, p) {
            None => literal(s, p),
            Some((name, p1)) => {
                proof {
                    lemma_identifier(s, p);
                }
                let p2 = skip_blank(s, p1);
                proof {
                    lemma_skip_blank(s, p1);
                }
                let call = if lit(s, p2, seq!['(']) {
                    match arguments(s, p2 + 1) {
                        Some((args, p3)) => if lit(s, p3, seq![')']) {
                            Some((Ast::Call(name, args), p3 + 1))
                        } else {
                            None
                        },
                        None => None,
                    }
                } else {
                    None
                };
                match call {
                    Some(r) => Some(r),
                    None => Some((Ast::Identifier(name), p1)),
                }
            },
        }
    }
}

/// An argument: `_ expression _`.
pub open spec fn argument(s: Seq<char>, p: int) -> Option<(Ast, int)>
    decreases s.len() - p, 5int, 0int,
{
    if !(0 <= p <= s.len()) {
        None
    } else {
        let p1 = skip_blank(s, p);
        proof {
            lemma_skip_blank(s, p);
        }
        match expression(s, p1) {
            Some((e, p2)) => if 0 <= p2 <= s.len() {
                Some((e, skip_blank(s, p2)))
            } else {
                None
            },
            None => None,
        }
    }
}

/// The arguments of a call, separated by commas: none if the first one does not parse.
pub open spec fn arguments(s: Seq<char>, p: int) -> Option<(Seq<Ast>, int)>
    decreases s.len() - p, 6int, 0int,
{
    if !(0 <= p <= s.len()) {
        None
    } else {
        match argument(s, p) {
            None => Some((Seq::empty(), p)),
            Some((e, p1)) => if advances(s, p, p1) {
                match more_arguments(s, p1) {
                    Some((rest, p2)) => Some((seq![e] + rest, p2)),
                    None => None,
                }
            } else {
                None
            },
        }
    }
}

/// The arguments after the first: each is preceded by a comma; the list ends before a comma
/// that no argument follows.
pub open spec fn more_arguments(s: Seq<char>, p: int) -> Option<(Seq<Ast>, int)>
    decreases s.len() - p, 6int, 0int,
{
    if !(0 <= p <= s.len()) {
        None
    } else if lit(s, p, seq![',']) {
        match argument(s, p + 1) {
            None => Some((Seq::empty(), p)),
            Some((e, p1)) => if advances(s, p, p1) {
                match more_arguments(s, p1) {
                    Some((rest, p2)) => Some((seq![e] + rest, p2)),
                    None => None,
                }
            } else {
                None
            },
        }
    } else {
        Some((Seq::empty(), p))
    }
}

/// A parameter: `_ identifier _`.
pub open spec fn param(s: Seq<char>, p: int) -> Option<(Seq<char>, int)> {
    if !(0 <= p <= s.len()) {
        None
    } else {
        match identifier(s, skip_blank(s, p)) {
            Some((i, p1)) => Some((i, skip_blank(s, p1))),
            None => None,
        }
    }
}

pub proof fn lemma_param(s: Seq<char>, p: int)
    ensures
        param(s, p) matches Some((i, e)) ==> advances(s, p, e),
{
    if 0 <= p <= s.len() {
        lemma_skip_blank(s, p);
        lemma_identifier(s, skip_blank(s, p));
        if let Some((i, p1)) = identifier(s, skip_blank(s, p)) {
            lemma_skip_blank(s, p1);
        }
    }
}

/// The parameters after the first: each is preceded by a comma; the list ends before a comma
/// that no parameter follows.
pub open spec fn more_params(s: Seq<char>, p: int) -> Seq<Seq<char>>
    decreases s.len() - p,
{
    if 0 <= p <= s.len() && lit(s, p, seq![',']) {
        match param(s, p + 1) {
            Some((i, p1)) => {
                proof {
                    lemma_param(s, p + 1);
                }
                seq![i] + more_params(s, p1)
            },
            None => Seq::empty(),
        }
    } else {
        Seq::empty()
    }
}

/// Where the parameters after the first end.
pub open spec fn more_params_end(s: Seq<char>, p: int) -> int
    decreases s.len() - p,
{
    if 0 <= p <= s.len() && lit(s, p, seq![',']) {
        match param(s, p + 1) {
            Some((i, p1)) => {
                proof {
                    lemma_param(s, p + 1);
                }
                more_params_end(s, p1)
            },
            None => p,
        }
    } else {
        p
    }
}

/// The parameters of a function, separated by commas, and where they end.
pub open spec fn params(s: Seq<char>, p: int) -> (Seq<Seq<char>>, int) {
    match param(s, p) {
        None => (Seq::empty(), p),
        Some((i, p1)) => (seq![i] + more_params(s, p1), more_params_end(s, p1)),
    }
}

/// A parsed function: its name, its parameters, its result variable and its statements.
pub struct FunctionView {
    pub name: Seq<char>,
    pub params: Seq<Seq<char>>,
    pub ret: Seq<char>,
    pub body: Seq<Ast>,
}

/// `function`: the whole input must be one function.
pub open spec fn function(s: Seq<char>) -> Option<FunctionView> {
    let p0 = skip_space(s, 0);
    if !lit(s, p0, seq!['f', 'n']) {
        None
    } else {
        match identifier(s, skip_blank(s, p0 + 2)) {
            None => None,
            Some((name, p1)) => {
                let p2 = skip_blank(s, p1);
                if !lit(s, p2, seq!['(']) {
                    None
                } else {
                    let (ps, p3) = params(s, p2 + 1);
                    let p4 = skip_blank(s, p3 + 1);
                    if !lit(s, p3, seq![')']) || !lit(s, p4, seq!['-', '>']) {
                        None
                    } else {
                        let p5 = skip_blank(s, p4 + 2);
                        if !lit(s, p5, seq!['(']) {
                            None
                        } else {
                            match param(s, p5 + 1) {
                                None => None,
                                Some((ret, p6)) => {
                                    let p7 = skip_blank(s, p6 + 1);
                                    let p8 = skip_blank(s, p7 + 1);
                                    if !lit(s, p6, seq![')']) || !lit(s, p7, seq!['{']) || !lit(
                                        s,
                                        p8,
                                        seq!['\n'],
                                    ) {
                                        None
                                    } else {
                                        match statements(s, p8 + 1) {
                                            None => None,
                                            Some((body, p9)) => {
                                                let p10 = skip_blank(s, p9);
                                                let p11 = skip_blank(s, p10 + 1);
                                                if lit(s, p10, seq!['}']) && lit(s, p11, seq!['\n'])
                                                    && skip_blank(s, p11 + 1) == s.len() {
                                                    Some(FunctionView { name, params: ps, ret, body })
                                                } else {
                                                    None
                                                }
                                            },
                                        }
                                    }
                                },
                            }
                        }
                    }
                }
            },
        }
    }
}

/// A literal consumes input.
pub proof fn lemma_literal_advances(s: Seq<char>, p: int)
    ensures
        literal(s, p) matches Some((e, q)) ==> advances(s, p, q),
{
    if 0 <= p < s.len() && is_digit(s[p]) {
        lemma_digits_end(s, p + 1);
    } else if lit(s, p, seq!['&']) {
        lemma_identifier(s, p + 1);
    }
}

/// Statements end no earlier than they start.
pub proof fn lemma_statements_advance(s: Seq<char>, p: int)
    ensures
        statements(s, p) matches Some((b, q)) ==> p <= q <= s.len(),
    decreases s.len() - p, 6int, 0int,
{
    if 0 <= p <= s.len() {
        lemma_statement_advances(s, p);
        if let Some((e, p1)) = statement(s, p) {
            if advances(s, p, p1) {
                lemma_statements_advance(s, p1);
            }
        }
    }
}

/// A statement consumes input.
pub proof fn lemma_statement_advances(s: Seq<char>, p: int)
    ensures
        statement(s, p) matches Some((e, q)) ==> advances(s, p, q),
    decreases s.len() - p, 5int, 0int,
{
    if 0 <= p <= s.len() {
        lemma_skip_blank(s, p);
        let p1 = skip_blank(s, p);
        lemma_expression_advances(s, p1);
        if let Some((e, p2)) = expression(s, p1) {
            lemma_skip_blank(s, p2);
        }
    }
}

/// An expression consumes input.
pub proof fn lemma_expression_advances(s: Seq<char>, p: int)
    ensures
        expression(s, p) matches Some((e, q)) ==> advances(s, p, q),
    decreases s.len() - p, 4int, 0int,
{
    if 0 <= p <= s.len() {
        lemma_if_else_advances(s, p);
        lemma_while_loop_advances(s, p);
        lemma_assignment_advances(s, p);
        lemma_binary_op_advances(s, p, 0);
    }
}

/// A block ends after the position it is looked for from.
pub proof fn lemma_block_advances(s: Seq<char>, start: int, p: int)
    ensures
        block(s, start, p) matches Some((b, q)) ==> advances(s, p, q),
    decreases s.len() - start, 3int, 0int,
{
    if 0 <= start < p <= s.len() {
        lemma_skip_blank(s, p);
        let p1 = skip_blank(s, p);
        if lit(s, p1, seq!['{']) {
            lemma_skip_blank(s, p1 + 1);
            let p2 = skip_blank(s, p1 + 1);
            if lit(s, p2, seq!['\n']) {
                lemma_statements_advance(s, p2 + 1);
                if let Some((body, p3)) = statements(s, p2 + 1) {
                    lemma_skip_blank(s, p3);
                }
            }
        }
    }
}

/// A conditional consumes input.
pub proof fn lemma_if_else_advances(s: Seq<char>, p: int)
    ensures
        if_else(s, p) matches Some((e, q)) ==> advances(s, p, q),
    decreases s.len() - p, 3int, 1int,
{
    if 0 <= p <= s.len() && lit(s, p, seq!['i', 'f']) {
        lemma_skip_blank(s, p + 2);
        let p1 = skip_blank(s, p + 2);
        lemma_expression_advances(s, p1);
        if let Some((c, p2)) = expression(s, p1) {
            if advances(s, p, p2) {
                lemma_block_advances(s, p, p2);
                if let Some((then_body, p3)) = block(s, p, p2) {
                    if advances(s, p, p3) {
                        lemma_skip_blank(s, p3);
                        let p4 = skip_blank(s, p3);
                        if lit(s, p4, seq!['e', 'l', 's', 'e']) {
                            lemma_block_advances(s, p, p4 + 4);
                        }
                    }
                }
            }
        }
    }
}

/// A loop consumes input.
pub proof fn lemma_while_loop_advances(s: Seq<char>, p: int)
    ensures
        while_loop(s, p) matches Some((e, q)) ==> advances(s, p, q),
    decreases s.len() - p, 3int, 1int,
{
    if 0 <= p <= s.len() && lit(s, p, seq!['w', 'h', 'i', 'l', 'e']) {
        lemma_skip_blank(s, p + 5);
        let p1 = skip_blank(s, p + 5);
        lemma_expression_advances(s, p1);
        if let Some((c, p2)) = expression(s, p1) {
            if advances(s, p, p2) {
                lemma_block_advances(s, p, p2);
            }
        }
    }
}

/// An assignment consumes input.
pub proof fn lemma_assignment_advances(s: Seq<char>, p: int)
    ensures
        assignment(s, p) matches Some((e, q)) ==> advances(s, p, q),
    decreases s.len() - p, 3int, 1int,
{
    if 0 <= p <= s.len() {
        let q = if lit(s, p, seq!['l', 'e', 't']) { p + 3 } else { p };
        lemma_skip_blank(s, q);
        let p1 = skip_blank(s, q);
        lemma_identifier(s, p1);
        if let Some((name, p2)) = identifier(s, p1) {
            lemma_skip_blank(s, p2);
            let p3 = skip_blank(s, p2);
            if lit(s, p3, seq!['=']) {
                lemma_skip_blank(s, p3 + 1);
                lemma_expression_advances(s, skip_blank(s, p3 + 1));
            }
        }
    }
}

/// A binary operation consumes input.
pub proof fn lemma_binary_op_advances(s: Seq<char>, p: int, min_prec: int)
    ensures
        binary_op(s, p, min_prec) matches Some((e, q)) ==> advances(s, p, q),
    decreases s.len() - p, 3int, 0int,
{
    if 0 <= p <= s.len() {
        lemma_operand_advances(s, p);
        if let Some((a, p1)) = operand(s, p) {
            if advances(s, p, p1) {
                lemma_operators_advance(s, a, p1, min_prec, 0);
            }
        }
    }
}

/// Operators end no earlier than their left operand.
pub proof fn lemma_operators_advance(s: Seq<char>, lhs: Ast, p: int, min_prec: int, k: int)
    ensures
        operators(s, lhs, p, min_prec, k) matches Some((e, q)) ==> p <= q <= s.len(),
    decreases s.len() - p, 1int, num_ops() - k,
{
    if 0 <= p <= s.len() && 0 <= k < num_ops() {
        lemma_skip_blank(s, p);
        let p1 = skip_blank(s, p);
        if op_prec(k) >= min_prec && lit(s, p1, op_text(k)) {
            lemma_skip_blank(s, p1 + op_text(k).len());
            lemma_binary_op_advances(s, skip_blank(s, p1 + op_text(k).len()), op_prec(k));
        }
        let matched = if op_prec(k) >= min_prec && lit(s, p1, op_text(k)) {
            match binary_op(s, skip_blank(s, p1 + op_text(k).len()), op_prec(k)) {
                Some((b, p3)) => Some((op_node(k, lhs, b), p3)),
                None => None,
            }
        } else {
            None
        };
        match matched {
            Some((e, p3)) => if advances(s, p, p3) {
                lemma_operators_advance(s, e, p3, min_prec, 0);
            },
            None => {
                lemma_operators_advance(s, lhs, p, min_prec, k + 1);
            },
        }
    }
}

/// An operand consumes input.
pub proof fn lemma_operand_advances(s: Seq<char>, p: int)
    ensures
        operand(s, p) matches Some((e, q)) ==> advances(s, p, q),
    decreases s.len() - p, 2int, 0int,
{
    if 0 <= p <= s.len() {
        lemma_identifier(s, p);
        lemma_literal_advances(s, p);
        if let Some((name, p1)) = identifier(s, p) {
            lemma_skip_blank(s, p1);
            let p2 = skip_blank(s, p1);
            if lit(s, p2, seq!['(']) {
                lemma_arguments_advance(s, p2 + 1);
            }
        }
    }
}

/// An argument consumes input.
pub proof fn lemma_argument_advances(s: Seq<char>, p: int)
    ensures
        argument(s, p) matches Some((e, q)) ==> advances(s, p, q),
    decreases s.len() - p, 5int, 0int,
{
    if 0 <= p <= s.len() {
        lemma_skip_blank(s, p);
        let p1 = skip_blank(s, p);
        lemma_expression_advances(s, p1);
        if let Some((e, p2)) = expression(s, p1) {
            lemma_skip_blank(s, p2);
        }
    }
}

/// Arguments end no earlier than they start.
pub proof fn lemma_arguments_advance(s: Seq<char>, p: int)
    ensures
        arguments(s, p) matches Some((a, q)) ==> p <= q <= s.len(),
    decreases s.len() - p, 6int, 0int,
{
    if 0 <= p <= s.len() {
        lemma_argument_advances(s, p);
        if let Some((e, p1)) = argument(s, p) {
            if advances(s, p, p1) {
                lemma_more_arguments_advance(s, p1);
            }
        }
    }
}

/// The arguments after the first end no earlier than they start.
pub proof fn lemma_more_arguments_advance(s: Seq<char>, p: int)
    ensures
        more_arguments(s, p) matches Some((a, q)) ==> p <= q <= s.len(),
    decreases s.len() - p, 6int, 0int,
{
    if 0 <= p <= s.len() && lit(s, p, seq![',']) {
        lemma_argument_advances(s, p + 1);
        if let Some((e, p1)) = argument(s, p + 1) {
            if advances(s, p, p1) {
                lemma_more_arguments_advance(s, p1);
            }
        }
    }
}

/// The progress checks of the grammar never reject a parse: every rule they guard consumes
/// input.
pub proof fn lemma_progress_checks_hold(s: Seq<char>, p: int, min_prec: int)
    ensures
        statement(s, p) matches Some((e, q)) ==> advances(s, p, q),
        expression(s, p) matches Some((e, q)) ==> advances(s, p, q),
        operand(s, p) matches Some((e, q)) ==> advances(s, p, q),
        argument(s, p) matches Some((e, q)) ==> advances(s, p, q),
        binary_op(s, p, min_prec) matches Some((e, q)) ==> advances(s, p, q),
{
    lemma_statement_advances(s, p);
    lemma_expression_advances(s, p);
    lemma_operand_advances(s, p);
    lemma_argument_advances(s, p);
    lemma_binary_op_advances(s, p, min_prec);
}

} // verus!
