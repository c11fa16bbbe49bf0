//! Translation of Rover syntax trees into the code generator's instructions: the variables a
//! function declares, the check that it only uses declared names and `i32` literals, and the
//! translator of each kind of node.

use vstd::prelude::*;
use cranelift_codegen::ir::{Block, Type, Value};
use cranelift_frontend::{FunctionBuilder, Variable};
use cranelift_jit::JITModule;
use cranelift_module::FuncId;
use crate::from_bevy::console::{all_digits, decimal_value, is_digit, str_chars, lemma_decimal_take, lemma_decimal_monotone};
use crate::rover::ast::{ASTNode, Ast, asts};
use crate::rover::jit;
use crate::rover::jit::{
    after_inst, after_ssa, builder_state, builder_values, builder_vars, builder_position, builder_var_types,
    builder_types, insertable, module_functions, module_grows, BlockStatus,
    imports_declared, lemma_imports_declared_grow, lemma_module_grows_trans, grows, BinOp, ValueDef,
    BuilderView, FnLinkage, IntCond,
};

verus! {

broadcast use {
    jit::lemma_imports_declared_grow,
    jit::lemma_module_grows_trans,
    jit::lemma_grows_trans,
    vstd::map_lib::lemma_submap_of_trans,
};

/// The names a statement declares: assignment targets, also inside the bodies of conditionals
/// and loops.
pub open spec fn stmt_vars(e: Ast) -> Seq<Seq<char>>
    decreases e,
{
    match e {
        Ast::Assign(n, _) => seq![n],
        Ast::IfElse(_, t, f) => stmts_vars(t) + stmts_vars(f),
        Ast::WhileLoop(_, b) => stmts_vars(b),
        _ => Seq::empty(),
    }
}

/// The names a sequence of statements declares, in order.
pub open spec fn stmts_vars(ss: Seq<Ast>) -> Seq<Seq<char>>
    decreases ss,
{
    if ss.len() == 0 {
        Seq::empty()
    } else {
        stmt_vars(ss[0]) + stmts_vars(ss.drop_first())
    }
}

/// `d` with `n` appended if it is new.
pub open spec fn add_name(d: Seq<Seq<char>>, n: Seq<char>) -> Seq<Seq<char>> {
    if d.contains(n) {
        d
    } else {
        d.push(n)
    }
}

/// `d` with the new names of `ns` appended in order.
pub open spec fn add_names(d: Seq<Seq<char>>, ns: Seq<Seq<char>>) -> Seq<Seq<char>>
    decreases ns.len(),
{
    if ns.len() == 0 {
        d
    } else {
        add_names(add_name(d, ns[0]), ns.drop_first())
    }
}

/// The variables of a function: its parameters, its result and the names its statements
/// declare, each once, in order of first appearance.
pub open spec fn function_vars(params: Seq<Seq<char>>, ret: Seq<char>, body: Seq<Ast>) -> Seq<Seq<char>> {
    add_names(Seq::empty(), params + seq![ret] + stmts_vars(body))
}

/// `l` without its sign, if any.
pub open spec fn signed_digits(l: Seq<char>) -> Seq<char> {
    if l.len() > 0 && (l[0] == '+' || l[0] == '-') { l.drop_first() } else { l }
}

/// The value of an `i32` literal: decimal digits, possibly signed.
pub open spec fn spec_parse_i32(l: Seq<char>) -> Option<i32> {
    let neg = l.len() > 0 && l[0] == '-';
    let d = signed_digits(l);
    if d.len() > 0 && all_digits(d) {
        let v = if neg { -decimal_value(d) } else { decimal_value(d) };
        if i32::MIN <= v <= i32::MAX {
            Some(v as i32)
        } else {
            None
        }
    } else {
        None
    }
}

/// Every name the tree reads or assigns is among `names`, and every literal is an `i32`.
pub open spec fn scoped(e: Ast, names: Seq<Seq<char>>) -> bool
    decreases e,
{
    match e {
        Ast::Literal(l) => spec_parse_i32(l) is Some,
        Ast::Identifier(n) => names.contains(n),
        Ast::Field(_) => true,
        Ast::Assign(n, x) => names.contains(n) && scoped(*x, names),
        Ast::Or(a, b) => scoped(*a, names) && scoped(*b, names),
        Ast::And(a, b) => scoped(*a, names) && scoped(*b, names),
        Ast::Eq(a, b) => scoped(*a, names) && scoped(*b, names),
        Ast::Ne(a, b) => scoped(*a, names) && scoped(*b, names),
        Ast::Lt(a, b) => scoped(*a, names) && scoped(*b, names),
        Ast::Le(a, b) => scoped(*a, names) && scoped(*b, names),
        Ast::Gt(a, b) => scoped(*a, names) && scoped(*b, names),
        Ast::Ge(a, b) => scoped(*a, names) && scoped(*b, names),
        Ast::Add(a, b) => scoped(*a, names) && scoped(*b, names),
        Ast::Sub(a, b) => scoped(*a, names) && scoped(*b, names),
        Ast::Mul(a, b) => scoped(*a, names) && scoped(*b, names),
        Ast::Div(a, b) => scoped(*a, names) && scoped(*b, names),
        Ast::IfElse(c, t, f) => scoped(*c, names) && all_scoped(t, names) && all_scoped(f, names),
        Ast::WhileLoop(c, b) => scoped(*c, names) && all_scoped(b, names),
        Ast::Call(_, args) => all_scoped(args, names),
        Ast::GlobalDataAddr(_) => true,
    }
}

pub open spec fn all_scoped(ss: Seq<Ast>, names: Seq<Seq<char>>) -> bool
    decreases ss,
{
    if ss.len() == 0 {
        true
    } else {
        scoped(ss[0], names) && all_scoped(ss.drop_first(), names)
    }
}

pub proof fn lemma_all_scoped(ss: Seq<Ast>, names: Seq<Seq<char>>)
    ensures
        all_scoped(ss, names) <==> forall|i: int| 0 <= i < ss.len() ==> scoped(#[trigger] ss[i], names),
    decreases ss.len(),
{
    if ss.len() > 0 {
        lemma_all_scoped(ss.drop_first(), names);
        if forall|i: int| 0 <= i < ss.len() ==> scoped(#[trigger] ss[i], names) {
            assert forall|i: int| 0 <= i < ss.drop_first().len() implies scoped(
                #[trigger] ss.drop_first()[i],
                names,
            ) by {
                assert(ss.drop_first()[i] == ss[i + 1]);
            }
        }
        if all_scoped(ss, names) {
            assert forall|i: int| 0 <= i < ss.len() implies scoped(#[trigger] ss[i], names) by {
                if i > 0 {
                    assert(ss[i] == ss.drop_first()[i - 1]);
                }
            }
        }
    }
}

pub proof fn lemma_stmts_vars_take(ss: Seq<Ast>, i: int)
    requires
        0 <= i < ss.len(),
    ensures
        stmts_vars(ss.take(i + 1)) == stmts_vars(ss.take(i)) + stmt_vars(ss[i]),
    decreases i,
{
    if i == 0 {
        assert(ss.take(1).drop_first() =~= Seq::<Ast>::empty());
        assert(ss.take(0) =~= Seq::<Ast>::empty());
        assert(stmts_vars(ss.take(0)) == Seq::<Seq<char>>::empty());
        assert(stmts_vars(ss.take(1).drop_first()) == Seq::<Seq<char>>::empty());
        assert(ss.take(1)[0] == ss[0]);
        assert(stmts_vars(ss.take(1)) =~= stmts_vars(ss.take(0)) + stmt_vars(ss[0]));
    } else {
        let t = ss.drop_first();
        lemma_stmts_vars_take(t, i - 1);
        assert(ss.take(i + 1).drop_first() =~= t.take(i));
        assert(ss.take(i).drop_first() =~= t.take(i - 1));
        assert(ss.take(i + 1)[0] == ss[0]);
        assert(ss.take(i)[0] == ss[0]);
        assert(t[i - 1] == ss[i]);
        assert(stmts_vars(ss.take(i + 1)) =~= stmts_vars(ss.take(i)) + stmt_vars(ss[i]));
    }
}

pub proof fn lemma_add_names_append(d: Seq<Seq<char>>, a: Seq<Seq<char>>, b: Seq<Seq<char>>)
    ensures
        add_names(d, a + b) == add_names(add_names(d, a), b),
    decreases a.len(),
{
    if a.len() == 0 {
        assert(a + b =~= b);
    } else {
        assert((a + b).drop_first() =~= a.drop_first() + b);
        assert((a + b)[0] == a[0]);
        lemma_add_names_append(add_name(d, a[0]), a.drop_first(), b);
    }
}

pub proof fn lemma_add_names_push(d: Seq<Seq<char>>, a: Seq<Seq<char>>, n: Seq<char>)
    ensures
        add_names(d, a.push(n)) == add_name(add_names(d, a), n),
{
    lemma_add_names_append(d, a, seq![n]);
    assert(a.push(n) =~= a + seq![n]);
    assert(seq![n].drop_first() =~= Seq::<Seq<char>>::empty());
    assert(seq![n][0] == n);
    let x = add_names(d, a);
    assert(add_names(x, seq![n]) == add_names(add_name(x, n), seq![n].drop_first()));
    assert(add_names(add_name(x, n), Seq::<Seq<char>>::empty()) == add_name(x, n));
}

/// Names end up in `add_names(d, ns)` exactly when they are in `d` or in `ns`.
pub proof fn lemma_add_names_contains(d: Seq<Seq<char>>, ns: Seq<Seq<char>>, n: Seq<char>)
    ensures
        add_names(d, ns).contains(n) <==> (d.contains(n) || ns.contains(n)),
    decreases ns.len(),
{
    if ns.len() > 0 {
        lemma_add_names_contains(add_name(d, ns[0]), ns.drop_first(), n);
        if ns.contains(n) && !d.contains(n) && n != ns[0] {
            let k = choose|k: int| 0 <= k < ns.len() && ns[k] == n;
            assert(ns.drop_first()[k - 1] == n);
        }
        if ns.drop_first().contains(n) {
            let k = choose|k: int| 0 <= k < ns.drop_first().len() && ns.drop_first()[k] == n;
            assert(ns[k + 1] == n);
        }
        if add_name(d, ns[0]).contains(n) && !d.contains(n) {
            let k = choose|k: int| 0 <= k < add_name(d, ns[0]).len() && add_name(d, ns[0])[k] == n;
            assert(k == d.len());
            assert(ns[0] == n);
        }
        if d.contains(n) {
            let k = choose|k: int| 0 <= k < d.len() && d[k] == n;
            assert(add_name(d, ns[0])[k] == n);
        }
        if ns[0] == n {
            if !d.contains(n) {
                assert(add_name(d, ns[0])[d.len() as int] == n);
            }
        }
    }
}

/// `add_names` keeps a sequence free of duplicates.
pub proof fn lemma_add_names_no_duplicates(d: Seq<Seq<char>>, ns: Seq<Seq<char>>)
    requires
        d.no_duplicates(),
    ensures
        add_names(d, ns).no_duplicates(),
    decreases ns.len(),
{
    if ns.len() > 0 {
        let d1 = add_name(d, ns[0]);
        assert(d1.no_duplicates()) by {
            if !d.contains(ns[0]) {
                assert forall|i: int, j: int| 0 <= i < j < d1.len() implies d1[i] != d1[j] by {
                    if j == d.len() {
                        assert(d1[i] == d[i]);
                    }
                }
            }
        }
        lemma_add_names_no_duplicates(d1, ns.drop_first());
    }
}

/// The variables of a function are its parameters, its result and the names its statements
/// assign to, and each of them is declared once.
pub proof fn lemma_function_vars(params: Seq<Seq<char>>, ret: Seq<char>, body: Seq<Ast>, n: Seq<char>)
    ensures
        function_vars(params, ret, body).contains(n) <==> (params.contains(n) || n == ret
            || stmts_vars(body).contains(n)),
        function_vars(params, ret, body).no_duplicates(),
{
    let all = params + seq![ret] + stmts_vars(body);
    lemma_add_names_contains(Seq::empty(), all, n);
    lemma_add_names_no_duplicates(Seq::empty(), all);
    if all.contains(n) {
        let k = choose|k: int| 0 <= k < all.len() && all[k] == n;
        if k < params.len() {
            assert(params[k] == n);
        } else if k > params.len() {
            assert(stmts_vars(body)[k - params.len() - 1] == n);
        }
    }
    if params.contains(n) {
        let k = choose|k: int| 0 <= k < params.len() && params[k] == n;
        assert(all[k] == n);
    }
    if n == ret {
        assert(all[params.len() as int] == n);
    }
    if stmts_vars(body).contains(n) {
        let k = choose|k: int| 0 <= k < stmts_vars(body).len() && stmts_vars(body)[k] == n;
        assert(all[params.len() + 1 + k] == n);
    }
}

/// Whether the translation of `e` succeeds on its own, whatever the module holds: `e` makes no
/// call into the module (no call, no data object's address), and every assignment gives its
/// variable a value of the word type (not a comparison's).
pub open spec fn accepted(e: Ast) -> bool
    decreases e,
{
    match e {
        Ast::Literal(_) => true,
        Ast::Field(_) => true,
        Ast::Identifier(_) => true,
        Ast::Assign(_, x) => accepted(*x) && word_typed(*x),
        Ast::Or(a, b) => accepted(*a) && accepted(*b),
        Ast::And(a, b) => accepted(*a) && accepted(*b),
        Ast::Eq(a, b) => accepted(*a) && accepted(*b),
        Ast::Ne(a, b) => accepted(*a) && accepted(*b),
        Ast::Lt(a, b) => accepted(*a) && accepted(*b),
        Ast::Le(a, b) => accepted(*a) && accepted(*b),
        Ast::Gt(a, b) => accepted(*a) && accepted(*b),
        Ast::Ge(a, b) => accepted(*a) && accepted(*b),
        Ast::Add(a, b) => accepted(*a) && accepted(*b),
        Ast::Sub(a, b) => accepted(*a) && accepted(*b),
        Ast::Mul(a, b) => accepted(*a) && accepted(*b),
        Ast::Div(a, b) => accepted(*a) && accepted(*b),
        Ast::IfElse(c, t, el) => accepted(*c) && (forall|i: int| 0 <= i < t.len() ==> accepted(#[trigger] t[i])) && (
        forall|i: int| 0 <= i < el.len() ==> accepted(#[trigger] el[i])),
        Ast::WhileLoop(c, b) => accepted(*c) && forall|i: int| 0 <= i < b.len() ==> accepted(#[trigger] b[i]),
        _ => false,
    }
}

/// Every statement of `ss` is accepted.
pub open spec fn all_accepted(ss: Seq<Ast>) -> bool {
    forall|i: int| 0 <= i < ss.len() ==> accepted(#[trigger] ss[i])
}

/// Whether the value of `e` has the word type: every value but a comparison's, a call's result
/// and a data object's address (whose types are the callee's result type and the pointer type).
pub open spec fn word_typed(e: Ast) -> bool
    decreases e,
{
    match e {
        Ast::Assign(_, x) => word_typed(*x),
        Ast::Or(a, _) => word_typed(*a),
        Ast::And(a, _) => word_typed(*a),
        Ast::Add(a, _) => word_typed(*a),
        Ast::Sub(a, _) => word_typed(*a),
        Ast::Mul(a, _) => word_typed(*a),
        Ast::Div(a, _) => word_typed(*a),
        Ast::Eq(..) | Ast::Ne(..) | Ast::Lt(..) | Ast::Le(..) | Ast::Gt(..) | Ast::Ge(..) => false,
        Ast::Call(..) | Ast::GlobalDataAddr(..) => false,
        _ => true,
    }
}

/// Whether `e` assigns to the variable named `n`, anywhere in it.
pub open spec fn assigns(e: Ast, n: Seq<char>) -> bool
    decreases e,
{
    match e {
        Ast::Assign(x, y) => x == n || assigns(*y, n),
        Ast::Or(a, b) => assigns(*a, n) || assigns(*b, n),
        Ast::And(a, b) => assigns(*a, n) || assigns(*b, n),
        Ast::Eq(a, b) => assigns(*a, n) || assigns(*b, n),
        Ast::Ne(a, b) => assigns(*a, n) || assigns(*b, n),
        Ast::Lt(a, b) => assigns(*a, n) || assigns(*b, n),
        Ast::Le(a, b) => assigns(*a, n) || assigns(*b, n),
        Ast::Gt(a, b) => assigns(*a, n) || assigns(*b, n),
        Ast::Ge(a, b) => assigns(*a, n) || assigns(*b, n),
        Ast::Add(a, b) => assigns(*a, n) || assigns(*b, n),
        Ast::Sub(a, b) => assigns(*a, n) || assigns(*b, n),
        Ast::Mul(a, b) => assigns(*a, n) || assigns(*b, n),
        Ast::Div(a, b) => assigns(*a, n) || assigns(*b, n),
        Ast::IfElse(c, t, f) => assigns(*c, n) || any_assigns(t, n) || any_assigns(f, n),
        Ast::WhileLoop(c, b) => assigns(*c, n) || any_assigns(b, n),
        Ast::Call(_, args) => any_assigns(args, n),
        _ => false,
    }
}

/// Whether some node of `ss` assigns to the variable named `n`.
pub open spec fn any_assigns(ss: Seq<Ast>, n: Seq<char>) -> bool
    decreases ss,
{
    if ss.len() == 0 {
        false
    } else {
        assigns(ss[0], n) || any_assigns(ss.drop_first(), n)
    }
}

/// Whether `e` holds no conditional and no loop.
pub open spec fn straight(e: Ast) -> bool
    decreases e,
{
    match e {
        Ast::Assign(_, y) => straight(*y),
        Ast::Or(a, b) => straight(*a) && straight(*b),
        Ast::And(a, b) => straight(*a) && straight(*b),
        Ast::Eq(a, b) => straight(*a) && straight(*b),
        Ast::Ne(a, b) => straight(*a) && straight(*b),
        Ast::Lt(a, b) => straight(*a) && straight(*b),
        Ast::Le(a, b) => straight(*a) && straight(*b),
        Ast::Gt(a, b) => straight(*a) && straight(*b),
        Ast::Ge(a, b) => straight(*a) && straight(*b),
        Ast::Add(a, b) => straight(*a) && straight(*b),
        Ast::Sub(a, b) => straight(*a) && straight(*b),
        Ast::Mul(a, b) => straight(*a) && straight(*b),
        Ast::Div(a, b) => straight(*a) && straight(*b),
        Ast::IfElse(..) => false,
        Ast::WhileLoop(..) => false,
        Ast::Call(_, args) => all_straight(args),
        _ => true,
    }
}

/// Whether every node of `ss` holds no conditional and no loop.
pub open spec fn all_straight(ss: Seq<Ast>) -> bool
    decreases ss,
{
    if ss.len() == 0 {
        true
    } else {
        straight(ss[0]) && all_straight(ss.drop_first())
    }
}

/// The value variable `x` holds in the block `o` stands in, if known, is still its value in `f`.
pub open spec fn keeps_var(o: BuilderView, f: BuilderView, x: Variable) -> bool {
    o.vars.contains_key((x, o.position->0)) ==> f.vars.contains_key((x, o.position->0)) && f.vars[(x, o.position->0)]
        == o.vars[(x, o.position->0)]
}

/// For a node `e` without conditionals and loops, the builder stays in its block, and every
/// variable of `vars` whose name `e` does not assign keeps its value there.
pub open spec fn frame_straight(o: BuilderView, f: BuilderView, vars: Seq<(Seq<char>, Variable)>, e: Ast) -> bool {
    straight(e) ==> f.position == o.position && forall|k: int|
        0 <= k < vars.len() && !assigns(e, vars[k].0) ==> #[trigger] keeps_var(o, f, vars[k].1)
}

/// No two names stand for one variable.
pub open spec fn distinct_vars(vars: Seq<(Seq<char>, Variable)>) -> bool {
    forall|i: int, j: int| 0 <= i < vars.len() && 0 <= j < vars.len() && i != j ==> #[trigger] vars[i].1 != #[trigger] vars[j].1
}

/// The variables `vars` are declared in `vt`, all of type `word`.
pub open spec fn vars_typed(vars: Seq<(Seq<char>, Variable)>, vt: Map<Variable, Type>, word: Type) -> bool {
    forall|k: int| 0 <= k < vars.len() ==> vt.contains_key(#[trigger] vars[k].1) && vt[vars[k].1] == word
}

/// An arithmetic or logical operation.
pub open spec fn is_arith(e: Ast) -> bool {
    e is Add || e is Sub || e is Mul || e is Div || e is And || e is Or
}

/// A comparison.
pub open spec fn is_compare(e: Ast) -> bool {
    e is Eq || e is Ne || e is Lt || e is Le || e is Gt || e is Ge
}

/// The last import of `name` in `imported`, if any.
pub open spec fn latest_import(imported: Seq<(String, FuncId)>, name: Seq<char>) -> Option<FuncId>
    decreases imported.len(),
{
    if imported.len() == 0 {
        None
    } else if imported.last().0@ == name {
        Some(imported.last().1)
    } else {
        latest_import(imported.drop_last(), name)
    }
}

/// Parses an `i32` literal: decimal digits, possibly signed.
pub fn parse_i32(l: &str) -> (v: Option<i32>)
    ensures
        v == spec_parse_i32(l@),
{
    let c = str_chars(l);
    let neg = c.len() > 0 && c[0] == '-';
    let start: usize = if c.len() > 0 && (c[0] == '+' || c[0] == '-') {
        1
    } else {
        0
    };
    let ghost d = signed_digits(l@);
    assert(d =~= c@.skip(start as int));
    if start >= c.len() {
        return None;
    }
    let mut acc: u64 = 0;
    let mut i: usize = start;
    assert(d.take(0) =~= Seq::<char>::empty());
    while i < c.len()
        invariant
            c@ == l@,
            d == c@.skip(start as int),
            d == signed_digits(l@),
            neg == (l@.len() > 0 && l@[0] == '-'),
            start <= i <= c@.len(),
            start < c@.len(),
            forall|k: int| 0 <= k < i - start ==> is_digit(#[trigger] d[k]),
            acc == decimal_value(d.take(i - start)),
            acc <= 0x8000_0000,
        decreases c@.len() - i,
    {
        let ch = c[i];
        assert(d[i - start] == ch);
        if !('0' <= ch && ch <= '9') {
            assert(!is_digit(d[i - start]));
            assert(!all_digits(d));
            return None;
        }
        proof {
            lemma_decimal_take(d, i - start);
        }
        acc = acc * 10 + (ch as u32 - 48) as u64;
        if acc > 0x8000_0000 {
            proof {
                if all_digits(d) {
                    lemma_decimal_monotone(d, i - start + 1, d.len() as int);
                    assert(d.take(d.len() as int) =~= d);
                }
            }
            return None;
        }
        i = i + 1;
    }
    assert(d.take(d.len() as int) =~= d);
    assert(all_digits(d));
    if neg {
        let v = 0 - (acc as i64);
        Some(v as i32)
    } else if acc <= 0x7fff_ffff {
        Some(acc as i32)
    } else {
        None
    }
}

/// The variables of the function being translated, by name.
pub struct Variables {
    entries: Vec<(String, Variable)>,
}

impl View for Variables {
    type V = Seq<(Seq<char>, Variable)>;

    /// The declared variables with their names, in order of declaration.
    closed spec fn view(&self) -> Seq<(Seq<char>, Variable)> {
        self.entries@.map_values(|e: (String, Variable)| (e.0@, e.1))
    }
}

impl Variables {
    pub fn new() -> (v: Self)
        ensures
            v.names() == Seq::<Seq<char>>::empty(),
    {
        let v = Variables { entries: Vec::new() };
        assert(v.names() =~= Seq::<Seq<char>>::empty());
        v
    }

    /// The names of the declared variables, in order of declaration.
    pub open spec fn names(&self) -> Seq<Seq<char>> {
        self@.map_values(|e: (Seq<char>, Variable)| e.0)
    }

    /// The variable named `name`: the first one declared under that name.
    pub open spec fn var_of(&self, name: Seq<char>) -> Variable {
        let k = choose|k: int| 0 <= k < self@.len() && self@[k].0 == name && forall|j: int|
            0 <= j < k ==> self@[j].0 != name;
        self@[k].1
    }

    /// The variable named `name`, if it is declared.
    pub fn get(&self, name: &String) -> (var: Option<Variable>)
        ensures
            var is Some <==> self.names().contains(name@),
            var matches Some(v) ==> v == self.var_of(name@),
            var matches Some(v) ==> exists|k: int| 0 <= k < self@.len() && #[trigger] self@[k] == (name@, v),
    {
        let mut i: usize = 0;
        while i < self.entries.len()
            invariant
                0 <= i <= self.entries@.len(),
                forall|j: int| 0 <= j < i ==> self.names()[j] != name@,
            decreases self.entries@.len() - i,
        {
            assert(self.names()[i as int] == self.entries@[i as int].0@);
            if self.entries[i].0 == *name {
                proof {
                    assert forall|j: int| 0 <= j < i implies #[trigger] self@[j].0 != name@ by {
                        assert(self@[j].0 == self.names()[j]);
                    }
                    assert(self@[i as int].0 == name@);
                    let k = choose|k: int| 0 <= k < self@.len() && self@[k].0 == name@ && forall|j: int|
                        0 <= j < k ==> self@[j].0 != name@;
                    assert(0 <= k < self@.len() && self@[k].0 == name@);
                    if k < i {
                        assert(self@[k].0 != name@);
                    } else if k > i {
                        assert(self@[i as int].0 != name@);
                    }
                    assert(k == i);
                }
                return Some(self.entries[i].1);
            }
            i = i + 1;
        }
        proof {
            if self.names().contains(name@) {
                let k = choose|k: int| 0 <= k < self.names().len() && self.names()[k] == name@;
                assert(self.names()[k] != name@);
            }
        }
        None
    }

    /// Declares one variable of type `ty` for each of `names`, in order.
    pub fn declare_all(b: &mut FunctionBuilder, ty: Type, names: &Vec<String>) -> (v: Self)
        ensures
            v.names() == names_of(names@),
            builder_state(*final(b)) == (BuilderView { var_types: builder_var_types(*final(b)), ..builder_state(*old(b)) }),
            builder_var_types(*old(b)).submap_of(builder_var_types(*final(b))),
            forall|k: int| 0 <= k < v@.len() ==> builder_var_types(*final(b)).contains_key(#[trigger] v@[k].1)
                && builder_var_types(*final(b))[v@[k].1] == ty,
            distinct_vars(v@),
    {
        let mut v = Variables::new();
        let mut i: usize = 0;
        while i < names.len()
            invariant
                0 <= i <= names@.len(),
                v.names() == names_of(names@).take(i as int),
                v@.len() == i,
                builder_state(*b) == (BuilderView { var_types: builder_var_types(*b), ..builder_state(*old(b)) }),
                builder_var_types(*old(b)).submap_of(builder_var_types(*b)),
                forall|k: int| 0 <= k < v@.len() ==> builder_var_types(*b).contains_key(#[trigger] v@[k].1)
                    && builder_var_types(*b)[v@[k].1] == ty,
                distinct_vars(v@),
            decreases names@.len() - i,
        {
            let ghost vt = builder_var_types(*b);
            let var = jit::declare_var(b, ty);
            assert(vt.submap_of(builder_var_types(*b)));
            assert(builder_var_types(*old(b)).submap_of(vt));
            let ghost before = v.names();
            let ghost before_entries = v@;
            v.entries.push((names[i].clone(), var));
            assert(v@ =~= before_entries.push((names@[i as int]@, var)));
            assert(v.names() =~= before.push(names@[i as int]@));
            assert(names_of(names@).take(i + 1) =~= names_of(names@).take(i as int).push(names@[i as int]@));
            assert forall|k: int| 0 <= k < v@.len() implies builder_var_types(*b).contains_key(#[trigger] v@[k].1)
                && builder_var_types(*b)[v@[k].1] == ty by {
                if k < i {
                    assert(v@[k] == before_entries[k]);
                    assert(vt.contains_key(before_entries[k].1));
                }
            }
            assert forall|k1: int, k2: int| 0 <= k1 < v@.len() && 0 <= k2 < v@.len() && k1 != k2 implies #[trigger] v@[k1].1
                != #[trigger] v@[k2].1 by {
                if k1 < i && k2 < i {
                    assert(v@[k1] == before_entries[k1] && v@[k2] == before_entries[k2]);
                } else if k1 < i {
                    assert(v@[k1] == before_entries[k1]);
                    assert(vt.contains_key(before_entries[k1].1));
                } else {
                    assert(v@[k2] == before_entries[k2]);
                    assert(vt.contains_key(before_entries[k2].1));
                }
            }
            i = i + 1;
        }
        assert(names_of(names@).take(names@.len() as int) =~= names_of(names@));
        v
    }
}

/// The names of `v`.
pub open spec fn names_of(v: Seq<String>) -> Seq<Seq<char>> {
    v.map_values(|x: String| x@)
}

/// Appends `n` to `names` if it is new.
fn add_name_to(names: &mut Vec<String>, n: &String)
    ensures
        names_of(final(names)@) == add_name(names_of(old(names)@), n@),
{
    let mut i: usize = 0;
    while i < names.len()
        invariant
            0 <= i <= names@.len(),
            forall|j: int| 0 <= j < i ==> names_of(names@)[j] != n@,
        decreases names@.len() - i,
    {
        if names[i] == *n {
            assert(names_of(names@)[i as int] == n@);
            return;
        }
        i = i + 1;
    }
    proof {
        if names_of(names@).contains(n@) {
            let k = choose|k: int| 0 <= k < names_of(names@).len() && names_of(names@)[k] == n@;
            assert(names_of(names@)[k] != n@);
        }
    }
    let ghost before = names_of(names@);
    names.push(n.clone());
    assert(names_of(names@) =~= before.push(n@));
}

/// Collects the names statement `e` declares.
fn declare_variables_in_stmt(names: &mut Vec<String>, e: &ASTNode)
    ensures
        names_of(final(names)@) == add_names(names_of(old(names)@), stmt_vars(e.to_ast())),
    decreases e,
{
    match e {
        ASTNode::Assign(name, x) => {
            add_name_to(names, name);
            proof {
                let n = name@;
                assert(seq![n].drop_first() =~= Seq::<Seq<char>>::empty());
                assert(seq![n][0] == n);
                assert(e.to_ast() == Ast::Assign(n, Box::new(x.to_ast())));
                assert(stmt_vars(e.to_ast()) == seq![n]);
                assert(add_names(add_name(names_of(old(names)@), n), Seq::<Seq<char>>::empty())
                    == add_name(names_of(old(names)@), n));
            }
        },
        ASTNode::IfElse(_, then_body, else_body) => {
            declare_variables_in_stmts(names, then_body);
            declare_variables_in_stmts(names, else_body);
            proof {
                lemma_add_names_append(
                    names_of(old(names)@),
                    stmts_vars(asts(then_body@)),
                    stmts_vars(asts(else_body@)),
                );
            }
        },
        ASTNode::WhileLoop(_, body) => {
            declare_variables_in_stmts(names, body);
        },
        _ => {
            proof {
                assert(stmt_vars(e.to_ast()) =~= Seq::<Seq<char>>::empty());
            }
        },
    }
}

/// Collects the names statements `ss` declare.
fn declare_variables_in_stmts(names: &mut Vec<String>, ss: &Vec<ASTNode>)
    ensures
        names_of(final(names)@) == add_names(names_of(old(names)@), stmts_vars(asts(ss@))),
    decreases ss,
{
    let mut i: usize = 0;
    assert(asts(ss@).take(0) =~= Seq::<Ast>::empty());
    while i < ss.len()
        invariant
            0 <= i <= ss@.len(),
            names_of(names@) == add_names(names_of(old(names)@), stmts_vars(asts(ss@).take(i as int))),
        decreases ss@.len() - i,
    {
        declare_variables_in_stmt(names, &ss[i]);
        proof {
            lemma_stmts_vars_take(asts(ss@), i as int);
            lemma_add_names_append(
                names_of(old(names)@),
                stmts_vars(asts(ss@).take(i as int)),
                stmt_vars(ss@[i as int].to_ast()),
            );
        }
        i = i + 1;
    }
    assert(asts(ss@).take(ss@.len() as int) =~= asts(ss@));
}

/// The variables of a function with parameters `params`, result `ret` and statements `body`:
/// the parameters, the result and the assignment targets, each once, in order of first
/// appearance.
pub fn variable_names(params: &Vec<String>, ret: &String, body: &Vec<ASTNode>) -> (names: Vec<String>)
    ensures
        names_of(names@) == function_vars(names_of(params@), ret@, asts(body@)),
{
    let mut names: Vec<String> = Vec::new();
    let mut i: usize = 0;
    assert(names_of(names@) =~= Seq::<Seq<char>>::empty());
    assert(names_of(params@).take(0) =~= Seq::<Seq<char>>::empty());
    while i < params.len()
        invariant
            0 <= i <= params@.len(),
            names_of(names@) == add_names(Seq::empty(), names_of(params@).take(i as int)),
        decreases params@.len() - i,
    {
        add_name_to(&mut names, &params[i]);
        proof {
            assert(names_of(params@).take(i + 1) =~= names_of(params@).take(i as int).push(params@[i as int]@));
            lemma_add_names_push(Seq::empty(), names_of(params@).take(i as int), params@[i as int]@);
        }
        i = i + 1;
    }
    assert(names_of(params@).take(params@.len() as int) =~= names_of(params@));
    add_name_to(&mut names, ret);
    proof {
        lemma_add_names_push(Seq::empty(), names_of(params@), ret@);
    }
    declare_variables_in_stmts(&mut names, body);
    proof {
        lemma_add_names_append(Seq::empty(), names_of(params@).push(ret@), stmts_vars(asts(body@)));
        assert(names_of(params@) + seq![ret@] =~= names_of(params@).push(ret@));
    }
    names
}

/// Whether the tree `e` reads and assigns only names of `names`, with `i32` literals.
pub fn check_scoped(e: &ASTNode, names: &Vec<String>) -> (b: bool)
    ensures
        b == scoped(e.to_ast(), names_of(names@)),
    decreases e,
{
    match e {
        ASTNode::Literal(l) => parse_i32(l.as_str()).is_some(),
        ASTNode::Identifier(n) => contains_name(names, n),
        ASTNode::Field(_) => true,
        ASTNode::Assign(n, x) => contains_name(names, n) && check_scoped(x, names),
        ASTNode::Or(a, c) => check_scoped(a, names) && check_scoped(c, names),
        ASTNode::And(a, c) => check_scoped(a, names) && check_scoped(c, names),
        ASTNode::Eq(a, c) => check_scoped(a, names) && check_scoped(c, names),
        ASTNode::Ne(a, c) => check_scoped(a, names) && check_scoped(c, names),
        ASTNode::Lt(a, c) => check_scoped(a, names) && check_scoped(c, names),
        ASTNode::Le(a, c) => check_scoped(a, names) && check_scoped(c, names),
        ASTNode::Gt(a, c) => check_scoped(a, names) && check_scoped(c, names),
        ASTNode::Ge(a, c) => check_scoped(a, names) && check_scoped(c, names),
        ASTNode::Add(a, c) => check_scoped(a, names) && check_scoped(c, names),
        ASTNode::Sub(a, c) => check_scoped(a, names) && check_scoped(c, names),
        ASTNode::Mul(a, c) => check_scoped(a, names) && check_scoped(c, names),
        ASTNode::Div(a, c) => check_scoped(a, names) && check_scoped(c, names),
        ASTNode::IfElse(c, t, f) => check_scoped(c, names) && check_all_scoped(t, names)
            && check_all_scoped(f, names),
        ASTNode::WhileLoop(c, body) => check_scoped(c, names) && check_all_scoped(body, names),
        ASTNode::Call(_, args) => check_all_scoped(args, names),
        ASTNode::GlobalDataAddr(_) => true,
    }
}

/// Whether every tree of `ss` reads and assigns only names of `names`, with `i32` literals.
pub fn check_all_scoped(ss: &Vec<ASTNode>, names: &Vec<String>) -> (b: bool)
    ensures
        b == all_scoped(asts(ss@), names_of(names@)),
    decreases ss,
{
    proof {
        lemma_all_scoped(asts(ss@), names_of(names@));
    }
    let mut i: usize = 0;
    while i < ss.len()
        invariant
            0 <= i <= ss@.len(),
            all_scoped(asts(ss@), names_of(names@)) <==> forall|j: int|
                0 <= j < asts(ss@).len() ==> scoped(#[trigger] asts(ss@)[j], names_of(names@)),
            forall|j: int| 0 <= j < i ==> scoped(#[trigger] asts(ss@)[j], names_of(names@)),
        decreases ss@.len() - i,
    {
        if !check_scoped(&ss[i], names) {
            assert(asts(ss@)[i as int] == ss@[i as int].to_ast());
            return false;
        }
        assert(asts(ss@)[i as int] == ss@[i as int].to_ast());
        i = i + 1;
    }
    true
}

/// Whether `n` is among `names`.
fn contains_name(names: &Vec<String>, n: &String) -> (b: bool)
    ensures
        b == names_of(names@).contains(n@),
{
    let mut i: usize = 0;
    while i < names.len()
        invariant
            0 <= i <= names@.len(),
            forall|j: int| 0 <= j < i ==> names_of(names@)[j] != n@,
        decreases names@.len() - i,
    {
        if names[i] == *n {
            assert(names_of(names@)[i as int] == n@);
            return true;
        }
        i = i + 1;
    }
    proof {
        if names_of(names@).contains(n@) {
            let k = choose|k: int| 0 <= k < names_of(names@).len() && names_of(names@)[k] == n@;
            assert(names_of(names@)[k] != n@);
        }
    }
    false
}

/// Whether a function with parameters `params`, result `ret` and statements `body` can be
/// translated: every name it reads or assigns is one of its variables and every literal is an
/// `i32`.
pub fn is_well_scoped(params: &Vec<String>, ret: &String, body: &Vec<ASTNode>) -> (b: bool)
    ensures
        b == all_scoped(asts(body@), function_vars(names_of(params@), ret@, asts(body@))),
{
    let names = variable_names(params, ret, body);
    check_all_scoped(body, &names)
}

/// An error message.
pub(crate) fn fail<T>(msg: &str) -> (r: Result<T, String>)
    ensures
        r matches Err(e) && e@ == msg@,
{
    Err(msg.to_owned())
}

/// The function a call of `name` goes to: its latest import, else the module's function of
/// that name.
pub open spec fn callee_id(imported: Seq<(String, FuncId)>, m: JITModule, name: Seq<char>) -> FuncId {
    match latest_import(imported, name) {
        Some(id) => id,
        None => module_functions(m)[name],
    }
}

/// `v` is the value the instructions of `s` compute for `e`: a literal is the constant it
/// denotes and a field is zero; an operation or comparison is the matching instruction on the
/// values of its operands; an assignment is the value of its expression; a call is the first
/// result of a call instruction whose callee refers to the function `callee_id` names, on the
/// values of its arguments in order; a data object's address is a symbol's value; a conditional
/// is the first parameter of the block that follows it, to which the block that ends the first
/// arm jumps with the value of that arm, and the block that ends the second arm with the value
/// of the second, where a branch on the condition's value ends some block, and control gets from
/// the branch's target for a non-zero condition to the end of the first arm, and from its other
/// target to the end of the second, without passing the branch again; a loop is zero, and
/// control gets from its header to a branch on the condition's value, whose target for a
/// non-zero condition leads, without passing the branch, to a block that jumps back to the
/// header. A variable's value is only known to be one of the function's.
pub open spec fn computes(s: BuilderView, imported: Seq<(String, FuncId)>, m: JITModule, e: Ast, v: Value) -> bool
    decreases e,
{
    &&& s.values().contains(v)
    &&& (!(e is Identifier) && !(e is Assign) ==> s.defs.contains_key(v))
    &&& match e {
        Ast::Literal(l) => spec_parse_i32(l) matches Some(n) && s.defs[v] == ValueDef::Const(n as int),
        Ast::Field(_) => s.defs[v] == ValueDef::Const(0),
        Ast::Identifier(_) => true,
        Ast::Assign(_, x) => computes(s, imported, m, *x, v),
        Ast::Add(a, b) => s.defs[v] matches ValueDef::Binary(op, x, y) && op == BinOp::Add && computes(
            s,
            imported,
            m,
            *a,
            x,
        ) && computes(s, imported, m, *b, y),
        Ast::Sub(a, b) => s.defs[v] matches ValueDef::Binary(op, x, y) && op == BinOp::Sub && computes(
            s,
            imported,
            m,
            *a,
            x,
        ) && computes(s, imported, m, *b, y),
        Ast::Mul(a, b) => s.defs[v] matches ValueDef::Binary(op, x, y) && op == BinOp::Mul && computes(
            s,
            imported,
            m,
            *a,
            x,
        ) && computes(s, imported, m, *b, y),
        Ast::Div(a, b) => s.defs[v] matches ValueDef::Binary(op, x, y) && op == BinOp::UDiv && computes(
            s,
            imported,
            m,
            *a,
            x,
        ) && computes(s, imported, m, *b, y),
        Ast::And(a, b) => s.defs[v] matches ValueDef::Binary(op, x, y) && op == BinOp::And && computes(
            s,
            imported,
            m,
            *a,
            x,
        ) && computes(s, imported, m, *b, y),
        Ast::Or(a, b) => s.defs[v] matches ValueDef::Binary(op, x, y) && op == BinOp::Or && computes(
            s,
            imported,
            m,
            *a,
            x,
        ) && computes(s, imported, m, *b, y),
        Ast::Eq(a, b) => s.defs[v] matches ValueDef::Compare(c, x, y) && c == IntCond::Equal && computes(
            s,
            imported,
            m,
            *a,
            x,
        ) && computes(s, imported, m, *b, y),
        Ast::Ne(a, b) => s.defs[v] matches ValueDef::Compare(c, x, y) && c == IntCond::NotEqual && computes(
            s,
            imported,
            m,
            *a,
            x,
        ) && computes(s, imported, m, *b, y),
        Ast::Lt(a, b) => s.defs[v] matches ValueDef::Compare(c, x, y) && c == IntCond::SignedLessThan && computes(
            s,
            imported,
            m,
            *a,
            x,
        ) && computes(s, imported, m, *b, y),
        Ast::Le(a, b) => s.defs[v] matches ValueDef::Compare(c, x, y) && c == IntCond::SignedLessThanOrEqual && computes(
            s,
            imported,
            m,
            *a,
            x,
        ) && computes(s, imported, m, *b, y),
        Ast::Gt(a, b) => s.defs[v] matches ValueDef::Compare(c, x, y) && c == IntCond::SignedGreaterThan && computes(
            s,
            imported,
            m,
            *a,
            x,
        ) && computes(s, imported, m, *b, y),
        Ast::Ge(a, b) => s.defs[v] matches ValueDef::Compare(c, x, y) && c == IntCond::SignedGreaterThanOrEqual && computes(
            s,
            imported,
            m,
            *a,
            x,
        ) && computes(s, imported, m, *b, y),
        Ast::Call(name, args) => s.defs[v] matches ValueDef::CallResult(inst, k) && k == 0 && s.calls.contains_key(inst)
            && s.func_refs.contains_key(s.calls[inst].0) && s.func_refs[s.calls[inst].0] == callee_id(imported, m, name)
            && (latest_import(imported, name) is None ==> module_functions(m).contains_key(name))
            && s.calls[inst].1.len() == args.len() && forall|i: int|
            0 <= i < args.len() ==> computes(s, imported, m, #[trigger] args[i], s.calls[inst].1[i]),
        Ast::GlobalDataAddr(_) => s.defs[v] is Symbol,
        Ast::IfElse(c, tb, eb) => s.defs[v] matches ValueDef::Param(merge, k) && k == 0 && exists|
            cb: Block,
            b1: Block,
            b2: Block,
        |
            #![trigger s.branches[cb], s.jumps[b1], s.jumps[b2]]
            s.branches.contains_key(cb) && computes(s, imported, m, *c, s.branches[cb].0) && reaches_avoiding(
                s,
                s.branches[cb].1,
                b1,
                cb,
            ) && reaches_avoiding(s, s.branches[cb].2, b2, cb) && s.jumps.contains_key(b1)
                && s.jumps[b1].0 == merge && s.jumps[b1].1.len() > 0 && body_computes(
                s,
                imported,
                m,
                tb,
                s.jumps[b1].1[0],
            ) && s.jumps.contains_key(b2) && s.jumps[b2].0 == merge && s.jumps[b2].1.len() > 0 && body_computes(
                s,
                imported,
                m,
                eb,
                s.jumps[b2].1[0],
            ),
        Ast::WhileLoop(c, _) => s.defs[v] == ValueDef::Const(0) && exists|h: Block, cb: Block, bb: Block|
            #![trigger reaches(s, h, cb), s.jumps[bb]]
            reaches(s, h, cb) && s.branches.contains_key(cb) && computes(s, imported, m, *c, s.branches[cb].0)
                && reaches_avoiding(s, s.branches[cb].1, bb, cb) && s.jumps.contains_key(bb) && s.jumps[bb].0 == h,
    }
}

/// The value of a sequence of statements: that of the last, or zero when there is none.
pub open spec fn body_computes(s: BuilderView, imported: Seq<(String, FuncId)>, m: JITModule, ss: Seq<Ast>, v: Value) -> bool
    decreases ss,
{
    if ss.len() == 0 {
        s.values().contains(v) && s.defs.contains_key(v) && s.defs[v] == ValueDef::Const(0)
    } else {
        computes(s, imported, m, ss[ss.len() - 1], v)
    }
}

/// What was computed stays computed as the function and the module grow.
#[verifier::spinoff_prover]
pub proof fn lemma_computes_grows(
    s: BuilderView,
    t: BuilderView,
    imported: Seq<(String, FuncId)>,
    m: JITModule,
    m2: JITModule,
    e: Ast,
    v: Value,
)
    requires
        computes(s, imported, m, e, v),
        grows(s, t),
        module_grows(m, m2),
    ensures
        computes(t, imported, m2, e, v),
    decreases e,
{
    if s.defs.contains_key(v) {
        assert(t.defs.dom().contains(v));
        assert(t.defs[v] == s.defs[v]);
    }
    match e {
        Ast::Assign(_, x) => {
            lemma_computes_grows(s, t, imported, m, m2, *x, v);
        },
        Ast::Add(a, b) => {
            let (x, y) = (s.defs[v]->Binary_1, s.defs[v]->Binary_2);
            lemma_computes_grows(s, t, imported, m, m2, *a, x);
            lemma_computes_grows(s, t, imported, m, m2, *b, y);
        },
        Ast::Sub(a, b) => {
            let (x, y) = (s.defs[v]->Binary_1, s.defs[v]->Binary_2);
            lemma_computes_grows(s, t, imported, m, m2, *a, x);
            lemma_computes_grows(s, t, imported, m, m2, *b, y);
        },
        Ast::Mul(a, b) => {
            let (x, y) = (s.defs[v]->Binary_1, s.defs[v]->Binary_2);
            lemma_computes_grows(s, t, imported, m, m2, *a, x);
            lemma_computes_grows(s, t, imported, m, m2, *b, y);
        },
        Ast::Div(a, b) => {
            let (x, y) = (s.defs[v]->Binary_1, s.defs[v]->Binary_2);
            lemma_computes_grows(s, t, imported, m, m2, *a, x);
            lemma_computes_grows(s, t, imported, m, m2, *b, y);
        },
        Ast::And(a, b) => {
            let (x, y) = (s.defs[v]->Binary_1, s.defs[v]->Binary_2);
            lemma_computes_grows(s, t, imported, m, m2, *a, x);
            lemma_computes_grows(s, t, imported, m, m2, *b, y);
        },
        Ast::Or(a, b) => {
            let (x, y) = (s.defs[v]->Binary_1, s.defs[v]->Binary_2);
            lemma_computes_grows(s, t, imported, m, m2, *a, x);
            lemma_computes_grows(s, t, imported, m, m2, *b, y);
        },
        Ast::Eq(a, b) => {
            let (x, y) = (s.defs[v]->Compare_1, s.defs[v]->Compare_2);
            lemma_computes_grows(s, t, imported, m, m2, *a, x);
            lemma_computes_grows(s, t, imported, m, m2, *b, y);
        },
        Ast::Ne(a, b) => {
            let (x, y) = (s.defs[v]->Compare_1, s.defs[v]->Compare_2);
            lemma_computes_grows(s, t, imported, m, m2, *a, x);
            lemma_computes_grows(s, t, imported, m, m2, *b, y);
        },
        Ast::Lt(a, b) => {
            let (x, y) = (s.defs[v]->Compare_1, s.defs[v]->Compare_2);
            lemma_computes_grows(s, t, imported, m, m2, *a, x);
            lemma_computes_grows(s, t, imported, m, m2, *b, y);
        },
        Ast::Le(a, b) => {
            let (x, y) = (s.defs[v]->Compare_1, s.defs[v]->Compare_2);
            lemma_computes_grows(s, t, imported, m, m2, *a, x);
            lemma_computes_grows(s, t, imported, m, m2, *b, y);
        },
        Ast::Gt(a, b) => {
            let (x, y) = (s.defs[v]->Compare_1, s.defs[v]->Compare_2);
            lemma_computes_grows(s, t, imported, m, m2, *a, x);
            lemma_computes_grows(s, t, imported, m, m2, *b, y);
        },
        Ast::Ge(a, b) => {
            let (x, y) = (s.defs[v]->Compare_1, s.defs[v]->Compare_2);
            lemma_computes_grows(s, t, imported, m, m2, *a, x);
            lemma_computes_grows(s, t, imported, m, m2, *b, y);
        },
        Ast::Call(name, args) => {
            let inst = s.defs[v]->CallResult_0;
            assert(s.calls.contains_key(inst));
            assert(t.calls.dom().contains(inst));
            assert(t.calls[inst] == s.calls[inst]);
            assert(t.defs.dom().contains(v));
            assert(t.defs[v] == s.defs[v]);
            let fr = s.calls[inst].0;
            assert(s.func_refs.contains_key(fr));
            assert(t.func_refs.dom().contains(fr));
            assert(t.func_refs[fr] == s.func_refs[fr]);
            assert(latest_import(imported, name) is None ==> module_functions(m2).dom().contains(name));
            assert(latest_import(imported, name) is None ==> module_functions(m2)[name] == module_functions(m)[name]);
            assert forall|i: int| 0 <= i < args.len() implies computes(
                t,
                imported,
                m2,
                #[trigger] args[i],
                t.calls[inst].1[i],
            ) by {
                assert(computes(s, imported, m, args[i], s.calls[inst].1[i]));
                lemma_computes_grows(s, t, imported, m, m2, args[i], s.calls[inst].1[i]);
            }
        },
        Ast::IfElse(c, tb, eb) => {
            let merge = s.defs[v]->Param_0;
            let (cb, b1, b2) = choose|cb: Block, b1: Block, b2: Block|
                #![trigger s.branches[cb], s.jumps[b1], s.jumps[b2]]
                s.branches.contains_key(cb) && computes(s, imported, m, *c, s.branches[cb].0) && reaches_avoiding(
                    s,
                    s.branches[cb].1,
                    b1,
                    cb,
                ) && reaches_avoiding(s, s.branches[cb].2, b2, cb) && s.jumps.contains_key(b1)
                    && s.jumps[b1].0 == merge && s.jumps[b1].1.len() > 0 && body_computes(
                    s,
                    imported,
                    m,
                    tb,
                    s.jumps[b1].1[0],
                ) && s.jumps.contains_key(b2) && s.jumps[b2].0 == merge && s.jumps[b2].1.len() > 0 && body_computes(
                    s,
                    imported,
                    m,
                    eb,
                    s.jumps[b2].1[0],
                );
            assert(t.branches.dom().contains(cb));
            assert(t.branches[cb] == s.branches[cb]);
            lemma_computes_grows(s, t, imported, m, m2, *c, s.branches[cb].0);
            lemma_reaches_avoiding_grows(s, t, s.branches[cb].1, b1, cb);
            lemma_reaches_avoiding_grows(s, t, s.branches[cb].2, b2, cb);
            assert(t.jumps.contains_key(b1) && t.jumps.contains_key(b2));
            assert(t.jumps[b1].1[0] == s.jumps[b1].1[0]);
            assert(t.jumps[b2].1[0] == s.jumps[b2].1[0]);
            lemma_body_computes_grows(s, t, imported, m, m2, tb, s.jumps[b1].1[0]);
            lemma_body_computes_grows(s, t, imported, m, m2, eb, s.jumps[b2].1[0]);
            assert(t.branches[cb] == s.branches[cb] && t.jumps[b1].0 == merge && t.jumps[b2].0 == merge);
        },
        Ast::WhileLoop(c, _) => {
            let (h, cb, bb) = choose|h: Block, cb: Block, bb: Block|
                #![trigger reaches(s, h, cb), s.jumps[bb]]
                reaches(s, h, cb) && s.branches.contains_key(cb) && computes(s, imported, m, *c, s.branches[cb].0)
                    && reaches_avoiding(s, s.branches[cb].1, bb, cb) && s.jumps.contains_key(bb) && s.jumps[bb].0 == h;
            assert(t.branches.dom().contains(cb));
            assert(t.branches[cb] == s.branches[cb]);
            lemma_reaches_grows(s, t, h, cb);
            lemma_computes_grows(s, t, imported, m, m2, *c, s.branches[cb].0);
            lemma_reaches_avoiding_grows(s, t, s.branches[cb].1, bb, cb);
            assert(t.jumps.contains_key(bb) && t.jumps[bb].0 == h);
        },
        _ => {},
    }
}

/// What a sequence of statements computed stays computed as the function and the module grow.
pub proof fn lemma_body_computes_grows(
    s: BuilderView,
    t: BuilderView,
    imported: Seq<(String, FuncId)>,
    m: JITModule,
    m2: JITModule,
    ss: Seq<Ast>,
    v: Value,
)
    requires
        body_computes(s, imported, m, ss, v),
        grows(s, t),
        module_grows(m, m2),
    ensures
        body_computes(t, imported, m2, ss, v),
    decreases ss,
{
    if ss.len() == 0 {
        assert(t.defs.dom().contains(v));
    } else {
        lemma_computes_grows(s, t, imported, m, m2, ss[ss.len() - 1], v);
    }
}

/// Block `a` ends with a jump or a branch to block `b`.
pub open spec fn edge(s: BuilderView, a: Block, b: Block) -> bool {
    ||| s.jumps.contains_key(a) && s.jumps[a].0 == b
    ||| s.branches.contains_key(a) && (s.branches[a].1 == b || s.branches[a].2 == b)
}

/// Block `i` of `p` ends with a jump or a branch to block `i + 1`.
pub open spec fn edge_at(s: BuilderView, p: Seq<Block>, i: int) -> bool {
    edge(s, p[i], p[i + 1])
}

/// `p` is a way through the function's control flow, block by block.
pub open spec fn is_path(s: BuilderView, p: Seq<Block>) -> bool {
    &&& p.len() > 0
    &&& forall|i: int| 0 <= i < p.len() - 1 ==> #[trigger] edge_at(s, p, i)
}

/// Control can get from block `a` to block `b` without passing through block `x`.
pub open spec fn reaches_avoiding(s: BuilderView, a: Block, b: Block, x: Block) -> bool {
    exists|p: Seq<Block>|
        #[trigger] is_path(s, p) && p[0] == a && p.last() == b && forall|i: int| 0 <= i < p.len() ==> #[trigger] p[i] != x
}

/// Control can get from block `a` to block `b`.
pub open spec fn reaches(s: BuilderView, a: Block, b: Block) -> bool {
    exists|p: Seq<Block>| #[trigger] is_path(s, p) && p[0] == a && p.last() == b
}

/// Control gets from the block `o` stands in to the block `f` stands in through blocks created
/// since `o`.
pub open spec fn reached(o: BuilderView, f: BuilderView) -> bool {
    exists|p: Seq<Block>|
        #[trigger] is_path(f, p) && p[0] == o.position->0 && p.last() == f.position->0 && forall|i: int|
            1 <= i < p.len() ==> !o.blocks.contains_key(#[trigger] p[i])
}

/// Ways through the control flow stay as the function grows.
pub proof fn lemma_path_grows(s: BuilderView, t: BuilderView, p: Seq<Block>)
    requires
        is_path(s, p),
        grows(s, t),
    ensures
        is_path(t, p),
{
    assert forall|i: int| 0 <= i < p.len() - 1 implies #[trigger] edge_at(t, p, i) by {
        assert(edge_at(s, p, i));
        if s.jumps.contains_key(p[i]) && s.jumps[p[i]].0 == p[i + 1] {
            assert(t.jumps.contains_key(p[i]));
        } else {
            assert(t.branches.dom().contains(p[i]));
            assert(t.branches[p[i]] == s.branches[p[i]]);
        }
    }
}

/// Two ways, the second starting where the first ends, make one.
pub proof fn lemma_path_concat(s: BuilderView, p1: Seq<Block>, p2: Seq<Block>)
    requires
        is_path(s, p1),
        is_path(s, p2),
        p1.last() == p2[0],
    ensures
        is_path(s, p1 + p2.skip(1)),
        (p1 + p2.skip(1))[0] == p1[0],
        (p1 + p2.skip(1)).last() == p2.last(),
        forall|i: int| 0 <= i < (p1 + p2.skip(1)).len() ==> #[trigger] (p1 + p2.skip(1))[i] == if i < p1.len() {
            p1[i]
        } else {
            p2[i - p1.len() + 1]
        },
{
    let p = p1 + p2.skip(1);
    assert forall|i: int| 0 <= i < p.len() - 1 implies #[trigger] edge_at(s, p, i) by {
        if i < p1.len() - 1 {
            assert(edge_at(s, p1, i));
        } else if i == p1.len() - 1 {
            assert(edge_at(s, p2, 0));
        } else {
            let k = i - p1.len() + 1;
            assert(edge_at(s, p2, k));
        }
    }
}

/// What control reaches stays reached as the function grows.
pub proof fn lemma_reaches_avoiding_grows(s: BuilderView, t: BuilderView, a: Block, b: Block, x: Block)
    requires
        reaches_avoiding(s, a, b, x),
        grows(s, t),
    ensures
        reaches_avoiding(t, a, b, x),
{
    let p = choose|p: Seq<Block>|
        #[trigger] is_path(s, p) && p[0] == a && p.last() == b && forall|i: int| 0 <= i < p.len() ==> #[trigger] p[i] != x;
    lemma_path_grows(s, t, p);
}

/// What control reaches stays reached as the function grows.
pub proof fn lemma_reaches_grows(s: BuilderView, t: BuilderView, a: Block, b: Block)
    requires
        reaches(s, a, b),
        grows(s, t),
    ensures
        reaches(t, a, b),
{
    let p = choose|p: Seq<Block>| #[trigger] is_path(s, p) && p[0] == a && p.last() == b;
    lemma_path_grows(s, t, p);
}

/// Getting through new blocks avoids every block that was there but the first.
pub proof fn lemma_reached_avoids(o: BuilderView, f: BuilderView, x: Block)
    requires
        reached(o, f),
        o.blocks.contains_key(x),
        o.position->0 != x,
    ensures
        reaches_avoiding(f, o.position->0, f.position->0, x),
        reaches(f, o.position->0, f.position->0),
{
    let p = choose|p: Seq<Block>|
        #[trigger] is_path(f, p) && p[0] == o.position->0 && p.last() == f.position->0 && forall|i: int|
            1 <= i < p.len() ==> !o.blocks.contains_key(#[trigger] p[i]);
    assert forall|i: int| 0 <= i < p.len() implies #[trigger] p[i] != x by {
        if i >= 1 {
            assert(!o.blocks.contains_key(p[i]));
        }
    }
}

/// Staying in one block reaches it.
pub proof fn lemma_reached_in_place(o: BuilderView, f: BuilderView)
    requires
        f.position == o.position,
    ensures
        reached(o, f),
{
    let p = seq![o.position->0];
    assert(is_path(f, p));
}

/// Reaching through new blocks twice in a row reaches through new blocks.
pub proof fn lemma_reached_trans(a: BuilderView, b: BuilderView, c: BuilderView)
    requires
        reached(a, b),
        reached(b, c),
        grows(b, c),
        a.blocks.dom().subset_of(b.blocks.dom()),
    ensures
        reached(a, c),
{
    let p1 = choose|p: Seq<Block>|
        #[trigger] is_path(b, p) && p[0] == a.position->0 && p.last() == b.position->0 && forall|i: int|
            1 <= i < p.len() ==> !a.blocks.contains_key(#[trigger] p[i]);
    let p2 = choose|p: Seq<Block>|
        #[trigger] is_path(c, p) && p[0] == b.position->0 && p.last() == c.position->0 && forall|i: int|
            1 <= i < p.len() ==> !b.blocks.contains_key(#[trigger] p[i]);
    lemma_path_grows(b, c, p1);
    lemma_path_concat(c, p1, p2);
    let p = p1 + p2.skip(1);
    assert forall|i: int| 1 <= i < p.len() implies !a.blocks.contains_key(#[trigger] p[i]) by {
        if i >= p1.len() {
            assert(!b.blocks.contains_key(p2[i - p1.len() + 1]));
        } else {
            assert(p[i] == p1[i]);
        }
    }
    assert(is_path(c, p));
}

/// The blocks of `o` are still there in `f`, each with its status, or with instructions where
/// it had none.
pub open spec fn keeps(o: BuilderView, f: BuilderView, except: Set<Block>) -> bool {
    &&& o.blocks.dom().subset_of(f.blocks.dom())
    &&& forall|bl: Block| #[trigger] o.blocks.contains_key(bl) && !except.contains(bl) ==> f.blocks[bl]
        == o.blocks[bl] || (o.blocks[bl] == BlockStatus::Pristine && f.blocks[bl] == BlockStatus::Partial)
}

/// `f` is the builder after the instructions of a subtree were emitted, starting from `o`: it stands in a block that takes
/// instructions, either the block of `o` or a new one, in which case the block of `o` is filled;
/// the other blocks of `o` keep their status and whether they are sealed; the blocks created
/// meanwhile are sealed and filled, but for the one it stands in; control gets from the block of
/// `o` to the block of `f` through blocks created meanwhile; values, calls, jumps, branches and
/// function references are only added.
pub open spec fn builds_on(o: BuilderView, f: BuilderView) -> bool {
    let c = o.position->0;
    let d = f.position->0;
    &&& insertable(f)
    &&& keeps(o, f, set![c])
    &&& o.blocks.contains_key(c)
    &&& (d != c ==> f.blocks[c] == BlockStatus::Filled && !o.blocks.contains_key(d))
    &&& forall|bl: Block| #[trigger] f.blocks.contains_key(bl) && !o.blocks.contains_key(bl)
        ==> f.sealed.contains(bl) && (f.blocks[bl] == BlockStatus::Filled || bl == d)
    &&& forall|bl: Block| #[trigger] o.blocks.contains_key(bl) ==> (f.sealed.contains(bl)
        <==> o.sealed.contains(bl))
    &&& grows(o, f)
    &&& reached(o, f)
}

pub proof fn lemma_builds_on_refl(o: BuilderView)
    requires
        insertable(o),
    ensures
        builds_on(o, o),
{
    lemma_reached_in_place(o, o);
}

pub proof fn lemma_builds_on_trans(a: BuilderView, b: BuilderView, c: BuilderView)
    requires
        insertable(a),
        builds_on(a, b),
        builds_on(b, c),
    ensures
        builds_on(a, c),
{
    lemma_reached_trans(a, b, c);
    let ca = a.position->0;
    let cb = b.position->0;
    let cc = c.position->0;
    assert forall|bl: Block| #[trigger] a.blocks.contains_key(bl) && !set![ca].contains(bl) implies c.blocks[bl]
        == a.blocks[bl] || (a.blocks[bl] == BlockStatus::Pristine && c.blocks[bl] == BlockStatus::Partial) by {
        assert(bl != cb);
    }
    if cc != ca {
        if cb == ca {
        } else {
            assert(b.blocks[ca] == BlockStatus::Filled);
            assert(ca != cb);
        }
    }
    assert forall|bl: Block| #[trigger] c.blocks.contains_key(bl) && !a.blocks.contains_key(bl) implies c.sealed.contains(
        bl,
    ) && (c.blocks[bl] == BlockStatus::Filled || bl == cc) by {
        if b.blocks.contains_key(bl) {
            if bl != cb {
                assert(b.blocks[bl] == BlockStatus::Filled);
            }
        }
    }
}

/// One instruction that is not a terminator, added in the block the builder stands in.
pub proof fn lemma_after_inst_builds_on(o: BuilderView, f: BuilderView)
    requires
        insertable(o),
        after_inst(o, f, false, Set::empty()),
    ensures
        builds_on(o, f),
{
    lemma_reached_in_place(o, f);
}

/// The builder's variable bookkeeping, in the block the builder stands in.
pub proof fn lemma_after_ssa_builds_on(o: BuilderView, f: BuilderView)
    requires
        insertable(o),
        after_ssa(o, f),
        f.sealed == o.sealed,
    ensures
        builds_on(o, f),
{
    lemma_reached_in_place(o, f);
}

/// A step that stays in its block and only adds to the variable table keeps every variable.
pub proof fn lemma_keeps_all(o: BuilderView, f: BuilderView)
    requires
        f.position == o.position,
        o.vars.submap_of(f.vars),
    ensures
        forall|x: Variable| #[trigger] keeps_var(o, f, x),
{
    assert forall|x: Variable| #[trigger] keeps_var(o, f, x) by {
        if o.vars.contains_key((x, o.position->0)) {
            assert(o.vars.dom().contains((x, o.position->0)));
        }
    }
}

/// A node without subtrees that stays in its block and only adds to the variable table.
pub proof fn lemma_frame_leaf(o: BuilderView, f: BuilderView, vars: Seq<(Seq<char>, Variable)>, e: Ast)
    requires
        f.position == o.position,
        o.vars.submap_of(f.vars),
    ensures
        frame_straight(o, f, vars, e),
{
    lemma_keeps_all(o, f);
}

/// Two subtrees in turn, then a step that changes neither the block nor the variable table.
pub proof fn lemma_frame_pair(
    s0: BuilderView,
    s1: BuilderView,
    s2: BuilderView,
    s3: BuilderView,
    vars: Seq<(Seq<char>, Variable)>,
    e: Ast,
    a: Ast,
    b: Ast,
)
    requires
        frame_straight(s0, s1, vars, a),
        frame_straight(s1, s2, vars, b),
        s3.position == s2.position,
        s3.vars == s2.vars,
        straight(e) ==> straight(a) && straight(b),
        forall|n: Seq<char>| #[trigger] assigns(e, n) == (assigns(a, n) || assigns(b, n)),
    ensures
        frame_straight(s0, s3, vars, e),
{
    if straight(e) {
        assert forall|k: int| 0 <= k < vars.len() && !assigns(e, vars[k].0) implies #[trigger] keeps_var(s0, s3, vars[k].1) by {
            assert(assigns(e, vars[k].0) == (assigns(a, vars[k].0) || assigns(b, vars[k].0)));
            assert(keeps_var(s0, s1, vars[k].1));
            assert(keeps_var(s1, s2, vars[k].1));
        }
    }
}

/// An assignment defines only the variable it names: the others keep their values.
pub proof fn lemma_frame_assign(
    s0: BuilderView,
    s1: BuilderView,
    s2: BuilderView,
    vars: Seq<(Seq<char>, Variable)>,
    name: Seq<char>,
    expr: Ast,
    var: Variable,
    val: Value,
)
    requires
        frame_straight(s0, s1, vars, expr),
        distinct_vars(vars),
        exists|k: int| 0 <= k < vars.len() && #[trigger] vars[k] == (name, var),
        s2.position == s1.position,
        s2.vars == s1.vars.insert((var, s1.position->0), val),
    ensures
        frame_straight(s0, s2, vars, Ast::Assign(name, Box::new(expr))),
{
    let e = Ast::Assign(name, Box::new(expr));
    if straight(e) {
        let k0 = choose|k: int| 0 <= k < vars.len() && #[trigger] vars[k] == (name, var);
        assert forall|k: int| 0 <= k < vars.len() && !assigns(e, vars[k].0) implies #[trigger] keeps_var(s0, s2, vars[k].1) by {
            assert(vars[k].0 != name);
            assert(k != k0);
            assert(vars[k].1 != vars[k0].1);
            assert(keeps_var(s0, s1, vars[k].1));
        }
    }
}

/// A node of `args` is straight when all are, and what it assigns some node of `args` assigns.
pub proof fn lemma_call_argument(args: Seq<Ast>, i: int)
    requires
        0 <= i < args.len(),
    ensures
        all_straight(args) ==> straight(args[i]),
        forall|x: Seq<char>| assigns(args[i], x) ==> #[trigger] any_assigns(args, x),
    decreases args.len(),
{
    if i > 0 {
        lemma_call_argument(args.drop_first(), i - 1);
        assert(args.drop_first()[i - 1] == args[i]);
        assert forall|x: Seq<char>| assigns(args[i], x) implies #[trigger] any_assigns(args, x) by {
            assert(any_assigns(args.drop_first(), x));
        }
    }
}

/// Two subtrees and an instruction on their values.
pub proof fn lemma_operation_builds_on(s0: BuilderView, s1: BuilderView, s2: BuilderView, s3: BuilderView)
    requires
        insertable(s0),
        builds_on(s0, s1),
        builds_on(s1, s2),
        after_inst(s2, s3, false, Set::empty()),
    ensures
        builds_on(s0, s3),
{
    lemma_builds_on_trans(s0, s1, s2);
    lemma_after_inst_builds_on(s2, s3);
    lemma_builds_on_trans(s0, s2, s3);
}

/// The status of `bl` in `f` is its status in `o`, or `o` had no instruction in it and `f`
/// has some.
pub open spec fn kept(o: BuilderView, f: BuilderView, bl: Block) -> bool {
    f.blocks.contains_key(bl) && (f.blocks[bl] == o.blocks[bl] || (o.blocks[bl] == BlockStatus::Pristine
        && f.blocks[bl] == BlockStatus::Partial))
}

pub proof fn lemma_kept_trans(a: BuilderView, b: BuilderView, c: BuilderView, bl: Block)
    requires
        kept(a, b, bl),
        kept(b, c, bl),
    ensures
        kept(a, c, bl),
{
}

/// Control gets from `a` to `d` through `b` and `c`: from `a` by a jump or branch to `b`, from
/// `b` to `c` through blocks created after `s`, and from `c` by a jump or branch to `d`; none of
/// these blocks but `a` was in `o`.
pub proof fn lemma_reached_through(o: BuilderView, s: BuilderView, t: BuilderView, f: BuilderView, a: Block, b: Block, c: Block, d: Block)
    requires
        o.position == Some(a),
        f.position == Some(d),
        edge(f, a, b),
        edge(f, c, d),
        reached(s, t),
        s.position == Some(b),
        t.position == Some(c),
        grows(t, f),
        o.blocks.dom().subset_of(s.blocks.dom()),
        !o.blocks.contains_key(b),
        !o.blocks.contains_key(d),
    ensures
        reached(o, f),
{
    let pm = choose|p: Seq<Block>|
        #[trigger] is_path(t, p) && p[0] == s.position->0 && p.last() == t.position->0 && forall|i: int|
            1 <= i < p.len() ==> !s.blocks.contains_key(#[trigger] p[i]);
    lemma_path_grows(t, f, pm);
    let pa = seq![a, b];
    let pd = seq![c, d];
    assert(edge_at(f, pa, 0));
    assert(is_path(f, pa));
    assert(edge_at(f, pd, 0));
    assert(is_path(f, pd));
    lemma_path_concat(f, pa, pm);
    let p1 = pa + pm.skip(1);
    lemma_path_concat(f, p1, pd);
    let p = p1 + pd.skip(1);
    assert forall|i: int| 1 <= i < p.len() implies !o.blocks.contains_key(#[trigger] p[i]) by {
        if i < p1.len() {
            if i >= pa.len() {
                assert(p1[i] == pm[i - pa.len() + 1]);
                assert(!s.blocks.contains_key(pm[i - pa.len() + 1]));
            }
        } else {
            assert(p[i] == pd[i - p1.len() + 1]);
        }
    }
    assert(is_path(f, p));
}

/// The states a conditional goes through: after its condition (`s1`), after creating its three
/// blocks and the parameter of the last (`t4`), after the branch (`t5`), in the first arm
/// (`s2`), after it (`s3`, `t7`), in the second arm (`s4`), after it (`s5`, `t9`), and in the
/// block that follows (`s6`).
#[verifier::spinoff_prover]
pub proof fn lemma_if_else_builds_on(
    s0: BuilderView,
    s1: BuilderView,
    t4: BuilderView,
    t5: BuilderView,
    s2: BuilderView,
    s3: BuilderView,
    t7: BuilderView,
    s4: BuilderView,
    s5: BuilderView,
    t9: BuilderView,
    s6: BuilderView,
    then_block: Block,
    else_block: Block,
    merge_block: Block,
)
    requires
        insertable(s0),
        builds_on(s0, s1),
        t4.position == s1.position,
        t4.blocks == s1.blocks.insert(then_block, BlockStatus::Pristine).insert(else_block, BlockStatus::Pristine).insert(
            merge_block,
            BlockStatus::Pristine,
        ),
        t4.sealed == s1.sealed,
        grows(s1, t4),
        t4.func_refs == s1.func_refs,
        !s1.blocks.contains_key(then_block),
        !s1.blocks.contains_key(else_block),
        !s1.blocks.contains_key(merge_block),
        then_block != else_block,
        then_block != merge_block,
        else_block != merge_block,
        !s1.sealed.contains(then_block),
        !s1.sealed.contains(else_block),
        !s1.sealed.contains(merge_block),
        after_inst(t4, t5, true, set![then_block, else_block]),
        after_ssa(BuilderView { position: Some(then_block), ..t5 }, s2),
        s2.sealed == t5.sealed.insert(then_block),
        builds_on(s2, s3),
        after_inst(s3, t7, true, set![merge_block]),
        after_ssa(BuilderView { position: Some(else_block), ..t7 }, s4),
        s4.sealed == t7.sealed.insert(else_block),
        builds_on(s4, s5),
        after_inst(s5, t9, true, set![merge_block]),
        after_ssa(BuilderView { position: Some(merge_block), ..t9 }, s6),
        s6.sealed == t9.sealed.insert(merge_block),
        t5.branches.contains_key(s1.position->0),
        t5.branches[s1.position->0].1 == then_block,
        t7.jumps.contains_key(s3.position->0),
        t7.jumps[s3.position->0].0 == merge_block,
    ensures
        builds_on(s0, s6),
{
    let c = s1.position->0;
    let t6 = BuilderView { position: Some(then_block), ..t5 };
    let t8 = BuilderView { position: Some(else_block), ..t7 };
    let t10 = BuilderView { position: Some(merge_block), ..t9 };
    let d3 = s3.position->0;
    let d5 = s5.position->0;
    // Blocks other than the current ones keep their status at each step.
    assert forall|bl: Block| #[trigger] s1.blocks.contains_key(bl) && bl != c implies kept(s1, s6, bl) by {
        assert(kept(s1, t5, bl));
        assert(kept(t6, s2, bl));
        assert(bl != then_block);
        assert(kept(s2, s3, bl));
        assert(bl != d3);
        assert(kept(s3, t7, bl));
        assert(kept(t8, s4, bl));
        assert(bl != else_block);
        assert(kept(s4, s5, bl));
        assert(bl != d5);
        assert(kept(s5, t9, bl));
        assert(kept(t10, s6, bl));
        lemma_kept_trans(s1, t5, s2, bl);
        lemma_kept_trans(s1, s2, s3, bl);
        lemma_kept_trans(s1, s3, t7, bl);
        lemma_kept_trans(s1, t7, s4, bl);
        lemma_kept_trans(s1, s4, s5, bl);
        lemma_kept_trans(s1, s5, t9, bl);
        lemma_kept_trans(s1, t9, s6, bl);
    }
    // The block of the condition is filled by the branch and stays so.
    assert(t5.blocks[c] == BlockStatus::Filled);
    assert(t5.blocks.contains_key(c));
    assert(t6.blocks.contains_key(c));
    assert(kept(t6, s2, c));
    assert(c != then_block && c != d3);
    assert(kept(s2, s3, c));
    assert(s3.blocks.contains_key(c));
    assert(t7.blocks.contains_key(c));
    assert(t8.blocks.contains_key(c));
    assert(kept(t8, s4, c));
    assert(c != else_block && c != d5);
    assert(kept(s4, s5, c));
    assert(s5.blocks.contains_key(c));
    assert(t9.blocks.contains_key(c));
    assert(t10.blocks.contains_key(c));
    assert(kept(t10, s6, c));
    assert(s6.blocks[c] == BlockStatus::Filled);
    // The first arm ends filled.
    assert(s3.blocks.contains_key(then_block));
    assert(t7.blocks[then_block] == BlockStatus::Filled);
    assert(t7.blocks.contains_key(then_block));
    assert(t8.blocks.contains_key(then_block));
    assert(kept(t8, s4, then_block));
    assert(then_block != d5);
    assert(kept(s4, s5, then_block));
    assert(s5.blocks.contains_key(then_block));
    assert(t9.blocks.contains_key(then_block));
    assert(t10.blocks.contains_key(then_block));
    assert(kept(t10, s6, then_block));
    // The second arm ends filled.
    assert(t9.blocks[else_block] == BlockStatus::Filled);
    assert(t9.blocks.contains_key(else_block));
    assert(t10.blocks.contains_key(else_block));
    assert(kept(t10, s6, else_block));
    // The block that follows can take instructions.
    assert(t5.blocks[merge_block] == BlockStatus::Pristine);
    assert(kept(t6, s2, merge_block));
    assert(kept(s2, s3, merge_block));
    assert(kept(s3, t7, merge_block));
    assert(kept(t8, s4, merge_block));
    assert(kept(s4, s5, merge_block));
    assert(kept(s5, t9, merge_block));
    assert(kept(t10, s6, merge_block));
    // Every block created is sealed and filled, but for the one the builder stands in.
    assert forall|bl: Block| #[trigger] s6.blocks.contains_key(bl) && !s1.blocks.contains_key(bl) implies s6.sealed.contains(
        bl,
    ) && (s6.blocks[bl] == BlockStatus::Filled || bl == merge_block) by {
        if bl == then_block || bl == else_block || bl == merge_block {
        } else if s3.blocks.contains_key(bl) && !s2.blocks.contains_key(bl) {
            if bl != d3 {
                assert(s3.blocks[bl] == BlockStatus::Filled);
            }
            assert(t7.blocks[bl] == BlockStatus::Filled);
            assert(kept(t8, s4, bl));
            assert(bl != d5);
            assert(kept(s4, s5, bl));
            assert(kept(t10, s6, bl));
        } else {
            assert(s5.blocks.contains_key(bl) && !s4.blocks.contains_key(bl));
            if bl != d5 {
                assert(s5.blocks[bl] == BlockStatus::Filled);
            }
            assert(t9.blocks[bl] == BlockStatus::Filled);
            assert(kept(t10, s6, bl));
        }
    }
    assert forall|bl: Block| #[trigger] s1.blocks.contains_key(bl) implies (s6.sealed.contains(bl)
        <==> s1.sealed.contains(bl)) by {
        assert(t5.blocks.contains_key(bl));
        assert(s2.blocks.contains_key(bl));
        assert(s3.blocks.contains_key(bl));
        assert(t7.blocks.contains_key(bl));
        assert(s4.blocks.contains_key(bl));
        assert(s5.blocks.contains_key(bl));
    }
    assert(grows(s1, s6)) by {
        assert(grows(s1, s2));
        assert(grows(s2, t7));
        assert(grows(t7, s5));
    }
    assert(keeps(s1, s6, set![c]));
    assert(grows(t5, s6) && grows(t7, s6) && grows(s3, s6));
    assert(s6.branches.dom().contains(c));
    assert(s6.branches[c] == t5.branches[c]);
    assert(edge(s6, c, then_block));
    assert(s6.jumps.contains_key(d3));
    assert(edge(s6, d3, merge_block));
    assert(s1.blocks.dom().subset_of(s2.blocks.dom()));
    lemma_reached_through(s1, s2, s3, s6, c, then_block, d3, merge_block);
    assert(builds_on(s1, s6));
    lemma_builds_on_trans(s0, s1, s6);
}

/// The states a loop goes through: in the block of its condition (`s1`), after the condition
/// (`s2`), in the body (`s3`), after it (`s4`), past the loop with the blocks sealed (`s5`),
/// and after its value (`s6`).
#[verifier::spinoff_prover]
pub proof fn lemma_while_builds_on(
    s0: BuilderView,
    t3: BuilderView,
    t4: BuilderView,
    s1: BuilderView,
    s2: BuilderView,
    t6: BuilderView,
    s3: BuilderView,
    s4: BuilderView,
    t8: BuilderView,
    t9: BuilderView,
    s5: BuilderView,
    s6: BuilderView,
    header_block: Block,
    body_block: Block,
    exit_block: Block,
)
    requires
        insertable(s0),
        t3.position == s0.position,
        t3.blocks == s0.blocks.insert(header_block, BlockStatus::Pristine).insert(body_block, BlockStatus::Pristine).insert(
            exit_block,
            BlockStatus::Pristine,
        ),
        t3.sealed == s0.sealed,
        grows(s0, t3),
        t3.func_refs == s0.func_refs,
        !s0.blocks.contains_key(header_block),
        !s0.blocks.contains_key(body_block),
        !s0.blocks.contains_key(exit_block),
        header_block != body_block,
        header_block != exit_block,
        body_block != exit_block,
        !s0.sealed.contains(header_block),
        !s0.sealed.contains(body_block),
        !s0.sealed.contains(exit_block),
        after_inst(t3, t4, true, set![header_block]),
        s1 == (BuilderView { position: Some(header_block), ..t4 }),
        builds_on(s1, s2),
        after_inst(s2, t6, true, set![body_block, exit_block]),
        after_ssa(BuilderView { position: Some(body_block), ..t6 }, s3),
        s3.sealed == t6.sealed.insert(body_block),
        builds_on(s3, s4),
        after_inst(s4, t8, true, set![header_block]),
        after_ssa(BuilderView { position: Some(exit_block), ..t8 }, t9),
        t9.sealed == t8.sealed.insert(header_block),
        after_ssa(t9, s5),
        s5.sealed == t9.sealed.insert(exit_block),
        after_inst(s5, s6, false, Set::empty()),
        t4.jumps.contains_key(s0.position->0),
        t4.jumps[s0.position->0].0 == header_block,
        t6.branches.contains_key(s2.position->0),
        t6.branches[s2.position->0].2 == exit_block,
    ensures
        builds_on(s0, s6),
{
    let c = s0.position->0;
    let t7 = BuilderView { position: Some(body_block), ..t6 };
    let t8x = BuilderView { position: Some(exit_block), ..t8 };
    let d2 = s2.position->0;
    let d4 = s4.position->0;
    assert forall|bl: Block| #[trigger] s0.blocks.contains_key(bl) && bl != c implies kept(s0, s6, bl) by {
        assert(kept(s0, t4, bl));
        assert(bl != header_block && bl != d2);
        assert(kept(s1, s2, bl));
        assert(kept(s2, t6, bl));
        assert(kept(t7, s3, bl));
        assert(bl != body_block && bl != d4);
        assert(kept(s3, s4, bl));
        assert(kept(s4, t8, bl));
        assert(kept(t8x, t9, bl));
        assert(kept(t9, s5, bl));
        assert(bl != exit_block);
        assert(kept(s5, s6, bl));
        lemma_kept_trans(s0, t4, s2, bl);
        lemma_kept_trans(s0, s2, t6, bl);
        lemma_kept_trans(s0, t6, s3, bl);
        lemma_kept_trans(s0, s3, s4, bl);
        lemma_kept_trans(s0, s4, t8, bl);
        lemma_kept_trans(s0, t8, t9, bl);
        lemma_kept_trans(s0, t9, s5, bl);
        lemma_kept_trans(s0, s5, s6, bl);
    }
    assert(t4.blocks[c] == BlockStatus::Filled);
    assert(c != header_block && c != d2);
    assert(t4.blocks.contains_key(c));
    assert(s1.blocks.contains_key(c));
    assert(kept(s1, s2, c));
    assert(t6.blocks.contains_key(c));
    assert(t7.blocks.contains_key(c));
    assert(kept(t7, s3, c));
    assert(c != body_block && c != d4);
    assert(kept(s3, s4, c));
    assert(s4.blocks.contains_key(c));
    assert(t8.blocks.contains_key(c));
    assert(t8x.blocks.contains_key(c));
    assert(kept(t8x, t9, c));
    assert(kept(t9, s5, c));
    assert(c != exit_block);
    assert(s6.blocks[c] == BlockStatus::Filled);
    // The block of the condition ends with the branch.
    assert(t6.blocks[header_block] == BlockStatus::Filled);
    assert(kept(t7, s3, header_block));
    assert(header_block != d4);
    assert(kept(s3, s4, header_block));
    assert(s4.blocks.contains_key(header_block));
    assert(t8.blocks.contains_key(header_block));
    assert(t8x.blocks.contains_key(header_block));
    assert(kept(t8x, t9, header_block));
    assert(kept(t9, s5, header_block));
    // The body ends with the jump back.
    assert(t8.blocks[body_block] == BlockStatus::Filled);
    assert(kept(t8x, t9, body_block));
    assert(kept(t9, s5, body_block));
    // The block past the loop takes the value.
    assert(t4.blocks[exit_block] == BlockStatus::Pristine);
    assert(s1.blocks.contains_key(exit_block));
    assert(kept(s1, s2, exit_block));
    assert(kept(s2, t6, exit_block));
    assert(kept(t7, s3, exit_block));
    assert(kept(s3, s4, exit_block));
    assert(kept(s4, t8, exit_block));
    assert(kept(t8x, t9, exit_block));
    assert(kept(t9, s5, exit_block));
    assert forall|bl: Block| #[trigger] s0.blocks.contains_key(bl) implies (s6.sealed.contains(bl)
        <==> s0.sealed.contains(bl)) by {
        assert(t4.blocks.contains_key(bl));
        assert(s1.blocks.contains_key(bl));
        assert(s2.blocks.contains_key(bl));
        assert(t6.blocks.contains_key(bl));
        assert(s3.blocks.contains_key(bl));
        assert(s4.blocks.contains_key(bl));
    }
    assert(grows(s0, s6)) by {
        assert(grows(s0, s2));
        assert(grows(s2, s4));
        assert(grows(s4, s6));
    }
    assert(grows(t4, s6) && grows(t6, s6) && grows(s2, s6));
    assert(s6.jumps.contains_key(c));
    assert(edge(s6, c, header_block));
    assert(s6.branches.dom().contains(d2));
    assert(s6.branches[d2] == t6.branches[d2]);
    assert(edge(s6, d2, exit_block));
    assert(s0.blocks.dom().subset_of(s1.blocks.dom()));
    lemma_reached_through(s0, s1, s2, s6, c, header_block, d2, exit_block);
    assert forall|bl: Block| #[trigger] s6.blocks.contains_key(bl) && !s0.blocks.contains_key(bl) implies s6.sealed.contains(
        bl,
    ) && (s6.blocks[bl] == BlockStatus::Filled || bl == exit_block) by {
        if bl == header_block || bl == body_block || bl == exit_block {
        } else if s2.blocks.contains_key(bl) && !s1.blocks.contains_key(bl) {
            if bl != d2 {
                assert(s2.blocks[bl] == BlockStatus::Filled);
            }
            assert(t6.blocks[bl] == BlockStatus::Filled);
            assert(kept(t7, s3, bl));
            assert(bl != d4);
            assert(kept(s3, s4, bl));
            assert(kept(t8x, t9, bl));
            assert(kept(t9, s5, bl));
        } else {
            assert(s4.blocks.contains_key(bl) && !s3.blocks.contains_key(bl));
            if bl != d4 {
                assert(s4.blocks[bl] == BlockStatus::Filled);
            }
            assert(t8.blocks[bl] == BlockStatus::Filled);
            assert(kept(t8x, t9, bl));
            assert(kept(t9, s5, bl));
        }
    }
}

/// The last import of a name is one of the imports.
pub proof fn lemma_latest_import_is_imported(imported: Seq<(String, FuncId)>, name: Seq<char>)
    ensures
        latest_import(imported, name) matches Some(id) ==> exists|i: int| 0 <= i < imported.len() && #[trigger] imported[i].1 == id,
    decreases imported.len(),
{
    if imported.len() > 0 && imported.last().0@ != name {
        lemma_latest_import_is_imported(imported.drop_last(), name);
        if let Some(id) = latest_import(imported.drop_last(), name) {
            let i = choose|i: int| 0 <= i < imported.drop_last().len() && imported.drop_last()[i].1 == id;
            assert(imported[i].1 == id);
        }
    } else if imported.len() > 0 {
        assert(imported[imported.len() - 1].1 == imported.last().1);
    }
}

/// The translator's context: the type of every value, the builder of the function, the module,
/// the function's variables and the functions imported by name.
pub struct Translator<'a, 'b> {
    pub word: Type,
    pub variables: Variables,
    pub imported: &'b Vec<(String, FuncId)>,
    pub builder: FunctionBuilder<'a>,
}

/// The identifier of the imported function `name`, the latest import first.
fn imported_func(imported: &Vec<(String, FuncId)>, name: &String) -> (id: Option<FuncId>)
    ensures
        id == latest_import(imported@, name@),
{
    let mut i = imported.len();
    assert(imported@.take(i as int) =~= imported@);
    while i > 0
        invariant
            i <= imported@.len(),
            latest_import(imported@, name@) == latest_import(imported@.take(i as int), name@),
        decreases i,
    {
        let ghost t = imported@.take(i as int);
        i = i - 1;
        assert(t.drop_last() =~= imported@.take(i as int));
        assert(t.last() == imported@[i as int]);
        if imported[i].0 == *name {
            return Some(imported[i].1);
        }
    }
    assert(imported@.take(0) =~= Seq::<(String, FuncId)>::empty());
    None
}

impl<'a, 'b> Translator<'a, 'b> {
    /// Emits the instructions of `node` and returns its value. A literal is an integer
    /// constant; an operation applies to the values of its operands, left first; a comparison
    /// gives 1 or 0; a name gives the current value of its variable and an assignment defines
    /// it; a call first makes sure its callee is declared.
    #[verifier::rlimit(40)]
    #[verifier::spinoff_prover]
    pub fn translate_astnode(&mut self, module: &mut JITModule, node: &ASTNode) -> (r: Result<Value, String>)
        requires
            scoped(node.to_ast(), old(self).variables.names()),
            insertable(builder_state(old(self).builder)),
            imports_declared(old(self).imported@, *old(module)),
            vars_typed(old(self).variables@, builder_var_types(old(self).builder), old(self).word),
            distinct_vars(old(self).variables@),
        ensures
            final(self).variables.names() == old(self).variables.names(),
            accepted(node.to_ast()) ==> r is Ok,
            final(self).imported == old(self).imported,
            final(self).word == old(self).word,
            module_grows(*old(module), *final(module)),
            r matches Ok(v) ==> builds_on(builder_state(old(self).builder), builder_state(final(self).builder))
                && builder_values(final(self).builder).contains(v),
            r matches Ok(v) ==> computes(builder_state(final(self).builder), final(self).imported@, *final(module), node.to_ast(), v),
            r matches Ok(v) ==> (node.to_ast() matches Ast::Assign(x, _) ==> builder_vars(final(self).builder).contains_key(
                (final(self).variables.var_of(x), builder_position(final(self).builder)->0),
            ) && builder_vars(final(self).builder)[(final(self).variables.var_of(x), builder_position(final(self).builder)->0)]
                == v),
            r matches Ok(v) ==> (node.to_ast() matches Ast::Identifier(x) ==> (builder_vars(old(self).builder).contains_key(
                (old(self).variables.var_of(x), builder_position(old(self).builder)->0),
            ) ==> v == builder_vars(old(self).builder)[(old(self).variables.var_of(x), builder_position(old(self).builder)->0)])),
            final(self).variables@ == old(self).variables@,
            accepted(node.to_ast()) ==> *final(module) == *old(module),
            r matches Ok(v) ==> (word_typed(node.to_ast()) ==> builder_types(final(self).builder).contains_key(v)
                && builder_types(final(self).builder)[v] == final(self).word),
            r is Ok ==> frame_straight(builder_state(old(self).builder), builder_state(final(self).builder), old(self).variables@, node.to_ast()),
        decreases node, 2int,
    {
        let ghost s0 = builder_state(self.builder);
        match node {
            ASTNode::Literal(literal) => match parse_i32(literal.as_str()) {
                Some(imm) => {
                    let v = jit::ins_iconst(&mut self.builder, self.word, imm as i64);
                    proof {
                        lemma_after_inst_builds_on(s0, builder_state(self.builder));
                        lemma_frame_leaf(s0, builder_state(self.builder), self.variables@, node.to_ast());
                    }
                    Ok(v)
                },
                None => fail("literal out of range"),
            },
            ASTNode::Add(..) | ASTNode::Sub(..) | ASTNode::Mul(..) | ASTNode::Div(..) | ASTNode::And(..)
            | ASTNode::Or(..) => self.translate_arith(module, node),
            ASTNode::Eq(..) | ASTNode::Ne(..) | ASTNode::Lt(..) | ASTNode::Le(..) | ASTNode::Gt(..)
            | ASTNode::Ge(..) => self.translate_compare(module, node),
            ASTNode::Field(_) => {
                let v = jit::ins_iconst(&mut self.builder, self.word, 0);
                proof {
                    lemma_after_inst_builds_on(s0, builder_state(self.builder));
                    lemma_frame_leaf(s0, builder_state(self.builder), self.variables@, node.to_ast());
                }
                Ok(v)
            },
            ASTNode::Call(..) => self.translate_call(module, node),
            ASTNode::GlobalDataAddr(name) => self.translate_global_data_addr(module, name),
            ASTNode::Identifier(name) => match self.variables.get(name) {
                Some(var) => match {
                    proof {
                        let k = choose|k: int| 0 <= k < self.variables@.len() && #[trigger] self.variables@[k] == (name@, var);
                        assert(builder_var_types(self.builder).contains_key(self.variables@[k].1));
                    }
                    jit::try_use_var(&mut self.builder, var)
                } {
                    Some(v) => {
                        proof {
                            lemma_after_ssa_builds_on(s0, builder_state(self.builder));
                            lemma_frame_leaf(s0, builder_state(self.builder), self.variables@, node.to_ast());
                        }
                        Ok(v)
                    },
                    None => fail("variable not declared"),
                },
                None => fail("variable not defined"),
            },
            ASTNode::Assign(..) => self.translate_assign(module, node),
            ASTNode::IfElse(..) => self.translate_if_else(module, node),
            ASTNode::WhileLoop(..) => self.translate_while_loop(module, node),
        }
    }

    /// An arithmetic or logical operation on the values of its two operands.
    #[verifier::rlimit(40)]
    #[verifier::spinoff_prover]
    fn translate_arith(&mut self, module: &mut JITModule, node: &ASTNode) -> (r: Result<Value, String>)
        requires
            scoped(node.to_ast(), old(self).variables.names()),
            insertable(builder_state(old(self).builder)),
            imports_declared(old(self).imported@, *old(module)),
            vars_typed(old(self).variables@, builder_var_types(old(self).builder), old(self).word),
            distinct_vars(old(self).variables@),
        ensures
            final(self).variables.names() == old(self).variables.names(),
            !is_arith(node.to_ast()) ==> r is Err,
            is_arith(node.to_ast()) && accepted(node.to_ast()) ==> r is Ok,
            final(self).imported == old(self).imported,
            final(self).word == old(self).word,
            module_grows(*old(module), *final(module)),
            r matches Ok(v) ==> builds_on(builder_state(old(self).builder), builder_state(final(self).builder))
                && builder_values(final(self).builder).contains(v),
            r matches Ok(v) ==> computes(builder_state(final(self).builder), final(self).imported@, *final(module), node.to_ast(), v),
            final(self).variables@ == old(self).variables@,
            accepted(node.to_ast()) ==> *final(module) == *old(module),
            r matches Ok(v) ==> (word_typed(node.to_ast()) ==> builder_types(final(self).builder).contains_key(v)
                && builder_types(final(self).builder)[v] == final(self).word),
            r is Ok ==> frame_straight(builder_state(old(self).builder), builder_state(final(self).builder), old(self).variables@, node.to_ast()),
        decreases node, 1int,
    {
        let ghost s0 = builder_state(self.builder);
        let ghost m0 = *module;
        match node {
            ASTNode::Add(lhs, rhs) => {
                let l = self.translate_astnode(module, lhs)?;
                let ghost s1 = builder_state(self.builder);
                let ghost m1 = *module;
                proof {
                    lemma_imports_declared_grow(self.imported@, m0, *module);
                }
                let r = self.translate_astnode(module, rhs)?;
                let ghost s2 = builder_state(self.builder);
                let ghost m2 = *module;
                let v = jit::ins_iadd(&mut self.builder, l, r);
                proof {
                    lemma_operation_builds_on(s0, s1, s2, builder_state(self.builder));
                    lemma_computes_grows(s1, builder_state(self.builder), self.imported@, m1, *module, lhs.to_ast(), l);
                    lemma_computes_grows(s2, builder_state(self.builder), self.imported@, m2, *module, rhs.to_ast(), r);
                    lemma_frame_pair(s0, s1, s2, builder_state(self.builder), self.variables@, node.to_ast(), lhs.to_ast(), rhs.to_ast());
                }
                Ok(v)
            },
            ASTNode::Sub(lhs, rhs) => {
                let l = self.translate_astnode(module, lhs)?;
                let ghost s1 = builder_state(self.builder);
                let ghost m1 = *module;
                proof {
                    lemma_imports_declared_grow(self.imported@, m0, *module);
                }
                let r = self.translate_astnode(module, rhs)?;
                let ghost s2 = builder_state(self.builder);
                let ghost m2 = *module;
                let v = jit::ins_isub(&mut self.builder, l, r);
                proof {
                    lemma_operation_builds_on(s0, s1, s2, builder_state(self.builder));
                    lemma_computes_grows(s1, builder_state(self.builder), self.imported@, m1, *module, lhs.to_ast(), l);
                    lemma_computes_grows(s2, builder_state(self.builder), self.imported@, m2, *module, rhs.to_ast(), r);
                    lemma_frame_pair(s0, s1, s2, builder_state(self.builder), self.variables@, node.to_ast(), lhs.to_ast(), rhs.to_ast());
                }
                Ok(v)
            },
            ASTNode::Mul(lhs, rhs) => {
                let l = self.translate_astnode(module, lhs)?;
                let ghost s1 = builder_state(self.builder);
                let ghost m1 = *module;
                proof {
                    lemma_imports_declared_grow(self.imported@, m0, *module);
                }
                let r = self.translate_astnode(module, rhs)?;
                let ghost s2 = builder_state(self.builder);
                let ghost m2 = *module;
                let v = jit::ins_imul(&mut self.builder, l, r);
                proof {
                    lemma_operation_builds_on(s0, s1, s2, builder_state(self.builder));
                    lemma_computes_grows(s1, builder_state(self.builder), self.imported@, m1, *module, lhs.to_ast(), l);
                    lemma_computes_grows(s2, builder_state(self.builder), self.imported@, m2, *module, rhs.to_ast(), r);
                    lemma_frame_pair(s0, s1, s2, builder_state(self.builder), self.variables@, node.to_ast(), lhs.to_ast(), rhs.to_ast());
                }
                Ok(v)
            },
            ASTNode::Div(lhs, rhs) => {
                let l = self.translate_astnode(module, lhs)?;
                let ghost s1 = builder_state(self.builder);
                let ghost m1 = *module;
                proof {
                    lemma_imports_declared_grow(self.imported@, m0, *module);
                }
                let r = self.translate_astnode(module, rhs)?;
                let ghost s2 = builder_state(self.builder);
                let ghost m2 = *module;
                let v = jit::ins_udiv(&mut self.builder, l, r);
                proof {
                    lemma_operation_builds_on(s0, s1, s2, builder_state(self.builder));
                    lemma_computes_grows(s1, builder_state(self.builder), self.imported@, m1, *module, lhs.to_ast(), l);
                    lemma_computes_grows(s2, builder_state(self.builder), self.imported@, m2, *module, rhs.to_ast(), r);
                    lemma_frame_pair(s0, s1, s2, builder_state(self.builder), self.variables@, node.to_ast(), lhs.to_ast(), rhs.to_ast());
                }
                Ok(v)
            },
            ASTNode::And(lhs, rhs) => {
                let l = self.translate_astnode(module, lhs)?;
                let ghost s1 = builder_state(self.builder);
                let ghost m1 = *module;
                proof {
                    lemma_imports_declared_grow(self.imported@, m0, *module);
                }
                let r = self.translate_astnode(module, rhs)?;
                let ghost s2 = builder_state(self.builder);
                let ghost m2 = *module;
                let v = jit::ins_band(&mut self.builder, l, r);
                proof {
                    lemma_operation_builds_on(s0, s1, s2, builder_state(self.builder));
                    lemma_computes_grows(s1, builder_state(self.builder), self.imported@, m1, *module, lhs.to_ast(), l);
                    lemma_computes_grows(s2, builder_state(self.builder), self.imported@, m2, *module, rhs.to_ast(), r);
                    lemma_frame_pair(s0, s1, s2, builder_state(self.builder), self.variables@, node.to_ast(), lhs.to_ast(), rhs.to_ast());
                }
                Ok(v)
            },
            ASTNode::Or(lhs, rhs) => {
                let l = self.translate_astnode(module, lhs)?;
                let ghost s1 = builder_state(self.builder);
                let ghost m1 = *module;
                proof {
                    lemma_imports_declared_grow(self.imported@, m0, *module);
                }
                let r = self.translate_astnode(module, rhs)?;
                let ghost s2 = builder_state(self.builder);
                let ghost m2 = *module;
                let v = jit::ins_bor(&mut self.builder, l, r);
                proof {
                    lemma_operation_builds_on(s0, s1, s2, builder_state(self.builder));
                    lemma_computes_grows(s1, builder_state(self.builder), self.imported@, m1, *module, lhs.to_ast(), l);
                    lemma_computes_grows(s2, builder_state(self.builder), self.imported@, m2, *module, rhs.to_ast(), r);
                    lemma_frame_pair(s0, s1, s2, builder_state(self.builder), self.variables@, node.to_ast(), lhs.to_ast(), rhs.to_ast());
                }
                Ok(v)
            },
            _ => fail("not an operation"),
        }
    }

    /// A comparison of the values of its two operands.
    #[verifier::rlimit(40)]
    #[verifier::spinoff_prover]
    fn translate_compare(&mut self, module: &mut JITModule, node: &ASTNode) -> (r: Result<Value, String>)
        requires
            scoped(node.to_ast(), old(self).variables.names()),
            insertable(builder_state(old(self).builder)),
            imports_declared(old(self).imported@, *old(module)),
            vars_typed(old(self).variables@, builder_var_types(old(self).builder), old(self).word),
            distinct_vars(old(self).variables@),
        ensures
            final(self).variables.names() == old(self).variables.names(),
            !is_compare(node.to_ast()) ==> r is Err,
            is_compare(node.to_ast()) && accepted(node.to_ast()) ==> r is Ok,
            final(self).imported == old(self).imported,
            final(self).word == old(self).word,
            module_grows(*old(module), *final(module)),
            r matches Ok(v) ==> builds_on(builder_state(old(self).builder), builder_state(final(self).builder))
                && builder_values(final(self).builder).contains(v),
            r matches Ok(v) ==> computes(builder_state(final(self).builder), final(self).imported@, *final(module), node.to_ast(), v),
            final(self).variables@ == old(self).variables@,
            accepted(node.to_ast()) ==> *final(module) == *old(module),
            r matches Ok(v) ==> (word_typed(node.to_ast()) ==> builder_types(final(self).builder).contains_key(v)
                && builder_types(final(self).builder)[v] == final(self).word),
            r is Ok ==> frame_straight(builder_state(old(self).builder), builder_state(final(self).builder), old(self).variables@, node.to_ast()),
        decreases node, 1int,
    {
        let ghost s0 = builder_state(self.builder);
        let ghost m0 = *module;
        let (cond, lhs, rhs) = match node {
            ASTNode::Eq(lhs, rhs) => (IntCond::Equal, lhs, rhs),
            ASTNode::Ne(lhs, rhs) => (IntCond::NotEqual, lhs, rhs),
            ASTNode::Lt(lhs, rhs) => (IntCond::SignedLessThan, lhs, rhs),
            ASTNode::Le(lhs, rhs) => (IntCond::SignedLessThanOrEqual, lhs, rhs),
            ASTNode::Gt(lhs, rhs) => (IntCond::SignedGreaterThan, lhs, rhs),
            ASTNode::Ge(lhs, rhs) => (IntCond::SignedGreaterThanOrEqual, lhs, rhs),
            _ => {
                return fail("not a comparison");
            },
        };
        let l = self.translate_astnode(module, lhs)?;
        let ghost s1 = builder_state(self.builder);
        let ghost m1 = *module;
        proof {
            lemma_imports_declared_grow(self.imported@, m0, *module);
        }
        let r = self.translate_astnode(module, rhs)?;
        let ghost s2 = builder_state(self.builder);
        let ghost m2 = *module;
        let v = jit::ins_compare(&mut self.builder, cond, l, r);
        proof {
            lemma_operation_builds_on(s0, s1, s2, builder_state(self.builder));
            lemma_computes_grows(s1, builder_state(self.builder), self.imported@, m1, *module, lhs.to_ast(), l);
            lemma_computes_grows(s2, builder_state(self.builder), self.imported@, m2, *module, rhs.to_ast(), r);
            lemma_frame_pair(s0, s1, s2, builder_state(self.builder), self.variables@, node.to_ast(), lhs.to_ast(), rhs.to_ast());
        }
        Ok(v)
    }

    /// An assignment: the value of the expression becomes the variable's.
    #[verifier::rlimit(80)]
    #[verifier::spinoff_prover]
    fn translate_assign(&mut self, module: &mut JITModule, node: &ASTNode) -> (r: Result<Value, String>)
        requires
            scoped(node.to_ast(), old(self).variables.names()),
            insertable(builder_state(old(self).builder)),
            imports_declared(old(self).imported@, *old(module)),
            vars_typed(old(self).variables@, builder_var_types(old(self).builder), old(self).word),
            distinct_vars(old(self).variables@),
        ensures
            final(self).variables.names() == old(self).variables.names(),
            node.to_ast() is Assign && accepted(node.to_ast()) ==> r is Ok,
            !(node.to_ast() is Assign) ==> r is Err,
            final(self).imported == old(self).imported,
            final(self).word == old(self).word,
            module_grows(*old(module), *final(module)),
            r matches Ok(v) ==> builds_on(builder_state(old(self).builder), builder_state(final(self).builder))
                && builder_values(final(self).builder).contains(v),
            r matches Ok(v) ==> computes(builder_state(final(self).builder), final(self).imported@, *final(module), node.to_ast(), v),
            r matches Ok(v) ==> (node.to_ast() matches Ast::Assign(x, _) ==> builder_vars(final(self).builder).contains_key(
                (final(self).variables.var_of(x), builder_position(final(self).builder)->0),
            ) && builder_vars(final(self).builder)[(final(self).variables.var_of(x), builder_position(final(self).builder)->0)]
                == v),
            final(self).variables@ == old(self).variables@,
            accepted(node.to_ast()) ==> *final(module) == *old(module),
            r matches Ok(v) ==> (word_typed(node.to_ast()) ==> builder_types(final(self).builder).contains_key(v)
                && builder_types(final(self).builder)[v] == final(self).word),
            r is Ok ==> frame_straight(builder_state(old(self).builder), builder_state(final(self).builder), old(self).variables@, node.to_ast()),
        decreases node, 1int,
    {
        let (name, expr) = match node {
            ASTNode::Assign(name, expr) => (name, expr),
            _ => {
                return fail("not an assignment");
            },
        };
        let ghost s0 = builder_state(self.builder);
        let new_value = self.translate_astnode(module, expr)?;
        let ghost s1 = builder_state(self.builder);
        match self.variables.get(name) {
            Some(var) => {
                proof {
                    let k = choose|k: int| 0 <= k < self.variables@.len() && #[trigger] self.variables@[k] == (name@, var);
                    assert(builder_var_types(self.builder).contains_key(self.variables@[k].1));
                    assert(builder_var_types(self.builder)[var] == self.word);
                    assert(node.to_ast() == Ast::Assign(name@, Box::new(expr.to_ast())));
                    assert(accepted(node.to_ast()) ==> word_typed(expr.to_ast()));
                    assert(accepted(node.to_ast()) ==> builder_types(self.builder)[new_value] == self.word);
                }
                if jit::try_def_var(&mut self.builder, var, new_value) {
                    proof {
                        lemma_reached_in_place(s1, builder_state(self.builder));
                        lemma_reached_trans(s0, s1, builder_state(self.builder));
                        lemma_computes_grows(s1, builder_state(self.builder), self.imported@, *module, *module, expr.to_ast(), new_value);
                        lemma_frame_assign(s0, s1, builder_state(self.builder), self.variables@, name@, expr.to_ast(), var, new_value);
                    }
                    Ok(new_value)
                } else {
                    fail("variable not declared")
                }
            },
            None => fail("variable not defined"),
        }
    }

    /// Translates `body` in order; returns the value of the last statement, zero when there is
    /// none.
    #[verifier::rlimit(40)]
    #[verifier::spinoff_prover]
    fn translate_body(&mut self, module: &mut JITModule, parent: &ASTNode, body: &Vec<ASTNode>) -> (r: Result<Value, String>)
        requires
            all_scoped(asts(body@), old(self).variables.names()),
            forall|i: int| 0 <= i < body@.len() ==> decreases_to!(parent => #[trigger] body@[i]),
            insertable(builder_state(old(self).builder)),
            imports_declared(old(self).imported@, *old(module)),
            vars_typed(old(self).variables@, builder_var_types(old(self).builder), old(self).word),
            distinct_vars(old(self).variables@),
        ensures
            final(self).variables.names() == old(self).variables.names(),
            all_accepted(asts(body@)) ==> r is Ok,
            all_accepted(asts(body@)) ==> *final(module) == *old(module),
            final(self).imported == old(self).imported,
            final(self).word == old(self).word,
            module_grows(*old(module), *final(module)),
            r matches Ok(v) ==> builds_on(builder_state(old(self).builder), builder_state(final(self).builder))
                && builder_values(final(self).builder).contains(v),
            r matches Ok(v) ==> body_computes(builder_state(final(self).builder), final(self).imported@, *final(module), asts(body@), v),
            final(self).variables@ == old(self).variables@,
        decreases parent, 0int,
    {
        proof {
            lemma_all_scoped(asts(body@), self.variables.names());
        }
        let ghost s0 = builder_state(self.builder);
        let ghost m0 = *module;
        let mut last = jit::ins_iconst(&mut self.builder, self.word, 0);
        proof {
            lemma_after_inst_builds_on(s0, builder_state(self.builder));
        }
        let mut i: usize = 0;
        while i < body.len()
            invariant
                0 <= i <= body@.len(),
                self.variables.names() == old(self).variables.names(),
                self.imported == old(self).imported,
                self.word == old(self).word,
                forall|j: int| 0 <= j < asts(body@).len() ==> scoped(#[trigger] asts(body@)[j], self.variables.names()),
                forall|j: int| 0 <= j < body@.len() ==> decreases_to!(parent => #[trigger] body@[j]),
                all_accepted(asts(body@)) ==> *module == m0,
                vars_typed(self.variables@, builder_var_types(self.builder), self.word),
                self.variables@ == old(self).variables@,
                distinct_vars(self.variables@),
                s0 == builder_state(old(self).builder),
                m0 == *old(module),
                insertable(s0),
                builds_on(s0, builder_state(self.builder)),
                builder_values(self.builder).contains(last),
                body_computes(builder_state(self.builder), self.imported@, *module, asts(body@).take(i as int), last),
                module_grows(m0, *module),
                imports_declared(self.imported@, *module),
            decreases body@.len() - i,
        {
            assert(asts(body@)[i as int] == body@[i as int].to_ast());
            assert(decreases_to!(parent => body@[i as int]));
            let ghost si = builder_state(self.builder);
            let ghost mi = *module;
            last = self.translate_astnode(module, &body[i])?;
            proof {
                lemma_builds_on_trans(s0, si, builder_state(self.builder));
                lemma_module_grows_trans(m0, mi, *module);
                lemma_imports_declared_grow(self.imported@, mi, *module);
            }
            assert(asts(body@).take(i + 1).last() == asts(body@)[i as int]);
            i = i + 1;
        }
        assert(asts(body@).take(body@.len() as int) =~= asts(body@));
        Ok(last)
    }

    /// A conditional: the value of the chosen branch, which is its last statement's value or
    /// zero. The condition ends the current block with a branch to the two arms; each arm ends
    /// with a jump that hands its value to the block that follows, whose parameter is the value.
    #[verifier::rlimit(40)]
    #[verifier::spinoff_prover]
    fn translate_if_else(&mut self, module: &mut JITModule, node: &ASTNode) -> (r: Result<Value, String>)
        requires
            scoped(node.to_ast(), old(self).variables.names()),
            insertable(builder_state(old(self).builder)),
            imports_declared(old(self).imported@, *old(module)),
            vars_typed(old(self).variables@, builder_var_types(old(self).builder), old(self).word),
            distinct_vars(old(self).variables@),
        ensures
            final(self).variables.names() == old(self).variables.names(),
            node.to_ast() is IfElse && accepted(node.to_ast()) ==> r is Ok,
            !(node.to_ast() is IfElse) ==> r is Err,
            final(self).imported == old(self).imported,
            final(self).word == old(self).word,
            module_grows(*old(module), *final(module)),
            r matches Ok(v) ==> builds_on(builder_state(old(self).builder), builder_state(final(self).builder))
                && builder_values(final(self).builder).contains(v),
            r matches Ok(v) ==> computes(builder_state(final(self).builder), final(self).imported@, *final(module), node.to_ast(), v),
            final(self).variables@ == old(self).variables@,
            accepted(node.to_ast()) ==> *final(module) == *old(module),
            r matches Ok(v) ==> (word_typed(node.to_ast()) ==> builder_types(final(self).builder).contains_key(v)
                && builder_types(final(self).builder)[v] == final(self).word),
            r is Ok ==> frame_straight(builder_state(old(self).builder), builder_state(final(self).builder), old(self).variables@, node.to_ast()),
        decreases node, 1int,
    {
        let (condition, then_body, else_body) = match node {
            ASTNode::IfElse(condition, then_body, else_body) => (condition, then_body, else_body),
            _ => {
                return fail("not a conditional");
            },
        };
        proof {
            assert forall|i: int| 0 <= i < then_body@.len() implies decreases_to!(node => #[trigger] then_body@[i]) by {
                assert(decreases_to!(node => *then_body));
                assert(decreases_to!(*then_body => then_body@));
                assert(decreases_to!(then_body@ => then_body@[i]));
            }
            assert forall|i: int| 0 <= i < else_body@.len() implies decreases_to!(node => #[trigger] else_body@[i]) by {
                assert(decreases_to!(node => *else_body));
                assert(decreases_to!(*else_body => else_body@));
                assert(decreases_to!(else_body@ => else_body@[i]));
            }
        }
        let ghost s0 = builder_state(self.builder);
        let ghost m0 = *module;
        let condition_value = self.translate_astnode(module, condition)?;
        let ghost s1 = builder_state(self.builder);
        let ghost m1 = *module;

        let then_block = jit::create_block(&mut self.builder);
        let else_block = jit::create_block(&mut self.builder);
        let merge_block = jit::create_block(&mut self.builder);

        let merge_value = jit::append_block_param(&mut self.builder, merge_block, self.word);
        let ghost t4 = builder_state(self.builder);

        let no_args: Vec<Value> = Vec::new();
        jit::ins_brif(&mut self.builder, condition_value, then_block, &no_args, else_block, &no_args);
        let ghost t5 = builder_state(self.builder);

        assert(t5.blocks[then_block] == BlockStatus::Pristine);
        assert(t5.blocks[else_block] == BlockStatus::Pristine);
        assert(t5.blocks[merge_block] == BlockStatus::Pristine);
        assert(!t5.sealed.contains(merge_block) && !t5.sealed.contains(else_block));
        jit::switch_to_block(&mut self.builder, then_block);
        let ghost sw = builder_state(self.builder);
        assert(sw.blocks.contains_key(then_block) && sw.blocks.contains_key(else_block) && sw.blocks.contains_key(merge_block));
        jit::seal_block(&mut self.builder, then_block);
        let ghost s2 = builder_state(self.builder);
        assert(s2.blocks.contains_key(merge_block) && s2.blocks.contains_key(else_block));
        assert(!s2.sealed.contains(merge_block) && !s2.sealed.contains(else_block));
        assert(s2.blocks[else_block] != BlockStatus::Filled && s2.blocks[merge_block] != BlockStatus::Filled);
        assert(insertable(s2));
        proof {
            lemma_imports_declared_grow(self.imported@, m0, *module);
        }
        let then_return = self.translate_body(module, node, then_body)?;
        let ghost s3 = builder_state(self.builder);
        let ghost m3 = *module;
        let mut args = Vec::new();
        args.push(then_return);
        jit::ins_jump(&mut self.builder, merge_block, &args);
        let ghost t7 = builder_state(self.builder);

        assert(s3.blocks.contains_key(merge_block) && s3.blocks.contains_key(else_block));
        assert(!s3.sealed.contains(merge_block) && !s3.sealed.contains(else_block));
        assert(kept(s2, s3, else_block) && kept(s2, s3, merge_block));
        assert(t7.blocks[else_block] != BlockStatus::Filled);
        jit::switch_to_block(&mut self.builder, else_block);
        let ghost sw = builder_state(self.builder);
        assert(sw.blocks.contains_key(else_block) && sw.blocks.contains_key(merge_block));
        jit::seal_block(&mut self.builder, else_block);
        let ghost s4 = builder_state(self.builder);
        assert(s4.blocks.contains_key(merge_block) && !s4.sealed.contains(merge_block));
        assert(s4.blocks[merge_block] != BlockStatus::Filled);
        assert(insertable(s4));
        proof {
            lemma_module_grows_trans(m0, m1, m3);
            lemma_imports_declared_grow(self.imported@, m0, *module);
        }
        let else_return = self.translate_body(module, node, else_body)?;
        let ghost s5 = builder_state(self.builder);
        let ghost m5 = *module;
        let mut args = Vec::new();
        args.push(else_return);
        jit::ins_jump(&mut self.builder, merge_block, &args);
        let ghost t9 = builder_state(self.builder);

        assert(s5.blocks.contains_key(merge_block) && !s5.sealed.contains(merge_block));
        assert(kept(s4, s5, merge_block));
        assert(t9.blocks[merge_block] != BlockStatus::Filled);
        jit::switch_to_block(&mut self.builder, merge_block);
        jit::seal_block(&mut self.builder, merge_block);
        let ghost s6 = builder_state(self.builder);
        proof {
            lemma_module_grows_trans(m0, m3, *module);
            lemma_if_else_builds_on(s0, s1, t4, t5, s2, s3, t7, s4, s5, t9, s6, then_block, else_block, merge_block);
        }
        proof {
            let c = s1.position->0;
            let d3 = s3.position->0;
            let d5 = s5.position->0;
            let imp = self.imported@;
            assert(grows(s1, t5) && grows(t5, s6) && grows(s3, s6) && grows(t7, s6) && grows(s5, s6) && grows(t9, s6));
            lemma_computes_grows(s1, s6, imp, m1, *module, condition.to_ast(), condition_value);
            lemma_body_computes_grows(s3, s6, imp, m3, *module, asts(then_body@), then_return);
            lemma_body_computes_grows(s5, s6, imp, m5, *module, asts(else_body@), else_return);
            assert(t5.branches.contains_key(c) && t5.branches[c].0 == condition_value);
            assert(s6.branches.dom().contains(c));
            assert(s6.branches[c] == t5.branches[c]);
            assert(t7.jumps.contains_key(d3) && t7.jumps[d3].0 == merge_block && t7.jumps[d3].1[0] == then_return);
            assert(s6.jumps.contains_key(d3) && s6.jumps[d3].0 == merge_block);
            assert(s6.jumps[d3].1[0] == then_return);
            assert(t9.jumps.contains_key(d5) && t9.jumps[d5].0 == merge_block && t9.jumps[d5].1[0] == else_return);
            assert(s6.jumps.contains_key(d5) && s6.jumps[d5].0 == merge_block);
            assert(s6.jumps[d5].1[0] == else_return);
            assert(t5.branches[c] == (condition_value, then_block, else_block));
            lemma_reached_avoids(s2, s3, c);
            lemma_reaches_avoiding_grows(s3, s6, then_block, d3, c);
            lemma_reached_avoids(s4, s5, c);
            lemma_reaches_avoiding_grows(s5, s6, else_block, d5, c);
            assert(reaches_avoiding(s6, s6.branches[c].1, d3, c));
            assert(reaches_avoiding(s6, s6.branches[c].2, d5, c));
            assert(t4.types.contains_key(merge_value));
            assert(grows(t4, s6));
            assert(s6.types.dom().contains(merge_value));
            assert(s6.defs.dom().contains(merge_value));
            assert(s6.defs[merge_value] == ValueDef::Param(merge_block, 0));
        }
        Ok(merge_value)
    }

    /// A loop: its condition is evaluated before each round; its value is zero. The current
    /// block jumps to the block of the condition, which branches to the body or past the loop;
    /// the body jumps back to the condition.
    #[verifier::rlimit(40)]
    #[verifier::spinoff_prover]
    fn translate_while_loop(&mut self, module: &mut JITModule, node: &ASTNode) -> (r: Result<Value, String>)
        requires
            scoped(node.to_ast(), old(self).variables.names()),
            insertable(builder_state(old(self).builder)),
            imports_declared(old(self).imported@, *old(module)),
            vars_typed(old(self).variables@, builder_var_types(old(self).builder), old(self).word),
            distinct_vars(old(self).variables@),
        ensures
            final(self).variables.names() == old(self).variables.names(),
            !(node.to_ast() is WhileLoop) ==> r is Err,
            node.to_ast() is WhileLoop && accepted(node.to_ast()) ==> r is Ok,
            final(self).imported == old(self).imported,
            final(self).word == old(self).word,
            module_grows(*old(module), *final(module)),
            r matches Ok(v) ==> builds_on(builder_state(old(self).builder), builder_state(final(self).builder))
                && builder_values(final(self).builder).contains(v),
            r matches Ok(v) ==> computes(builder_state(final(self).builder), final(self).imported@, *final(module), node.to_ast(), v),
            final(self).variables@ == old(self).variables@,
            accepted(node.to_ast()) ==> *final(module) == *old(module),
            r matches Ok(v) ==> (word_typed(node.to_ast()) ==> builder_types(final(self).builder).contains_key(v)
                && builder_types(final(self).builder)[v] == final(self).word),
            r is Ok ==> frame_straight(builder_state(old(self).builder), builder_state(final(self).builder), old(self).variables@, node.to_ast()),
        decreases node, 1int,
    {
        let (condition, loop_body) = match node {
            ASTNode::WhileLoop(condition, loop_body) => (condition, loop_body),
            _ => {
                return fail("not a loop");
            },
        };
        proof {
            assert forall|i: int| 0 <= i < loop_body@.len() implies decreases_to!(node => #[trigger] loop_body@[i]) by {
                assert(decreases_to!(node => *loop_body));
                assert(decreases_to!(*loop_body => loop_body@));
                assert(decreases_to!(loop_body@ => loop_body@[i]));
            }
        }
        let ghost s0 = builder_state(self.builder);
        let ghost m0 = *module;
        let header_block = jit::create_block(&mut self.builder);
        let body_block = jit::create_block(&mut self.builder);
        let exit_block = jit::create_block(&mut self.builder);
        let ghost t3 = builder_state(self.builder);

        let no_args: Vec<Value> = Vec::new();
        jit::ins_jump(&mut self.builder, header_block, &no_args);
        let ghost t4 = builder_state(self.builder);
        jit::switch_to_block(&mut self.builder, header_block);
        let ghost s1 = builder_state(self.builder);

        assert(s1.blocks.contains_key(body_block) && s1.blocks.contains_key(exit_block));
        assert(!s1.sealed.contains(body_block) && !s1.sealed.contains(exit_block));
        assert(s1.blocks[header_block] == BlockStatus::Pristine);
        assert(insertable(s1));
        let condition_value = self.translate_astnode(module, condition)?;
        let ghost s2 = builder_state(self.builder);
        let ghost m2 = *module;
        assert(s2.blocks.contains_key(body_block) && s2.blocks.contains_key(exit_block));
        assert(!s2.sealed.contains(body_block) && !s2.sealed.contains(exit_block));
        assert(kept(s1, s2, body_block) && kept(s1, s2, exit_block));
        jit::ins_brif(&mut self.builder, condition_value, body_block, &no_args, exit_block, &no_args);
        let ghost t6 = builder_state(self.builder);

        assert(t6.blocks.contains_key(body_block) && t6.blocks.contains_key(exit_block));
        jit::switch_to_block(&mut self.builder, body_block);
        let ghost sw = builder_state(self.builder);
        assert(sw.blocks.contains_key(body_block) && sw.blocks.contains_key(exit_block) && sw.blocks.contains_key(header_block));
        jit::seal_block(&mut self.builder, body_block);
        let ghost s3 = builder_state(self.builder);
        proof {
            lemma_imports_declared_grow(self.imported@, m0, *module);
        }

        assert(s3.blocks.contains_key(exit_block) && s3.blocks.contains_key(header_block));
        assert(!s3.sealed.contains(exit_block) && !s3.sealed.contains(header_block));
        assert(s3.blocks[exit_block] != BlockStatus::Filled);
        assert(insertable(s3));
        self.translate_body(module, node, loop_body)?;
        let ghost s4 = builder_state(self.builder);
        assert(s4.blocks.contains_key(exit_block) && s4.blocks.contains_key(header_block));
        assert(!s4.sealed.contains(exit_block) && !s4.sealed.contains(header_block));
        assert(kept(s3, s4, exit_block));
        jit::ins_jump(&mut self.builder, header_block, &no_args);
        let ghost t8 = builder_state(self.builder);

        assert(t8.blocks.contains_key(exit_block) && t8.blocks[exit_block] != BlockStatus::Filled);
        jit::switch_to_block(&mut self.builder, exit_block);
        let ghost sw2 = builder_state(self.builder);
        assert(sw2.blocks.contains_key(exit_block) && sw2.blocks.contains_key(header_block));

        jit::seal_block(&mut self.builder, header_block);
        let ghost t9 = builder_state(self.builder);
        assert(t9.blocks.contains_key(exit_block) && t9.blocks[exit_block] != BlockStatus::Filled);
        jit::seal_block(&mut self.builder, exit_block);
        let ghost s5 = builder_state(self.builder);
        assert(s5.blocks.contains_key(exit_block) && s5.blocks[exit_block] != BlockStatus::Filled);
        assert(insertable(s5));

        let v = jit::ins_iconst(&mut self.builder, self.word, 0);
        proof {
            lemma_module_grows_trans(m0, m2, *module);
            lemma_while_builds_on(s0, t3, t4, s1, s2, t6, s3, s4, t8, t9, s5, builder_state(self.builder), header_block, body_block, exit_block);
            let s6 = builder_state(self.builder);
            let d2 = s2.position->0;
            let d4 = s4.position->0;
            let imp = self.imported@;
            assert(grows(s2, s6) && grows(t6, s6) && grows(s4, s6) && grows(t8, s6));
            lemma_computes_grows(s2, s6, imp, m2, *module, condition.to_ast(), condition_value);
            assert(t6.branches.dom().contains(d2));
            assert(t6.branches[d2] == (condition_value, body_block, exit_block));
            assert(t6.branches.submap_of(s6.branches));
            assert(s6.branches.dom().contains(d2));
            assert(s6.branches[d2] == t6.branches[d2]);
            lemma_reached_in_place(s1, s1);
            let p = choose|p: Seq<Block>|
                #[trigger] is_path(s2, p) && p[0] == s1.position->0 && p.last() == s2.position->0 && forall|i: int|
                    1 <= i < p.len() ==> !s1.blocks.contains_key(#[trigger] p[i]);
            lemma_path_grows(s2, s6, p);
            assert(reaches(s6, header_block, d2));
            assert(s3.blocks.contains_key(d2) && body_block != d2);
            lemma_reached_avoids(s3, s4, d2);
            lemma_reaches_avoiding_grows(s4, s6, body_block, d4, d2);
            assert(t8.jumps.contains_key(d4) && t8.jumps[d4].0 == header_block);
            assert(s6.jumps.contains_key(d4) && s6.jumps[d4].0 == header_block);
        }
        Ok(v)
    }

    /// A call: an imported function is called by its identifier; any other callee is declared
    /// as an import taking and returning one integer per argument and result. The arguments are
    /// evaluated left to right; the value is the callee's result.
    #[verifier::rlimit(40)]
    #[verifier::spinoff_prover]
    fn translate_call(&mut self, module: &mut JITModule, node: &ASTNode) -> (r: Result<Value, String>)
        requires
            scoped(node.to_ast(), old(self).variables.names()),
            insertable(builder_state(old(self).builder)),
            imports_declared(old(self).imported@, *old(module)),
            vars_typed(old(self).variables@, builder_var_types(old(self).builder), old(self).word),
            distinct_vars(old(self).variables@),
        ensures
            final(self).variables.names() == old(self).variables.names(),
            !(node.to_ast() is Call) ==> r is Err,
            final(self).imported == old(self).imported,
            final(self).word == old(self).word,
            module_grows(*old(module), *final(module)),
            r matches Ok(v) ==> builds_on(builder_state(old(self).builder), builder_state(final(self).builder))
                && builder_values(final(self).builder).contains(v),
            r matches Ok(v) ==> computes(builder_state(final(self).builder), final(self).imported@, *final(module), node.to_ast(), v),
            final(self).variables@ == old(self).variables@,
            accepted(node.to_ast()) ==> *final(module) == *old(module),
            r matches Ok(v) ==> (word_typed(node.to_ast()) ==> builder_types(final(self).builder).contains_key(v)
                && builder_types(final(self).builder)[v] == final(self).word),
            r is Ok ==> frame_straight(builder_state(old(self).builder), builder_state(final(self).builder), old(self).variables@, node.to_ast()),
        decreases node, 1int,
    {
        let (name, args) = match node {
            ASTNode::Call(name, args) => (name, args),
            _ => {
                return fail("not a call");
            },
        };
        assert(!accepted(node.to_ast()));
        let ghost s0 = builder_state(self.builder);
        let ghost m0 = *module;
        let func_id = match imported_func(self.imported, name) {
            Some(id) => {
                proof {
                    lemma_latest_import_is_imported(self.imported@, name@);
                }
                id
            },
            None => {
                let sig = jit::word_signature(module, self.word, args.len());
                let id = jit::declare_function(module, name.as_str(), FnLinkage::Import, &sig)?;
                proof {
                    assert(module_functions(*module).contains_key(name@));
                    assert(module_functions(*module)[name@] == id);
                }
                id
            },
        };
        let ghost m1 = *module;
        assert(func_id == callee_id(self.imported@, m1, name@));
        assert(latest_import(self.imported@, name@) is None ==> module_functions(m1).contains_key(name@));
        let local_callee = jit::declare_func_in_func(module, func_id, &mut self.builder);
        let ghost s1 = builder_state(self.builder);

        proof {
            lemma_all_scoped(asts(args@), self.variables.names());
            assert forall|i: int| 0 <= i < args@.len() implies decreases_to!(node => #[trigger] args@[i]) by {
                assert(decreases_to!(node => *args));
                assert(decreases_to!(*args => args@));
                assert(decreases_to!(args@ => args@[i]));
            }
            lemma_imports_declared_grow(self.imported@, m0, *module);
            lemma_builds_on_refl(s1);
        }
        let mut arg_values: Vec<Value> = Vec::new();
        let mut i: usize = 0;
        while i < args.len()
            invariant
                0 <= i <= args@.len(),
                self.variables.names() == old(self).variables.names(),
                self.imported == old(self).imported,
                self.word == old(self).word,
                forall|j: int| 0 <= j < asts(args@).len() ==> scoped(#[trigger] asts(args@)[j], self.variables.names()),
                forall|j: int| 0 <= j < args@.len() ==> decreases_to!(node => #[trigger] args@[j]),
                insertable(s1),
                builds_on(s1, builder_state(self.builder)),
                builder_state(self.builder).func_refs.contains_key(local_callee),
                forall|j: int| 0 <= j < arg_values@.len() ==> builder_values(self.builder).contains(#[trigger] arg_values@[j]),
                arg_values@.len() == i,
                forall|j: int| 0 <= j < i ==> computes(builder_state(self.builder), self.imported@, *module, #[trigger] asts(args@)[j], arg_values@[j]),
                builder_state(self.builder).func_refs.contains_key(local_callee),
                builder_state(self.builder).func_refs[local_callee] == func_id,
                func_id == callee_id(self.imported@, *module, name@),
                latest_import(self.imported@, name@) is None ==> module_functions(*module).contains_key(name@),
                !accepted(node.to_ast()),
                self.variables@ == old(self).variables@,
                vars_typed(self.variables@, builder_var_types(self.builder), self.word),
                module_grows(*old(module), *module),
                imports_declared(self.imported@, *module),
                distinct_vars(self.variables@),
                s1.position == s0.position,
                s1.vars == s0.vars,
                node.to_ast() == Ast::Call(name@, asts(args@)),
                straight(node.to_ast()) ==> builder_state(self.builder).position == s1.position,
                straight(node.to_ast()) ==> forall|k: int|
                    0 <= k < self.variables@.len() && !assigns(node.to_ast(), self.variables@[k].0) ==> #[trigger] keeps_var(
                        s1,
                        builder_state(self.builder),
                        self.variables@[k].1,
                    ),
            decreases args@.len() - i,
        {
            assert(asts(args@)[i as int] == args@[i as int].to_ast());
            let ghost si = builder_state(self.builder);
            let ghost mi = *module;
            let v = self.translate_astnode(module, &args[i])?;
            proof {
                let sn = builder_state(self.builder);
                assert forall|j: int| 0 <= j < i implies computes(sn, self.imported@, *module, #[trigger] asts(args@)[j], arg_values@[j]) by {
                    lemma_computes_grows(si, sn, self.imported@, mi, *module, asts(args@)[j], arg_values@[j]);
                }
                assert(sn.func_refs.dom().contains(local_callee));
                if latest_import(self.imported@, name@) is None {
                    assert(module_functions(*module).dom().contains(name@));
                }
                lemma_builds_on_trans(s1, si, builder_state(self.builder));
                let e = node.to_ast();
                let vars = self.variables@;
                assert(asts(args@).len() == args@.len());
                assert(e == Ast::Call(name@, asts(args@)));
                lemma_call_argument(asts(args@), i as int);
                if straight(e) {
                    assert forall|k: int| 0 <= k < vars.len() && !assigns(e, vars[k].0) implies #[trigger] keeps_var(s1, sn, vars[k].1) by {
                        if assigns(asts(args@)[i as int], vars[k].0) {
                            assert(any_assigns(asts(args@), vars[k].0));
                        }
                        assert(keeps_var(si, sn, vars[k].1));
                        assert(keeps_var(s1, si, vars[k].1));
                    }
                }
            }
            arg_values.push(v);
            i = i + 1;
        }
        let ghost s2 = builder_state(self.builder);
        let call = jit::ins_call(&mut self.builder, local_callee, &arg_values);
        let ghost s3 = builder_state(self.builder);
        proof {
            lemma_builds_on_refl(s0);
            assert(builds_on(s0, s1));
            lemma_builds_on_trans(s0, s1, s2);
            lemma_after_inst_builds_on(s2, s3);
            lemma_builds_on_trans(s0, s2, s3);
        }
        let results = jit::inst_results(&self.builder, call);
        if results.len() == 0 {
            return fail("call has no result");
        }
        proof {
            assert forall|j: int| 0 <= j < asts(args@).len() implies computes(s3, self.imported@, *module, #[trigger] asts(args@)[j], s3.calls[call].1[j]) by {
                lemma_computes_grows(s2, s3, self.imported@, *module, *module, asts(args@)[j], arg_values@[j]);
            }
            assert(s3.func_refs[local_callee] == func_id);
            let vars = self.variables@;
            if straight(node.to_ast()) {
                assert forall|k: int| 0 <= k < vars.len() && !assigns(node.to_ast(), vars[k].0) implies #[trigger] keeps_var(s0, s3, vars[k].1) by {
                    assert(keeps_var(s1, s2, vars[k].1));
                }
            }
        }
        Ok(results[0])
    }

    /// The address of the data object `name`, declared exported and writable.
    fn translate_global_data_addr(&mut self, module: &mut JITModule, name: &String) -> (r: Result<Value, String>)
        requires
            insertable(builder_state(old(self).builder)),
            imports_declared(old(self).imported@, *old(module)),
            vars_typed(old(self).variables@, builder_var_types(old(self).builder), old(self).word),
            distinct_vars(old(self).variables@),
        ensures
            final(self).variables.names() == old(self).variables.names(),
            final(self).imported == old(self).imported,
            final(self).word == old(self).word,
            module_grows(*old(module), *final(module)),
            r matches Ok(v) ==> builds_on(builder_state(old(self).builder), builder_state(final(self).builder))
                && builder_values(final(self).builder).contains(v),
            r matches Ok(v) ==> computes(builder_state(final(self).builder), final(self).imported@, *final(module), Ast::GlobalDataAddr(name@), v),
            final(self).variables@ == old(self).variables@,
            r is Ok ==> frame_straight(builder_state(old(self).builder), builder_state(final(self).builder), old(self).variables@, Ast::GlobalDataAddr(name@)),
    {
        let ghost s0 = builder_state(self.builder);
        let sym = jit::declare_data(module, name.as_str(), FnLinkage::Export, true, false)?;
        proof {
            assert(jit::module_data(*module).contains_key(name@));
            assert(jit::module_data(*module)[name@] == sym);
        }
        let local_id = jit::declare_data_in_func(module, sym, &mut self.builder);
        let pointer = jit::pointer_type(jit::target_config(module));
        let v = jit::ins_symbol_value(&mut self.builder, pointer, local_id);
        proof {
            lemma_after_inst_builds_on(s0, builder_state(self.builder));
        }
        Ok(v)
    }
}

} // verus!
