//! The decisions behind the framework's code-generating macros, on a model of the tokens and
//! types they read: where the destination of `dest <- Variant { .. }` ends, which types of a
//! method's parameters look like structs, and how a trait's methods are forwarded to a script.

use vstd::prelude::*;
use crate::from_bevy::console::{str_chars, str_is};

verus! {

/// Whether `n` names a primitive or standard type, which is never taken for a struct.
pub open spec fn primitive_type_name(n: Seq<char>) -> bool {
    n == seq!['i', '8']
        || n == seq!['i', '1', '6']
        || n == seq!['i', '3', '2']
        || n == seq!['i', '6', '4']
        || n == seq!['i', '1', '2', '8']
        || n == seq!['i', 's', 'i', 'z', 'e']
        || n == seq!['u', '8']
        || n == seq!['u', '1', '6']
        || n == seq!['u', '3', '2']
        || n == seq!['u', '6', '4']
        || n == seq!['u', '1', '2', '8']
        || n == seq!['u', 's', 'i', 'z', 'e']
        || n == seq!['f', '3', '2']
        || n == seq!['f', '6', '4']
        || n == seq!['b', 'o', 'o', 'l']
        || n == seq!['c', 'h', 'a', 'r']
        || n == seq!['s', 't', 'r']
        || n == seq!['S', 't', 'r', 'i', 'n', 'g']
        || n == seq!['V', 'e', 'c']
        || n == seq!['O', 'p', 't', 'i', 'o', 'n']
        || n == seq!['R', 'e', 's', 'u', 'l', 't']
        || n == seq!['B', 'o', 'x']
        || n == seq!['R', 'c']
        || n == seq!['A', 'r', 'c']
        || n == seq!['(', ')']
        || n == seq!['N', 'o', 'n', 'e']
        || n == seq!['S', 'o', 'm', 'e']
}

/// Whether `name` names a primitive or standard type: an integer or float type, `bool`,
/// `char`, `str`, `String`, `Vec`, `Option`, `Result`, `Box`, `Rc`, `Arc`, `()`, `None` or
/// `Some`.
pub fn is_primitive_type(name: &str) -> (b: bool)
    ensures
        b == primitive_type_name(name@),
{
    proof {
        assert(['i', '8']@ =~= seq!['i', '8']);
        assert(['i', '1', '6']@ =~= seq!['i', '1', '6']);
        assert(['i', '3', '2']@ =~= seq!['i', '3', '2']);
        assert(['i', '6', '4']@ =~= seq!['i', '6', '4']);
        assert(['i', '1', '2', '8']@ =~= seq!['i', '1', '2', '8']);
        assert(['i', 's', 'i', 'z', 'e']@ =~= seq!['i', 's', 'i', 'z', 'e']);
        assert(['u', '8']@ =~= seq!['u', '8']);
        assert(['u', '1', '6']@ =~= seq!['u', '1', '6']);
        assert(['u', '3', '2']@ =~= seq!['u', '3', '2']);
        assert(['u', '6', '4']@ =~= seq!['u', '6', '4']);
        assert(['u', '1', '2', '8']@ =~= seq!['u', '1', '2', '8']);
        assert(['u', 's', 'i', 'z', 'e']@ =~= seq!['u', 's', 'i', 'z', 'e']);
        assert(['f', '3', '2']@ =~= seq!['f', '3', '2']);
        assert(['f', '6', '4']@ =~= seq!['f', '6', '4']);
        assert(['b', 'o', 'o', 'l']@ =~= seq!['b', 'o', 'o', 'l']);
        assert(['c', 'h', 'a', 'r']@ =~= seq!['c', 'h', 'a', 'r']);
        assert(['s', 't', 'r']@ =~= seq!['s', 't', 'r']);
        assert(['S', 't', 'r', 'i', 'n', 'g']@ =~= seq!['S', 't', 'r', 'i', 'n', 'g']);
        assert(['V', 'e', 'c']@ =~= seq!['V', 'e', 'c']);
        assert(['O', 'p', 't', 'i', 'o', 'n']@ =~= seq!['O', 'p', 't', 'i', 'o', 'n']);
        assert(['R', 'e', 's', 'u', 'l', 't']@ =~= seq!['R', 'e', 's', 'u', 'l', 't']);
        assert(['B', 'o', 'x']@ =~= seq!['B', 'o', 'x']);
        assert(['R', 'c']@ =~= seq!['R', 'c']);
        assert(['A', 'r', 'c']@ =~= seq!['A', 'r', 'c']);
        assert(['(', ')']@ =~= seq!['(', ')']);
        assert(['N', 'o', 'n', 'e']@ =~= seq!['N', 'o', 'n', 'e']);
        assert(['S', 'o', 'm', 'e']@ =~= seq!['S', 'o', 'm', 'e']);
    }
    str_is(name, &['i', '8'])
        || str_is(name, &['i', '1', '6'])
        || str_is(name, &['i', '3', '2'])
        || str_is(name, &['i', '6', '4'])
        || str_is(name, &['i', '1', '2', '8'])
        || str_is(name, &['i', 's', 'i', 'z', 'e'])
        || str_is(name, &['u', '8'])
        || str_is(name, &['u', '1', '6'])
        || str_is(name, &['u', '3', '2'])
        || str_is(name, &['u', '6', '4'])
        || str_is(name, &['u', '1', '2', '8'])
        || str_is(name, &['u', 's', 'i', 'z', 'e'])
        || str_is(name, &['f', '3', '2'])
        || str_is(name, &['f', '6', '4'])
        || str_is(name, &['b', 'o', 'o', 'l'])
        || str_is(name, &['c', 'h', 'a', 'r'])
        || str_is(name, &['s', 't', 'r'])
        || str_is(name, &['S', 't', 'r', 'i', 'n', 'g'])
        || str_is(name, &['V', 'e', 'c'])
        || str_is(name, &['O', 'p', 't', 'i', 'o', 'n'])
        || str_is(name, &['R', 'e', 's', 'u', 'l', 't'])
        || str_is(name, &['B', 'o', 'x'])
        || str_is(name, &['R', 'c'])
        || str_is(name, &['A', 'r', 'c'])
        || str_is(name, &['(', ')'])
        || str_is(name, &['N', 'o', 'n', 'e'])
        || str_is(name, &['S', 'o', 'm', 'e'])
}

/// The shape of a type as written, as far as the analysis reads it.
pub enum TypeShape {
    /// A path such as `a::b::C`: the identifiers of its segments.
    Path(Vec<String>),
    /// A reference `&T` or `&mut T` to the type it refers to.
    Reference(Box<TypeShape>),
    /// Any other type: a tuple, an array, a slice, a pointer, a function pointer, ...
    Other,
}

/// A [TypeShape] with the identifiers as characters.
pub enum TypeShapeView {
    Path(Seq<Seq<char>>),
    Reference(Box<TypeShapeView>),
    Other,
}

impl TypeShape {
    pub open spec fn shape(&self) -> TypeShapeView
        decreases self,
    {
        match self {
            TypeShape::Path(segs) => TypeShapeView::Path(segs@.map_values(|s: String| s@)),
            TypeShape::Reference(t) => TypeShapeView::Reference(Box::new((**t).shape())),
            TypeShape::Other => TypeShapeView::Other,
        }
    }
}

/// Whether a character has the Unicode `Uppercase` property, as `char::is_uppercase` reports
/// it.
pub uninterp spec fn uppercase(c: char) -> bool;

/// `char::is_uppercase`: whether `c` has the Unicode `Uppercase` property. The contract names
/// the result and says no more of it.
#[verifier::external_body]
fn char_is_uppercase(c: char) -> (b: bool)
    ensures
        b == uppercase(c),
{
    c.is_uppercase()
}

/// Whether a single identifier names a struct, given whether its first character is
/// uppercase: it is not a primitive or standard type and it starts with an uppercase letter.
pub open spec fn identifier_names_struct(name: Seq<char>, first_upper: bool) -> bool {
    !primitive_type_name(name) && name.len() > 0 && first_upper
}

/// Whether a type looks like a struct: a path of one segment that names a struct, or a
/// reference to a type that looks like one.
pub open spec fn likely_struct(t: TypeShapeView) -> bool
    decreases t,
{
    match t {
        TypeShapeView::Path(segs) => segs.len() == 1 && identifier_names_struct(
            segs[0],
            segs[0].len() > 0 && uppercase(segs[0][0]),
        ),
        TypeShapeView::Reference(e) => likely_struct(*e),
        TypeShapeView::Other => false,
    }
}

/// Whether the identifier `name` names a struct, given whether its first character is
/// uppercase.
pub fn names_struct(name: &str, first_upper: bool) -> (b: bool)
    ensures
        b == identifier_names_struct(name@, first_upper),
{
    !is_primitive_type(name) && name.unicode_len() > 0 && first_upper
}

/// Whether a type looks like a struct, by the convention that structs and enums are named
/// with an uppercase first letter: a path of one segment whose name is not a primitive or
/// standard type and starts uppercase, or a reference to such a type.
pub fn is_likely_struct(ty: &TypeShape) -> (b: bool)
    ensures
        b == likely_struct(ty.shape()),
    decreases ty,
{
    match ty {
        TypeShape::Path(segs) => {
            if segs.len() != 1 {
                return false;
            }
            let ghost s = segs@.map_values(|s: String| s@);
            assert(s[0] == segs@[0]@);
            let chars = str_chars(segs[0].as_str());
            let first_upper = chars.len() > 0 && char_is_uppercase(chars[0]);
            names_struct(segs[0].as_str(), first_upper)
        },
        TypeShape::Reference(t) => is_likely_struct(t),
        TypeShape::Other => false,
    }
}

/// A token tree as the destination scan reads it: a punctuation character, or anything else
/// (an identifier, a literal, a delimited group).
#[derive(Copy, Clone, Debug, PartialEq, Eq, Structural)]
pub enum TokenKind {
    Punct(char),
    Other,
}

/// Whether the tokens `j - 1` and `j` of `t` spell the arrow `<-`.
pub open spec fn arrow_at(t: Seq<TokenKind>, j: int) -> bool {
    1 <= j < t.len() && t[j] == TokenKind::Punct('-') && t[j - 1] == TokenKind::Punct('<')
}

/// Whether the arrow `<-` ends at `j` and no arrow ends before it.
pub open spec fn first_arrow_at(t: Seq<TokenKind>, j: int) -> bool {
    arrow_at(t, j) && forall|k: int| 0 <= k < j ==> !#[trigger] arrow_at(t, k)
}

/// Whether `f` starts the run of `<` that ends just before `j`.
pub open spec fn lt_run_from(t: Seq<TokenKind>, f: int, j: int) -> bool {
    &&& 0 <= f < j
    &&& forall|k: int| f <= k < j ==> t[k] == TokenKind::Punct('<')
    &&& (f == 0 || t[f - 1] != TokenKind::Punct('<'))
}

/// Finds the destination of `dest <- Variant { .. }` in `tokens`: at the first arrow `<-`,
/// the tokens before it (without the `<` that precede its `-`) end at `split.0`, and the
/// tokens after it start at `split.1`. `None` when there is no arrow.
pub fn prefix(tokens: &Vec<TokenKind>) -> (split: Option<(usize, usize)>)
    ensures
        match split {
            Some((f, r)) => first_arrow_at(tokens@, r - 1) && lt_run_from(tokens@, f as int, r - 1),
            None => forall|j: int| !#[trigger] arrow_at(tokens@, j),
        },
{
    let ghost t = tokens@;
    let mut i: usize = 0;
    let mut first: usize = 0;
    let mut next_to = false;
    while i < tokens.len()
        invariant
            t == tokens@,
            0 <= first <= i <= t.len(),
            next_to == (i >= 1 && t[i - 1] == TokenKind::Punct('<')),
            forall|k: int| 0 <= k < i ==> !#[trigger] arrow_at(t, k),
            forall|k: int| first <= k < i ==> t[k] == TokenKind::Punct('<'),
            first == 0 || t[first - 1] != TokenKind::Punct('<'),
        decreases t.len() - i,
    {
        match tokens[i] {
            TokenKind::Punct('<') => {
                next_to = true;
            },
            TokenKind::Punct('-') if next_to => {
                assert(arrow_at(t, i as int));
                return Some((first, i + 1));
            },
            _ => {
                first = i + 1;
                next_to = false;
            },
        }
        i = i + 1;
    }
    None
}

/// The tokens from `begin` up to `end`, each cloned.
pub fn create_stream<T: Clone>(tokens: &Vec<T>, begin: usize, end: usize) -> (stream: Vec<T>)
    requires
        begin <= end <= tokens@.len(),
    ensures
        stream@.len() == end - begin,
        forall|i: int| 0 <= i < end - begin ==> cloned(tokens@[begin + i], #[trigger] stream@[i]),
{
    let mut stream: Vec<T> = Vec::new();
    let mut cursor = begin;
    while cursor < end
        invariant
            begin <= cursor <= end <= tokens@.len(),
            stream@.len() == cursor - begin,
            forall|i: int| 0 <= i < cursor - begin ==> cloned(tokens@[begin + i], #[trigger] stream@[i]),
        decreases end - cursor,
    {
        stream.push(tokens[cursor].clone());
        cursor = cursor + 1;
    }
    stream
}

/// The pattern of a parameter: a plain identifier, or anything else.
pub enum PatShape {
    Ident(String),
    Other,
}

/// A parameter of a method: the receiver, or a pattern with its type.
pub enum FnInput {
    Receiver,
    Typed(PatShape, TypeShape),
}

/// An item of a trait: a method with its name and parameters, or anything else.
pub enum TraitItemShape {
    Fn(String, Vec<FnInput>),
    Other,
}

/// A parameter as characters: the receiver, or the identifier of its pattern (`None` when the
/// pattern is not an identifier) with its type.
pub enum FnInputView {
    Receiver,
    Typed(Option<Seq<char>>, TypeShapeView),
}

impl View for FnInput {
    type V = FnInputView;

    open spec fn view(&self) -> FnInputView {
        match self {
            FnInput::Receiver => FnInputView::Receiver,
            FnInput::Typed(PatShape::Ident(n), ty) => FnInputView::Typed(Some(n@), ty.shape()),
            FnInput::Typed(PatShape::Other, ty) => FnInputView::Typed(None, ty.shape()),
        }
    }
}

/// How a method is forwarded to a script: its name, the parameters converted to script values
/// before the call, and the arguments of the call, in order.
pub struct MethodForward {
    pub name: String,
    pub converted: Vec<String>,
    pub call_args: Vec<String>,
}

/// A [MethodForward] as characters.
pub struct MethodForwardView {
    pub name: Seq<char>,
    pub converted: Seq<Seq<char>>,
    pub call_args: Seq<Seq<char>>,
}

impl View for MethodForward {
    type V = MethodForwardView;

    open spec fn view(&self) -> MethodForwardView {
        MethodForwardView {
            name: self.name@,
            converted: self.converted@.map_values(|s: String| s@),
            call_args: self.call_args@.map_values(|s: String| s@),
        }
    }
}

/// The arguments of the forwarding call: the parameters named by an identifier, in order; the
/// receiver and parameters with other patterns are left out.
pub open spec fn call_args(inputs: Seq<FnInputView>) -> Seq<Seq<char>>
    decreases inputs.len(),
{
    if inputs.len() == 0 {
        Seq::empty()
    } else {
        call_args(inputs.drop_last()) + match inputs.last() {
            FnInputView::Typed(Some(n), _) => seq![n],
            _ => Seq::empty(),
        }
    }
}

/// The parameters converted to script values before the call: those of the call's arguments
/// whose type looks like a struct, in order.
pub open spec fn converted_args(inputs: Seq<FnInputView>) -> Seq<Seq<char>>
    decreases inputs.len(),
{
    if inputs.len() == 0 {
        Seq::empty()
    } else {
        converted_args(inputs.drop_last()) + match inputs.last() {
            FnInputView::Typed(Some(n), ty) => if likely_struct(ty) {
                seq![n]
            } else {
                Seq::empty()
            },
            _ => Seq::empty(),
        }
    }
}

/// Plans how a method named `name` with parameters `inputs` is forwarded to a script.
pub fn forward_method(name: &String, inputs: &Vec<FnInput>) -> (f: MethodForward)
    ensures
        f@ == (MethodForwardView {
            name: name@,
            converted: converted_args(inputs@.map_values(|i: FnInput| i@)),
            call_args: call_args(inputs@.map_values(|i: FnInput| i@)),
        }),
{
    let ghost all = inputs@.map_values(|i: FnInput| i@);
    let mut converted: Vec<String> = Vec::new();
    let mut args: Vec<String> = Vec::new();
    let mut i: usize = 0;
    assert(all.take(0) =~= Seq::<FnInputView>::empty());
    assert(converted@.map_values(|s: String| s@) =~= Seq::<Seq<char>>::empty());
    assert(args@.map_values(|s: String| s@) =~= Seq::<Seq<char>>::empty());
    while i < inputs.len()
        invariant
            0 <= i <= inputs@.len(),
            all == inputs@.map_values(|i: FnInput| i@),
            converted@.map_values(|s: String| s@) == converted_args(all.take(i as int)),
            args@.map_values(|s: String| s@) == call_args(all.take(i as int)),
        decreases inputs@.len() - i,
    {
        assert(all.take(i + 1).drop_last() =~= all.take(i as int));
        assert(all.take(i + 1).last() == inputs@[i as int]@);
        let ghost c0 = converted@.map_values(|s: String| s@);
        let ghost a0 = args@.map_values(|s: String| s@);
        match &inputs[i] {
            FnInput::Typed(PatShape::Ident(n), ty) => {
                if is_likely_struct(ty) {
                    converted.push(n.clone());
                    assert(converted@.map_values(|s: String| s@) =~= c0 + seq![n@]);
                } else {
                    assert(c0 + Seq::<Seq<char>>::empty() =~= c0);
                }
                args.push(n.clone());
                assert(args@.map_values(|s: String| s@) =~= a0 + seq![n@]);
            },
            _ => {
                assert(c0 + Seq::<Seq<char>>::empty() =~= c0);
                assert(a0 + Seq::<Seq<char>>::empty() =~= a0);
            },
        }
        i = i + 1;
    }
    assert(all.take(inputs@.len() as int) =~= all);
    MethodForward { name: name.clone(), converted, call_args: args }
}

/// The forwarding plans of the methods of a trait, in order; its other items are left out.
pub open spec fn method_forwards(items: Seq<TraitItemShape>) -> Seq<MethodForwardView>
    decreases items.len(),
{
    if items.len() == 0 {
        Seq::empty()
    } else {
        method_forwards(items.drop_last()) + match items.last() {
            TraitItemShape::Fn(name, inputs) => seq![
                MethodForwardView {
                    name: name@,
                    converted: converted_args(inputs@.map_values(|i: FnInput| i@)),
                    call_args: call_args(inputs@.map_values(|i: FnInput| i@)),
                },
            ],
            TraitItemShape::Other => Seq::empty(),
        }
    }
}

/// Analyzes a trait named `trait_name` with items `items` for forwarding to a script: the
/// name of the forwarding struct, the trait's name followed by `ToRhai`, and the plan of each
/// method, in order.
pub fn analyze_trait_methods(trait_name: &String, items: &Vec<TraitItemShape>) -> (r: (String, Vec<MethodForward>))
    ensures
        r.0@ == trait_name@ + seq!['T', 'o', 'R', 'h', 'a', 'i'],
        r.1@.map_values(|f: MethodForward| f@) == method_forwards(items@),
{
    proof {
        reveal_strlit("ToRhai");
    }
    let struct_name = trait_name.clone().concat("ToRhai");
    let mut plans: Vec<MethodForward> = Vec::new();
    let mut i: usize = 0;
    assert(items@.take(0) =~= Seq::<TraitItemShape>::empty());
    assert(plans@.map_values(|f: MethodForward| f@) =~= Seq::<MethodForwardView>::empty());
    while i < items.len()
        invariant
            0 <= i <= items@.len(),
            plans@.map_values(|f: MethodForward| f@) == method_forwards(items@.take(i as int)),
        decreases items@.len() - i,
    {
        assert(items@.take(i + 1).drop_last() =~= items@.take(i as int));
        assert(items@.take(i + 1).last() == items@[i as int]);
        let ghost p0 = plans@.map_values(|f: MethodForward| f@);
        match &items[i] {
            TraitItemShape::Fn(name, inputs) => {
                let f = forward_method(name, inputs);
                plans.push(f);
                assert(plans@.map_values(|f: MethodForward| f@) =~= p0 + seq![f@]);
            },
            TraitItemShape::Other => {
                assert(p0 + Seq::<MethodForwardView>::empty() =~= p0);
            },
        }
        i = i + 1;
    }
    assert(items@.take(items@.len() as int) =~= items@);
    (struct_name, plans)
}

} // verus!
