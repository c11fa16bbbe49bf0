use yunfengzh_monolith::macro_utils::{
    analyze_trait_methods, create_stream, forward_method, is_likely_struct, is_primitive_type, names_struct, prefix,
    FnInput, PatShape, TraitItemShape, TypeShape,
};
use yunfengzh_monolith::macro_utils::TokenKind::{Other, Punct};

fn path(segs: &[&str]) -> TypeShape {
    TypeShape::Path(segs.iter().map(|s| s.to_string()).collect())
}

fn typed(name: &str, ty: TypeShape) -> FnInput {
    FnInput::Typed(PatShape::Ident(name.to_string()), ty)
}

fn strings(v: &[&str]) -> Vec<String> {
    v.iter().map(|s| s.to_string()).collect()
}

#[test]
fn primitive_types() {
    for n in ["i8", "i128", "usize", "f64", "bool", "char", "str", "String", "Vec", "Option", "Result", "Box", "Rc", "Arc", "()", "None", "Some"] {
        assert!(is_primitive_type(n), "{}", n);
    }
    for n in ["Player", "i9", "string", "", "HashMap", "u256"] {
        assert!(!is_primitive_type(n), "{}", n);
    }
}

#[test]
fn likely_structs() {
    assert!(is_likely_struct(&path(&["Player"])));
    assert!(is_likely_struct(&TypeShape::Reference(Box::new(path(&["Monster"])))));
    assert!(is_likely_struct(&TypeShape::Reference(Box::new(TypeShape::Reference(Box::new(path(&["Énorme"])))))));
    assert!(!is_likely_struct(&path(&["player"])));
    assert!(!is_likely_struct(&path(&["String"])));
    assert!(!is_likely_struct(&path(&["Vec"])));
    assert!(!is_likely_struct(&path(&["i32"])));
    assert!(!is_likely_struct(&path(&["game", "Player"])));
    assert!(!is_likely_struct(&path(&["_Hidden"])));
    assert!(!is_likely_struct(&TypeShape::Other));
}

#[test]
fn names_struct_given_the_first_letter() {
    assert!(names_struct("Player", true));
    assert!(!names_struct("Player", false));
    assert!(!names_struct("Option", true));
    assert!(!names_struct("", true));
}

#[test]
fn prefix_finds_the_first_arrow() {
    // chan <- SyncEntity { .. }
    assert_eq!(prefix(&vec![Other, Punct('<'), Punct('-'), Other, Other]), Some((1, 3)));
    // ctx . chan <- SyncEntity { .. }
    assert_eq!(prefix(&vec![Other, Punct('.'), Other, Punct('<'), Punct('-'), Other, Other]), Some((3, 5)));
    // a << - b: every `<` before the `-` is left out.
    assert_eq!(prefix(&vec![Other, Punct('<'), Punct('<'), Punct('-'), Other]), Some((1, 4)));
    // a < b <- c: the first `<` is not followed by `-`.
    assert_eq!(prefix(&vec![Other, Punct('<'), Other, Punct('<'), Punct('-'), Other]), Some((3, 5)));
    // a - < - b
    assert_eq!(prefix(&vec![Other, Punct('-'), Punct('<'), Punct('-'), Other]), Some((2, 4)));
    // <- at the very start
    assert_eq!(prefix(&vec![Punct('<'), Punct('-')]), Some((0, 2)));
    assert_eq!(prefix(&vec![Other, Punct('-'), Punct('<'), Other]), None);
    assert_eq!(prefix(&vec![]), None);
}

#[test]
fn create_stream_copies_the_range() {
    let tokens = strings(&["a", "b", "c", "d"]);
    assert_eq!(create_stream(&tokens, 1, 3), strings(&["b", "c"]));
    assert!(create_stream(&tokens, 2, 2).is_empty());
    assert_eq!(create_stream(&tokens, 0, 4), tokens);
}

#[test]
fn forward_method_converts_struct_parameters() {
    let inputs = vec![
        FnInput::Receiver,
        typed("m", path(&["Monster"])),
        typed("cnt", path(&["u32"])),
        FnInput::Typed(PatShape::Other, path(&["Player"])),
        typed("who", TypeShape::Reference(Box::new(path(&["Player"])))),
    ];
    let f = forward_method(&"on_player_die".to_string(), &inputs);
    assert_eq!(f.name, "on_player_die");
    assert_eq!(f.converted, strings(&["m", "who"]));
    assert_eq!(f.call_args, strings(&["m", "cnt", "who"]));
}

#[test]
fn analyze_trait_methods_plans_every_method() {
    let items = vec![
        TraitItemShape::Fn("on_die".to_string(), vec![FnInput::Receiver, typed("m", path(&["Monster"]))]),
        TraitItemShape::Other,
        TraitItemShape::Fn("on_tick".to_string(), vec![FnInput::Receiver, typed("n", path(&["i64"]))]),
    ];
    let (name, plans) = analyze_trait_methods(&"Events".to_string(), &items);
    assert_eq!(name, "EventsToRhai");
    assert_eq!(plans.len(), 2);
    assert_eq!(plans[0].name, "on_die");
    assert_eq!(plans[0].converted, strings(&["m"]));
    assert_eq!(plans[0].call_args, strings(&["m"]));
    assert_eq!(plans[1].name, "on_tick");
    assert!(plans[1].converted.is_empty());
    assert_eq!(plans[1].call_args, strings(&["n"]));
}
