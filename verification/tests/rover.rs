use cranelift_jit::{JITBuilder, JITModule};
use cranelift_module::FuncId;
use yunfengzh_monolith::rover::ast::ASTNode;
use yunfengzh_monolith::rover::parser::function;
use yunfengzh_monolith::rover::translate::{is_well_scoped, parse_i32, variable_names};
use yunfengzh_monolith::rover::Rover;

const OOF_CODE: &str = r#"
            fn oof(a, b) -> (c) {
                let c = 72 + a;
                c = calla3(b + c);
            }
        "#;

const FOO_CODE: &str = r#"
            fn foo(a, b) -> (c) {
                let c = 27;
                c = c + callab(1, 1);
                c = c + oof(6, 7);
                c
            }
        "#;

fn ident(n: &ASTNode, name: &str) -> bool {
    matches!(n, ASTNode::Identifier(x) if x == name)
}

fn lit(n: &ASTNode, value: &str) -> bool {
    matches!(n, ASTNode::Literal(x) if x == value)
}

fn strings(v: &[&str]) -> Vec<String> {
    v.iter().map(|s| s.to_string()).collect()
}

fn new_rover() -> Rover {
    let builder = JITBuilder::new(cranelift_module::default_libcall_names()).unwrap();
    Rover::new(JITModule::new(builder))
}

// Finalizes the module's code and tells whether the function has machine code.
fn has_code(rover: &mut Rover, id: FuncId) -> bool {
    let module = rover.module_mut();
    module.finalize_definitions().unwrap();
    !module.get_finalized_function(id).is_null()
}

#[test]
fn parses_oof() {
    let (name, params, ret, body) = function(OOF_CODE).unwrap();
    assert_eq!(name, "oof");
    assert_eq!(params, strings(&["a", "b"]));
    assert_eq!(ret, "c");
    assert_eq!(body.len(), 2);
    match &body[0] {
        ASTNode::Assign(n, e) => {
            assert_eq!(n, "c");
            match &**e {
                ASTNode::Add(l, r) => assert!(lit(l, "72") && ident(r, "a")),
                _ => panic!("expected an addition"),
            }
        }
        _ => panic!("expected an assignment"),
    }
    match &body[1] {
        ASTNode::Assign(n, e) => {
            assert_eq!(n, "c");
            match &**e {
                ASTNode::Call(f, args) => {
                    assert_eq!(f, "calla3");
                    assert_eq!(args.len(), 1);
                    match &args[0] {
                        ASTNode::Add(l, r) => assert!(ident(l, "b") && ident(r, "c")),
                        _ => panic!("expected an addition"),
                    }
                }
                _ => panic!("expected a call"),
            }
        }
        _ => panic!("expected an assignment"),
    }
}

#[test]
fn parses_foo() {
    let (name, params, ret, body) = function(FOO_CODE).unwrap();
    assert_eq!(name, "foo");
    assert_eq!(params, strings(&["a", "b"]));
    assert_eq!(ret, "c");
    assert_eq!(body.len(), 4);
    assert!(matches!(&body[0], ASTNode::Assign(n, e) if n == "c" && lit(e, "27")));
    match &body[2] {
        ASTNode::Assign(_, e) => match &**e {
            ASTNode::Add(l, r) => {
                assert!(ident(l, "c"));
                assert!(matches!(&**r, ASTNode::Call(f, args) if f == "oof" && args.len() == 2
                    && lit(&args[0], "6") && lit(&args[1], "7")));
            }
            _ => panic!("expected an addition"),
        },
        _ => panic!("expected an assignment"),
    }
    assert!(ident(&body[3], "c"));
}

#[test]
fn operators_bind_by_precedence_and_to_the_right() {
    let code = "fn f(a) -> (r) {\n r = 1 + 2 * 3\n r = 10 - 2 - 3\n r = a < 1 || a == 2 && a != 3\n}\n";
    let (_, _, _, body) = function(code).unwrap();
    assert_eq!(body.len(), 3);
    match &body[0] {
        ASTNode::Assign(_, e) => match &**e {
            ASTNode::Add(l, r) => {
                assert!(lit(l, "1"));
                assert!(matches!(&**r, ASTNode::Mul(x, y) if lit(x, "2") && lit(y, "3")));
            }
            _ => panic!("expected an addition"),
        },
        _ => panic!("expected an assignment"),
    }
    match &body[1] {
        ASTNode::Assign(_, e) => match &**e {
            ASTNode::Sub(l, r) => {
                assert!(lit(l, "10"));
                assert!(matches!(&**r, ASTNode::Sub(x, y) if lit(x, "2") && lit(y, "3")));
            }
            _ => panic!("expected a subtraction"),
        },
        _ => panic!("expected an assignment"),
    }
    match &body[2] {
        ASTNode::Assign(_, e) => match &**e {
            ASTNode::Or(l, r) => {
                assert!(matches!(&**l, ASTNode::Lt(..)));
                assert!(matches!(&**r, ASTNode::And(x, y)
                    if matches!(&**x, ASTNode::Eq(..)) && matches!(&**y, ASTNode::Ne(..))));
            }
            _ => panic!("expected a disjunction"),
        },
        _ => panic!("expected an assignment"),
    }
}

#[test]
fn parses_conditionals_loops_and_addresses() {
    let code = "fn g(n) -> (r) {\n while n > 0 {\n r = r + n\n n = n - 1\n }\n if r >= 10 {\n r = &buf\n } else {\n r = 0\n }\n}\n";
    let (_, _, _, body) = function(code).unwrap();
    assert_eq!(body.len(), 2);
    match &body[0] {
        ASTNode::WhileLoop(c, b) => {
            assert!(matches!(&**c, ASTNode::Gt(..)));
            assert_eq!(b.len(), 2);
        }
        _ => panic!("expected a loop"),
    }
    match &body[1] {
        ASTNode::IfElse(c, t, f) => {
            assert!(matches!(&**c, ASTNode::Ge(..)));
            assert!(matches!(&t[0], ASTNode::Assign(_, e) if matches!(&**e, ASTNode::GlobalDataAddr(x) if x == "buf")));
            assert!(matches!(&f[0], ASTNode::Assign(_, e) if lit(e, "0")));
        }
        _ => panic!("expected a conditional"),
    }
}

#[test]
fn rejects_malformed_functions() {
    assert!(function("fn f(a) -> (r) {\n r = a +\n}\n").is_none());
    assert!(function("fn f(a) -> r {\n r = a\n}\n").is_none());
    assert!(function("fn f(a) -> (r) {\n r = a\n}").is_none());
    assert!(function("").is_none());
    assert!(function("fn f() -> (r) {\n}\n extra").is_none());
}

#[test]
fn parses_an_empty_body() {
    let (name, params, ret, body) = function("fn f() -> (r) {\n}\n").unwrap();
    assert_eq!(name, "f");
    assert!(params.is_empty());
    assert_eq!(ret, "r");
    assert!(body.is_empty());
}

#[test]
fn i32_literals() {
    assert_eq!(parse_i32("0"), Some(0));
    assert_eq!(parse_i32("2147483647"), Some(i32::MAX));
    assert_eq!(parse_i32("-2147483648"), Some(i32::MIN));
    assert_eq!(parse_i32("+12"), Some(12));
    assert_eq!(parse_i32("2147483648"), None);
    assert_eq!(parse_i32("12a"), None);
    assert_eq!(parse_i32("-"), None);
    assert_eq!(parse_i32(""), None);
}

#[test]
fn variables_in_order_of_first_appearance() {
    let (_, params, ret, body) = function(FOO_CODE).unwrap();
    assert_eq!(variable_names(&params, &ret, &body), strings(&["a", "b", "c"]));
    let code = "fn h(x, x) -> (y) {\n if x {\n t = 1\n } else {\n u = 2\n }\n while t {\n t = 0\n v = 1\n }\n}\n";
    let (_, params, ret, body) = function(code).unwrap();
    assert_eq!(variable_names(&params, &ret, &body), strings(&["x", "y", "t", "u", "v"]));
}

#[test]
fn scoping() {
    let (_, params, ret, body) = function(OOF_CODE).unwrap();
    assert!(is_well_scoped(&params, &ret, &body));
    let (_, params, ret, body) = function("fn f(a) -> (r) {\n r = b\n}\n").unwrap();
    assert!(!is_well_scoped(&params, &ret, &body));
    let (_, params, ret, body) = function("fn f(a) -> (r) {\n r = 99999999999\n}\n").unwrap();
    assert!(!is_well_scoped(&params, &ret, &body));
}

#[test]
fn rover_loop() {
    let mut rover = new_rover();
    let code = "fn sum(n) -> (r) {\n while n > 0 {\n r = r + n\n n = n - 1\n }\n if r >= 10 {\n r = r * 2\n } else {\n r = r / 2\n }\n}\n";
    let sum = rover.compile(code).unwrap();
    let id = rover.compile("fn id(a) -> (r) {\n r = a\n}\n").unwrap();
    assert_ne!(sum, id);
    assert!(has_code(&mut rover, sum));
    assert!(has_code(&mut rover, id));
}

#[test]
fn refuses_unparsable_code() {
    let mut rover = new_rover();
    assert!(rover.compile("fn broken(").is_err());
}

#[test]
fn refuses_a_second_definition() {
    let mut rover = new_rover();
    assert!(rover.compile("fn twice(a) -> (r) {\n r = a + 1\n}\n").is_ok());
    assert!(rover.compile("fn twice(a) -> (r) {\n r = a + 2\n}\n").is_err());
    assert!(rover.compile("fn other(a) -> (r) {\n r = a\n}\n").is_ok());
}

#[test]
fn imports_functions() {
    let mut rover = new_rover();
    assert!(rover.import_func("labs".to_string(), strings(&["a"]), "c".to_string()).is_ok());
    let absdiff = rover.compile("fn absdiff(a, b) -> (c) {\n c = labs(a - b)\n}\n").unwrap();
    assert!(has_code(&mut rover, absdiff));
}

// Field syntax is not part of the grammar: `a.b` does not parse.
#[test]
fn rover_field() {
    assert!(function("fn f(a) -> (r) {\n r = a.b\n}\n").is_none());
}

// The calls of the original scenario, with a host function the dynamic linker resolves.
#[test]
fn rover_call_compiles() {
    let mut rover = new_rover();
    rover.import_func("labs".to_string(), strings(&["a"]), "c".to_string()).unwrap();
    let oof = rover.compile("fn oof(a, b) -> (c) {\n let c = 72 + a;\n c = labs(b + c);\n}\n").unwrap();
    let foo = rover
        .compile("fn foo(a, b) -> (c) {\n let c = 27;\n c = c + labs(1);\n c = c + oof(6, 7);\n c\n}\n")
        .unwrap();
    assert_ne!(oof, foo);
    assert!(has_code(&mut rover, oof));
    assert!(has_code(&mut rover, foo));
}

// An input that is not a function is refused with its message, and the engine can still compile.
#[test]
fn refuses_unparsable_code_with_its_message() {
    let mut rover = new_rover();
    assert_eq!(rover.compile("fn broken(").unwrap_err(), "the input is not a function");
    let id = rover.compile("fn one(a) -> (r) {\n r = 1\n}\n").unwrap();
    assert!(has_code(&mut rover, id));
}
