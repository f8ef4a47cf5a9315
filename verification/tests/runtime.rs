use rlox::ast::Ast;
use rlox::class::{lookup_method, LoxClass, LoxInstance};
use rlox::env::Env;
use rlox::error::RloxError;
use rlox::functions::{Callable, ClassInit, LoxFunction};
use rlox::interpreter::Interpreter;
use rlox::locals::Locals;
use rlox::machine::{Action, ArithOp, Control, Output, Request};
use rlox::object::Object;
use rlox::stmt::Stmt;
use rlox::table::Table;
use rlox::tokens::{Token, TokenType};

fn name(text: &str) -> Token {
    Token::new(TokenType::Ident, text.to_string(), None, 7, 0)
}

fn paren() -> Token {
    Token::new(TokenType::RParen, ")".to_string(), None, 3, 0)
}

fn op(kind: TokenType, text: &str) -> Token {
    Token::new(kind, text.to_string(), None, 3, 0)
}

fn number(x: f64) -> Object {
    Object::Number(x.to_bits())
}

fn text(s: &str) -> Object {
    Object::Str(s.to_string())
}

#[test]
fn table_keeps_one_value_for_each_name() {
    let mut t: Table<Object> = Table::new();
    assert!(t.get(&"a".to_string()).is_none());
    t.insert(&"a".to_string(), number(1.0));
    t.insert(&"b".to_string(), number(2.0));
    t.insert(&"a".to_string(), number(3.0));
    assert!(matches!(t.get(&"a".to_string()), Some(Object::Number(n)) if f64::from_bits(*n) == 3.0));
    assert!(matches!(t.get(&"b".to_string()), Some(Object::Number(n)) if f64::from_bits(*n) == 2.0));
    assert!(t.contains_key(&"b".to_string()));
    assert!(!t.contains_key(&"".to_string()));
    assert_eq!(t.find(&"b".to_string()), Some(1));
    assert_eq!(t.names.len(), 2);
}

#[test]
fn locals_hold_one_depth_for_each_node() {
    let mut l = Locals::new();
    assert_eq!(l.get(5), None);
    l.resolve(5, 2);
    l.resolve(0, 1);
    l.resolve(5, 4);
    assert_eq!(l.get(5), Some(4));
    assert_eq!(l.get(0), Some(1));
    assert_eq!(l.get(3), None);
    assert_eq!(l.get(900), None);
}

#[test]
fn env_defines_and_redefines() {
    let mut env = Env::new();
    env.define(0, &name("a"), number(1.0));
    env.define(0, &name("a"), text("again"));
    assert!(matches!(env.get_at(0, &name("a"), None), Ok(Object::Str(s)) if s == "again"));
    assert!(matches!(env.get_at(0, &name("a"), Some(0)), Ok(Object::Str(_))));
}

#[test]
fn env_looks_in_the_frame_at_the_depth() {
    let mut env = Env::new();
    let outer = env.from(0);
    let inner = env.from(outer);
    env.define(0, &name("g"), number(0.0));
    env.define(outer, &name("a"), number(1.0));
    env.define(inner, &name("a"), number(2.0));
    env.define(outer, &name("g"), number(9.0));
    let read = |r: Result<Object, RloxError>| match r {
        Ok(Object::Number(n)) => f64::from_bits(n),
        other => panic!("{:?}", other),
    };
    assert_eq!(read(env.get_at(inner, &name("a"), Some(0))), 2.0);
    assert_eq!(read(env.get_at(inner, &name("a"), Some(1))), 1.0);
    assert_eq!(read(env.get_at(inner, &name("g"), None)), 0.0);
    assert_eq!(read(env.get_at(inner, &name("g"), Some(1))), 9.0);
    assert_eq!(read(env.get_at(outer, &name("g"), Some(1))), 0.0);
    assert_eq!(env.ancestor(inner, 0), Some(inner));
    assert_eq!(env.ancestor(inner, 1), Some(outer));
    assert_eq!(env.ancestor(inner, 2), Some(0));
    assert_eq!(env.ancestor(inner, 3), None);
    assert_eq!(env.get_global(inner), 0);
}

#[test]
fn env_reports_what_is_missing() {
    let mut env = Env::new();
    let inner = env.from(0);
    env.define(0, &name("g"), number(0.0));
    assert!(matches!(env.get_at(inner, &name("g"), Some(0)),
        Err(RloxError::Runtime(7, msg, near)) if msg == "Undefined variable g" && near == "g"));
    assert!(matches!(env.get_at(inner, &name("x"), None),
        Err(RloxError::Runtime(7, msg, _)) if msg == "Undefined variable x"));
    assert!(matches!(env.get_at(inner, &name("g"), Some(12)),
        Err(RloxError::Runtime(7, msg, near)) if msg == "Ancestor is undefined at depth 12" && near == "g"));
    assert!(matches!(env.assign_at(inner, &name("x"), number(1.0), Some(0)),
        Err(RloxError::Runtime(7, msg, _)) if msg == "Undefined variable x"));
    assert!(matches!(env.assign_at(inner, &name("g"), number(1.0), Some(2)),
        Err(RloxError::Runtime(_, msg, _)) if msg == "Ancestor is undefined at depth 2"));
}

#[test]
fn env_assigns_in_place() {
    let mut env = Env::new();
    let inner = env.from(0);
    env.define(0, &name("a"), number(1.0));
    env.define(inner, &name("a"), number(2.0));
    assert!(matches!(env.assign_at(inner, &name("a"), number(5.0), Some(1)),
        Ok(Object::Number(n)) if f64::from_bits(n) == 5.0));
    assert!(matches!(env.get_at(inner, &name("a"), Some(0)), Ok(Object::Number(n)) if f64::from_bits(n) == 2.0));
    assert!(matches!(env.get_at(inner, &name("a"), None), Ok(Object::Number(n)) if f64::from_bits(n) == 5.0));
    assert!(env.assign_at(inner, &name("a"), text("s"), None).is_ok());
    assert!(matches!(env.get_at(0, &name("a"), Some(0)), Ok(Object::Str(s)) if s == "s"));
    assert_eq!(env.frames.len(), 2);
}

#[test]
fn truthiness_and_equality_of_values() {
    assert!(!Object::Nil.is_truthy());
    assert!(!Object::Bool(false).is_truthy());
    assert!(Object::Bool(true).is_truthy());
    assert!(number(0.0).is_truthy());
    assert!(text("").is_truthy());
    assert!(Object::Class(0).is_truthy());
    assert!(Object::Nil.equals(&Object::Nil));
    assert!(!Object::Nil.equals(&Object::Bool(false)));
    assert!(number(0.0).equals(&number(-0.0)));
    assert!(!number(f64::NAN).equals(&number(f64::NAN)));
    assert!(!number(1.0).equals(&text("1")));
    assert!(text("ab").equals(&text("ab")));
    assert!(Object::Instance(3).equals(&Object::Instance(3)));
    assert!(!Object::Instance(3).equals(&Object::Instance(4)));
    assert!(!Object::Instance(3).equals(&Object::Class(3)));
    let f = Callable::new(1, 2, false);
    assert!(Object::Func(f).equals(&Object::Func(Callable::new(1, 2, false))));
    assert!(!Object::Func(f).equals(&Object::Func(Callable::new(4, 2, false))));
    assert!(!Object::Func(f).equals(&Object::Func(Callable::init(1))));
    assert!(matches!(Object::concat(&"ab".to_string(), &"".to_string()), Object::Str(s) if s == "ab"));
}

fn binary(kind: TokenType, lexeme: &str, lhs: Object, rhs: Object) -> (Control, Action) {
    Interpreter::visit_binary(&op(kind, lexeme), &lhs, &rhs)
}

#[test]
fn binary_operators_on_numbers_ask_the_host() {
    let cases = [
        (TokenType::Plus, "+", ArithOp::Add),
        (TokenType::Minus, "-", ArithOp::Sub),
        (TokenType::Star, "*", ArithOp::Mul),
        (TokenType::Slash, "/", ArithOp::Div),
    ];
    for (kind, lexeme, arith) in cases {
        let (control, action) = binary(kind, lexeme, number(6.0), number(1.5));
        assert!(matches!(control, Control::Await(Request::Arith(o, a, b))
            if o == arith && f64::from_bits(a) == 6.0 && f64::from_bits(b) == 1.5));
        assert!(matches!(action, Action::Ask(Request::Arith(o, a, b))
            if o == arith && f64::from_bits(a) == 6.0 && f64::from_bits(b) == 1.5));
    }
}

#[test]
fn division_refuses_both_zeros() {
    for zero in [0.0, -0.0] {
        let (control, action) = binary(TokenType::Slash, "/", number(1.0), number(zero));
        assert!(matches!(control, Control::Raise(RloxError::Runtime(3, msg, near))
            if msg == "Division by zero" && near == "/"));
        assert!(matches!(action, Action::Proceed));
    }
    let (control, _) = binary(TokenType::Slash, "/", number(0.0), number(5e-324));
    assert!(matches!(control, Control::Await(_)));
}

#[test]
fn plus_joins_strings_and_refuses_a_mix() {
    let (control, action) = binary(TokenType::Plus, "+", text("ab"), text("cd"));
    assert!(matches!(control, Control::Value(Object::Str(s)) if s == "abcd"));
    assert!(matches!(action, Action::Proceed));
    for (l, r) in [(text("a"), number(1.0)), (number(1.0), text("a")), (Object::Nil, Object::Nil)] {
        let (control, _) = binary(TokenType::Plus, "+", l, r);
        assert!(matches!(control, Control::Raise(RloxError::Runtime(3, msg, _)) if msg == "Cannot add mixed types"));
    }
}

#[test]
fn comparisons_follow_binary64() {
    let samples = [0.0, -0.0, 1.0, -1.0, 2.5, f64::INFINITY, f64::NEG_INFINITY, f64::NAN];
    for a in samples {
        for b in samples {
            let expect = [
                (TokenType::Less, "<", a < b),
                (TokenType::LessEqual, "<=", a <= b),
                (TokenType::Greater, ">", a > b),
                (TokenType::GreaterEqual, ">=", a >= b),
                (TokenType::EqualEqual, "==", a == b),
                (TokenType::BangEqual, "!=", a != b),
            ];
            for (kind, lexeme, want) in expect {
                let (control, _) = binary(kind, lexeme, number(a), number(b));
                assert!(matches!(control, Control::Value(Object::Bool(got)) if got == want),
                    "{} {} {}", a, lexeme, b);
            }
        }
    }
    let (control, _) = binary(TokenType::Less, "<", number(1.0), Object::Nil);
    assert!(matches!(control, Control::Raise(RloxError::Runtime(_, msg, _)) if msg == "Cannot compare types"));
    let (control, _) = binary(TokenType::Comma, ",", number(1.0), number(1.0));
    assert!(matches!(control, Control::Raise(RloxError::Runtime(_, msg, _)) if msg == "Invalid binary operator"));
}

#[test]
fn unary_operators() {
    let c = Interpreter::visit_unary(&op(TokenType::Minus, "-"), &number(2.0));
    assert!(matches!(c, Control::Value(Object::Number(n)) if f64::from_bits(n) == -2.0));
    let c = Interpreter::visit_unary(&op(TokenType::Minus, "-"), &number(0.0));
    assert!(matches!(c, Control::Value(Object::Number(n)) if n == (-0.0f64).to_bits()));
    let c = Interpreter::visit_unary(&op(TokenType::Bang, "!"), &Object::Nil);
    assert!(matches!(c, Control::Value(Object::Bool(true))));
    let c = Interpreter::visit_unary(&op(TokenType::Bang, "!"), &number(0.0));
    assert!(matches!(c, Control::Value(Object::Bool(false))));
    let c = Interpreter::visit_unary(&op(TokenType::Minus, "-"), &text("a"));
    assert!(matches!(c, Control::Raise(RloxError::Runtime(3, msg, _)) if msg == "Cannot negate non-numeric value"));
    let c = Interpreter::visit_unary(&op(TokenType::Plus, "+"), &number(1.0));
    assert!(matches!(c, Control::Raise(RloxError::Runtime(3, msg, _)) if msg == "Invalid unary operator"));
}

#[test]
fn methods_are_found_up_the_chain() {
    let mut base: Table<Object> = Table::new();
    base.insert(&"m".to_string(), Object::Func(Callable::new(0, 10, false)));
    base.insert(&"n".to_string(), Object::Func(Callable::new(0, 11, false)));
    let mut derived: Table<Object> = Table::new();
    derived.insert(&"m".to_string(), Object::Func(Callable::new(0, 20, false)));
    let classes = vec![
        LoxClass::new("A".to_string(), None, base),
        LoxClass::new("B".to_string(), Some(0), derived),
    ];
    let decl = |class: usize, name: &str| lookup_method(&classes, class, &name.to_string()).map(|f| f.decl);
    assert_eq!(decl(1, "m"), Some(20));
    assert_eq!(decl(1, "n"), Some(11));
    assert_eq!(decl(0, "m"), Some(10));
    assert_eq!(decl(1, "x"), None);
    assert_eq!(decl(7, "m"), None);
    let i = LoxInstance::new(1);
    assert_eq!(i.class, 1);
    assert!(i.fields.names.is_empty());
    assert_eq!(LoxFunction::new(3, 4, true), LoxFunction { decl: 4, closure: 3, is_initializer: true });
    assert_eq!(Callable::init(2), Callable::Init(ClassInit(2)));
}

#[test]
fn a_new_machine_holds_clock_and_rests() {
    let ast = Ast::new();
    let mut i = Interpreter::new(false);
    assert!(matches!(i.env.get_at(0, &name("clock"), None), Ok(Object::Func(Callable::Clock))));
    assert!(matches!(i.step(&ast), Action::Idle));
    assert!(matches!(i.run(&ast, 10), Action::Idle));
    assert_eq!(i.arity(&ast, &Object::Func(Callable::Clock)), Some(0));
    assert_eq!(i.arity(&ast, &Object::Nil), None);
    assert_eq!(i.arity(&ast, &Object::Class(4)), Some(0));
    i.reply(1);
    assert!(matches!(i.control, Control::Idle));
    i.resolve(3, 1);
    assert_eq!(i.locals.get(3), Some(1));
}

#[test]
fn a_machine_with_a_bad_reference_fails_cleanly() {
    let ast = Ast::new();
    let mut i = Interpreter::new(false);
    assert!(i.load(5));
    assert!(!i.load(6));
    assert!(matches!(i.step(&ast), Action::Proceed));
    assert!(matches!(i.step(&ast), Action::Failed(RloxError::Runtime(0, msg, _)) if msg == "Bad reference"));
    assert!(matches!(i.step(&ast), Action::Idle));
    let a = i.call_dispatch(&ast, &Object::Func(Callable::new(9, 9, false)), &paren(), Vec::new());
    assert!(matches!(a, Action::Proceed));
    assert!(matches!(i.control, Control::Raise(_)));
}

#[test]
fn values_are_displayed() {
    let i = Interpreter::new(false);
    let shown = |v: Object| match i.display(&v) {
        Output::Text(s) => s,
        Output::Number(n) => format!("{}", f64::from_bits(n)),
    };
    assert_eq!(shown(Object::Nil), "nil");
    assert_eq!(shown(Object::Bool(true)), "true");
    assert_eq!(shown(Object::Bool(false)), "false");
    assert_eq!(shown(number(2.5)), "2.5");
    assert_eq!(shown(text("raw \"text\"")), "raw \"text\"");
    assert_eq!(shown(Object::Func(Callable::Clock)), "<function>");
    assert_eq!(shown(Object::Func(Callable::new(0, 0, false))), "<function>");
}

#[test]
fn env_finds_the_nearest_binding() {
    let mut env = Env::new();
    let outer = env.from(0);
    let inner = env.from(outer);
    env.define(0, &name("g"), number(0.0));
    env.define(outer, &name("a"), number(1.0));
    env.define(inner, &name("b"), number(2.0));
    let read = |r: Result<Object, RloxError>| match r {
        Ok(Object::Number(n)) => f64::from_bits(n),
        other => panic!("{:?}", other),
    };
    assert_eq!(read(env.get(inner, &name("b"))), 2.0);
    assert_eq!(read(env.get(inner, &name("a"))), 1.0);
    assert_eq!(read(env.get(inner, &name("g"))), 0.0);
    assert!(matches!(env.get(outer, &name("b")),
        Err(RloxError::Runtime(7, msg, _)) if msg == "Undefined variable b"));
    assert_eq!(read(env.assign(inner, &name("a"), number(5.0))), 5.0);
    assert_eq!(read(env.get_at(outer, &name("a"), Some(0))), 5.0);
    assert!(env.get_at(inner, &name("a"), Some(0)).is_err());
    assert!(matches!(env.assign(inner, &name("x"), number(1.0)),
        Err(RloxError::Runtime(7, msg, _)) if msg == "Undefined variable x"));
}

#[test]
fn callables_act_through_the_machine() {
    let ast = Ast::new();
    let mut i = Interpreter::new(false);
    assert_eq!(Callable::Clock.arity(&i, &ast), 0);
    assert_eq!(Callable::init(3).arity(&i, &ast), 0);
    assert_eq!(LoxFunction::new(0, 9, false).arity(&ast), 0);
    assert!(matches!(
        Callable::Clock.call(&mut i, &ast, &paren(), Vec::new()),
        Action::Ask(Request::Clock)
    ));
    assert!(matches!(i.control, Control::Await(Request::Clock)));
    i.reply(7);
    assert!(matches!(i.control, Control::Value(Object::Number(7))));
    let frames = i.env.frames.len();
    let bound = LoxFunction::new(0, 4, true).bind(&mut i, 2);
    assert_eq!(bound, LoxFunction { decl: 4, closure: frames, is_initializer: true });
    assert!(matches!(i.env.get_at(frames, &name("this"), Some(0)), Ok(Object::Instance(2))));
    assert_eq!(i.env.ancestor(frames, 1), Some(0));
    let again = Callable::new(0, 4, false).bind(&mut i, 5);
    assert_eq!(again, Callable::new(frames + 1, 4, false));
    assert!(matches!(ClassInit(0).call(&mut i, &ast, &paren(), Vec::new()), Action::Proceed));
    assert!(matches!(i.control, Control::Raise(_)));
}

/// Whether the machine has just raised the arity error of a call closed at
/// line 3.
fn refused(i: &Interpreter, takes: usize, got: usize) -> bool {
    match &i.control {
        Control::Raise(RloxError::Runtime(3, msg, near)) => {
            *msg == format!("expected {} arguments but got {}", takes, got) && near == ")"
        },
        _ => false,
    }
}

#[test]
fn a_class_without_init_takes_no_arguments() {
    let ast = Ast::new();
    let mut i = Interpreter::new(false);
    i.classes.push(LoxClass::new("A".to_string(), None, Table::new()));
    let class = Object::Class(0);
    assert_eq!(i.arity(&ast, &class), Some(0));
    assert!(matches!(i.call_dispatch(&ast, &class, &paren(), vec![Object::Nil]), Action::Proceed));
    assert!(refused(&i, 0, 1));
    assert_eq!(i.instances.len(), 0);
    assert!(matches!(i.instantiate(&ast, 0, &paren(), vec![number(1.0), number(2.0)]), Action::Proceed));
    assert!(refused(&i, 0, 2));
    assert_eq!(i.instances.len(), 0);
    assert!(matches!(ClassInit(0).call(&mut i, &ast, &paren(), vec![Object::Nil]), Action::Proceed));
    assert!(refused(&i, 0, 1));
    assert!(matches!(
        Callable::init(0).call(&mut i, &ast, &paren(), vec![Object::Nil]),
        Action::Proceed
    ));
    assert!(refused(&i, 0, 1));
    assert_eq!(i.instances.len(), 0);
    assert!(matches!(i.call_dispatch(&ast, &class, &paren(), Vec::new()), Action::Proceed));
    assert!(matches!(i.control, Control::Value(Object::Instance(0))));
    assert_eq!(i.instances.len(), 1);
}

#[test]
fn clock_takes_no_arguments() {
    let ast = Ast::new();
    let mut i = Interpreter::new(false);
    let clock = Object::Func(Callable::Clock);
    assert!(matches!(i.call_dispatch(&ast, &clock, &paren(), vec![number(1.0)]), Action::Proceed));
    assert!(refused(&i, 0, 1));
    assert!(matches!(
        Callable::Clock.call(&mut i, &ast, &paren(), vec![Object::Nil, Object::Nil]),
        Action::Proceed
    ));
    assert!(refused(&i, 0, 2));
}

#[test]
fn a_function_takes_one_argument_for_each_parameter() {
    let mut ast = Ast::new();
    let body = ast.add_stmt(Stmt::Block(Vec::new()));
    let decl = ast.add_stmt(Stmt::Function(name("f"), vec![name("a"), name("b")], body));
    let f = LoxFunction::new(0, decl, false);
    let mut i = Interpreter::new(false);
    let frames = i.env.frames.len();
    assert_eq!(f.arity(&ast), 2);
    assert!(matches!(i.call_function(&ast, f, &paren(), vec![number(1.0)]), Action::Proceed));
    assert!(refused(&i, 2, 1));
    assert!(matches!(
        f.call(&mut i, &ast, &paren(), vec![Object::Nil, Object::Nil, Object::Nil]),
        Action::Proceed
    ));
    assert!(refused(&i, 2, 3));
    let callee = Object::Func(Callable::Runtime(f));
    assert!(matches!(i.call_dispatch(&ast, &callee, &paren(), Vec::new()), Action::Proceed));
    assert!(refused(&i, 2, 0));
    assert_eq!(i.env.frames.len(), frames);
    assert_eq!(i.stack.len(), 0);
    let a = i.call_dispatch(&ast, &callee, &paren(), vec![number(1.0), number(2.0)]);
    assert!(matches!(a, Action::Proceed));
    assert!(matches!(i.control, Control::Exec(s, frame) if s == body && frame == frames));
    assert_eq!(i.env.frames.len(), frames + 1);
    assert!(matches!(i.env.get_at(frames, &name("b"), Some(0)),
        Ok(Object::Number(n)) if f64::from_bits(n) == 2.0));
}

#[test]
fn what_is_no_function_and_no_class_is_not_called() {
    let ast = Ast::new();
    let mut i = Interpreter::new(false);
    assert!(matches!(i.call_dispatch(&ast, &number(1.0), &paren(), Vec::new()), Action::Proceed));
    assert!(matches!(&i.control,
        Control::Raise(RloxError::Runtime(3, msg, near))
            if msg == "Can only call functions and classes" && near == ")"));
    assert!(matches!(i.call_dispatch(&ast, &Object::Nil, &paren(), vec![Object::Nil]), Action::Proceed));
    assert!(matches!(&i.control,
        Control::Raise(RloxError::Runtime(3, msg, _)) if msg == "Can only call functions and classes"));
}
