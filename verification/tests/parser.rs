use rlox::ast::Ast;
use rlox::error::RloxError;
use rlox::expr::Expr;
use rlox::locals::Locals;
use rlox::parser::Parser;
use rlox::resolver::Resolver;
use rlox::scanner::Scanner;
use rlox::stmt::Stmt;
use rlox::tokens::{Literal, TokenType};

fn parse(src: &str) -> (Ast, Vec<Result<usize, RloxError>>) {
    let mut parser = Parser::new(Scanner::new(src));
    let mut all = Vec::new();
    while let Some(r) = parser.next() {
        all.push(r);
        assert!(all.len() <= src.len() + 1);
    }
    (parser.ast, all)
}

fn one(src: &str) -> (Ast, usize) {
    let (ast, all) = parse(src);
    assert_eq!(all.len(), 1, "{:?}", all);
    let id = *all[0].as_ref().unwrap();
    (ast, id)
}

/// The expression `e` written back with every grouping shown.
fn show(ast: &Ast, e: usize) -> String {
    match ast.expr(e) {
        Expr::Identifier(t) | Expr::Literal(t) | Expr::This(t) => t.lexeme.clone(),
        Expr::Logical(l, op, r) | Expr::Binary(l, op, r) => {
            format!("({} {} {})", op.lexeme, show(ast, *l), show(ast, *r))
        },
        Expr::Grouping(g) => format!("(group {})", show(ast, *g)),
        Expr::Unary(op, r) => format!("({} {})", op.lexeme, show(ast, *r)),
        Expr::Assignment(id, v) => format!("(= {} {})", id.lexeme, show(ast, *v)),
        Expr::Call(c, _, args) => {
            let args: Vec<String> = args.iter().map(|a| show(ast, *a)).collect();
            format!("{}({})", show(ast, *c), args.join(" "))
        },
        Expr::Get(o, p) => format!("{}.{}", show(ast, *o), p.lexeme),
        Expr::SetField(o, p, v) => format!("{}.{} = {}", show(ast, *o), p.lexeme, show(ast, *v)),
        Expr::Super(_, m) => format!("super.{}", m.lexeme),
    }
}

fn expr_of(src: &str) -> String {
    let (ast, id) = one(src);
    match ast.stmt(id) {
        Stmt::Expression(e) => show(&ast, *e),
        other => panic!("not an expression statement: {:?}", other),
    }
}

#[test]
fn precedence_and_associativity() {
    assert_eq!(expr_of("1 + 2 * 3;"), "(+ 1 (* 2 3))");
    assert_eq!(expr_of("1 - 2 - 3;"), "(- (- 1 2) 3)");
    assert_eq!(expr_of("1 * 2 / 3 + 4;"), "(+ (/ (* 1 2) 3) 4)");
    assert_eq!(expr_of("1 < 2 == 3 >= 4;"), "(== (< 1 2) (>= 3 4))");
    assert_eq!(expr_of("a or b and c or d;"), "(or (or a (and b c)) d)");
    assert_eq!(expr_of("!-x;"), "(! (- x))");
    assert_eq!(expr_of("-a * b;"), "(* (- a) b)");
    assert_eq!(expr_of("(1 + 2) * 3;"), "(* (group (+ 1 2)) 3)");
    assert_eq!(expr_of("a == b or c != d;"), "(or (== a b) (!= c d))");
}

#[test]
fn assignment_groups_to_the_right() {
    assert_eq!(expr_of("a = b = c;"), "(= a (= b c))");
    assert_eq!(expr_of("a = b or c;"), "(= a (or b c))");
    assert_eq!(expr_of("a.b.c = d;"), "a.b.c = d");
    assert_eq!(expr_of("f().x = 1 + 2;"), "f().x = (+ 1 2)");
}

#[test]
fn calls_and_properties_chain() {
    assert_eq!(expr_of("f(1, a + b)(c).d.e(2);"), "f(1 (+ a b))(c).d.e(2)");
    assert_eq!(expr_of("f();"), "f()");
    assert_eq!(expr_of("this.x;"), "this.x");
    assert_eq!(expr_of("super.m(1);"), "super.m(1)");
}

#[test]
fn statements_have_their_shape() {
    let (ast, id) = one("var a = 1;");
    assert!(matches!(ast.stmt(id), Stmt::Declaration(t, Some(_)) if t.lexeme == "a"));
    let (ast, id) = one("var a;");
    assert!(matches!(ast.stmt(id), Stmt::Declaration(t, None) if t.lexeme == "a"));
    let (ast, id) = one("print 1;");
    assert!(matches!(ast.stmt(id), Stmt::Print(_)));
    let (ast, id) = one("{ 1; 2; { } }");
    assert!(matches!(ast.stmt(id), Stmt::Block(body) if body.len() == 3));
    let (ast, id) = one("if (a) b; else c;");
    assert!(matches!(ast.stmt(id), Stmt::If(_, _, Some(_))));
    let (ast, id) = one("if (a) if (b) c; else d;");
    match ast.stmt(id) {
        Stmt::If(_, then_stmt, None) => assert!(matches!(ast.stmt(*then_stmt), Stmt::If(_, _, Some(_)))),
        other => panic!("{:?}", other),
    }
    let (ast, id) = one("while (a) b;");
    assert!(matches!(ast.stmt(id), Stmt::While(_, _)));
    let (ast, id) = one("break;");
    assert!(matches!(ast.stmt(id), Stmt::Break(t) if t.token_type == TokenType::Break));
    let (ast, id) = one("return;");
    assert!(matches!(ast.stmt(id), Stmt::Return(_, None)));
    let (ast, id) = one("return 1 + 2;");
    assert!(matches!(ast.stmt(id), Stmt::Return(_, Some(_))));
}

#[test]
fn function_has_name_parameters_and_block() {
    let (ast, id) = one("fun add(a, b) { return a + b; }");
    match ast.stmt(id) {
        Stmt::Function(name, params, body) => {
            assert_eq!(name.lexeme, "add");
            let names: Vec<&str> = params.iter().map(|p| p.lexeme.as_str()).collect();
            assert_eq!(names, vec!["a", "b"]);
            assert!(matches!(ast.stmt(*body), Stmt::Block(items) if items.len() == 1));
        },
        other => panic!("{:?}", other),
    }
}

#[test]
fn class_has_name_superclass_and_methods() {
    let (ast, id) = one("class B < A { init(x) {} m() {} }");
    match ast.stmt(id) {
        Stmt::Class(name, Some(parent), methods) => {
            assert_eq!(name.lexeme, "B");
            assert!(matches!(ast.expr(*parent), Expr::Identifier(t) if t.lexeme == "A"));
            assert_eq!(methods.len(), 2);
            assert!(matches!(ast.stmt(methods[0]), Stmt::Function(n, p, _) if n.lexeme == "init" && p.len() == 1));
            assert!(matches!(ast.stmt(methods[1]), Stmt::Function(n, p, _) if n.lexeme == "m" && p.is_empty()));
        },
        other => panic!("{:?}", other),
    }
    let (ast, id) = one("class A {}");
    assert!(matches!(ast.stmt(id), Stmt::Class(_, None, methods) if methods.is_empty()));
}

#[test]
fn for_becomes_a_while_in_a_block() {
    let (ast, id) = one("for (var i = 0; i < 3; i = i + 1) print i;");
    let outer = match ast.stmt(id) {
        Stmt::Block(items) => items.clone(),
        other => panic!("{:?}", other),
    };
    assert_eq!(outer.len(), 2);
    assert!(matches!(ast.stmt(outer[0]), Stmt::Declaration(t, Some(_)) if t.lexeme == "i"));
    let (cond, body) = match ast.stmt(outer[1]) {
        Stmt::While(cond, body) => (*cond, *body),
        other => panic!("{:?}", other),
    };
    assert_eq!(show(&ast, cond), "(< i 3)");
    let inner = match ast.stmt(body) {
        Stmt::Block(items) => items.clone(),
        other => panic!("{:?}", other),
    };
    assert_eq!(inner.len(), 2);
    assert!(matches!(ast.stmt(inner[0]), Stmt::Print(_)));
    match ast.stmt(inner[1]) {
        Stmt::Expression(e) => assert_eq!(show(&ast, *e), "(= i (+ i 1))"),
        other => panic!("{:?}", other),
    }
}

#[test]
fn for_without_clauses_is_a_bare_endless_while() {
    let (ast, id) = one("for (;;) x;");
    match ast.stmt(id) {
        Stmt::While(cond, body) => {
            match ast.expr(*cond) {
                Expr::Literal(t) => {
                    assert_eq!(t.token_type, TokenType::True);
                    assert_eq!(t.lexeme, "true");
                    assert!(matches!(t.literal, Some(Literal::Boolean(true))));
                    assert_eq!(t.line, 1);
                },
                other => panic!("{:?}", other),
            }
            assert!(matches!(ast.stmt(*body), Stmt::Expression(_)));
        },
        other => panic!("{:?}", other),
    }
}

#[test]
fn errors_name_the_token_and_its_line() {
    let (_, all) = parse("1 +;\n2 3;\n1;\nprint;");
    assert_eq!(all.len(), 4);
    assert!(matches!(&all[0], Err(RloxError::Parse(1, msg, near)) if msg == "Unexpected Token" && near == ";"));
    assert!(matches!(&all[1], Err(RloxError::Parse(2, msg, near)) if msg == "Unexpected Token" && near == "3"));
    assert!(matches!(&all[2], Ok(_)));
    assert!(matches!(&all[3], Err(RloxError::Parse(4, _, near)) if near == ";"));
}

#[test]
fn end_of_input_in_a_statement_is_an_error() {
    let (_, all) = parse("print 1");
    assert_eq!(all.len(), 1);
    assert!(matches!(&all[0], Err(RloxError::Parse(1, msg, near)) if msg == "Unexpected Token" && near == "EOF"));
    let (_, all) = parse("{ print 1;");
    assert!(matches!(&all[0], Err(RloxError::Parse(_, _, near)) if near == "EOF"));
}

#[test]
fn lexical_error_comes_through_the_parser() {
    let (_, all) = parse("var a = \"open;\nprint 1;");
    assert_eq!(all.len(), 1);
    assert!(matches!(&all[0], Err(RloxError::Lexical(1, msg, _)) if msg == "Unterminated String"));
}

#[test]
fn parser_helpers() {
    let mut parser = Parser::new(Scanner::new("a ; b + ; var c;"));
    assert!(parser.check(&[TokenType::Ident]));
    assert!(!parser.check(&[TokenType::SemiColon, TokenType::Var]));
    assert!(!parser.check(&[]));
    parser.synchronize();
    assert!(parser.check(&[TokenType::Ident]));
    assert_eq!(parser.pos, 2);
    parser.synchronize();
    assert!(parser.check(&[TokenType::Var]));
    parser.synchronize();
    assert!(parser.check(&[TokenType::Var]));
    parser.skip_rest();
    assert!(parser.next().is_none());
}

#[test]
fn nodes_are_kept_across_inputs() {
    let mut parser = Parser::new(Scanner::new("var a = 1;"));
    let first = parser.next().unwrap().unwrap();
    assert!(parser.next().is_none());
    let before = (parser.ast.n_exprs(), parser.ast.n_stmts());
    parser.feed(Scanner::new("print a;"));
    let second = parser.next().unwrap().unwrap();
    assert!(second > first);
    assert!(matches!(parser.ast.stmt(first), Stmt::Declaration(_, _)));
    assert_eq!((parser.ast.n_exprs(), parser.ast.n_stmts()), (before.0 + 1, before.1 + 1));
}

fn depths(src: &str) -> (Vec<(String, Option<usize>)>, Result<(), RloxError>) {
    let (ast, id) = one(src);
    let (locals, res) = Resolver::resolve(Locals::new(), &ast, id);
    let mut found = Vec::new();
    for e in 0..ast.n_exprs() {
        match ast.expr(e) {
            Expr::Identifier(t) | Expr::Assignment(t, _) | Expr::This(t) | Expr::Super(t, _) => {
                found.push((t.lexeme.clone(), locals.get(e)))
            },
            _ => assert_eq!(locals.get(e), None),
        }
    }
    (found, res)
}

fn named(list: &[(&str, Option<usize>)]) -> Vec<(String, Option<usize>)> {
    list.iter().map(|(n, d)| (n.to_string(), *d)).collect()
}

#[test]
fn resolver_counts_the_scopes_between() {
    let (found, res) = depths("{ var a = 1; { var b = a; { a = b; c; } } }");
    assert!(res.is_ok());
    // The target of an assignment is parsed as a variable first; that node is left aside.
    assert_eq!(
        found,
        named(&[("a", Some(1)), ("a", None), ("b", Some(1)), ("a", Some(2)), ("c", None)])
    );
}

#[test]
fn resolver_leaves_globals_alone() {
    let (found, res) = depths("print a + b;");
    assert!(res.is_ok());
    assert_eq!(found, named(&[("a", None), ("b", None)]));
}

#[test]
fn resolver_binds_a_function_to_the_scopes_of_its_declaration() {
    let (found, res) = depths("{ var a; fun f(p) { p; a; f; g; { p; } } }");
    assert!(res.is_ok());
    assert_eq!(
        found,
        named(&[("p", Some(1)), ("a", Some(2)), ("f", Some(2)), ("g", None), ("p", Some(2))])
    );
}

#[test]
fn resolver_places_this_and_super() {
    let (found, res) = depths("class B < A { m(x) { this; super.m; x; } }");
    assert!(res.is_ok());
    assert_eq!(
        found,
        named(&[("A", None), ("this", Some(2)), ("super", Some(3)), ("x", Some(1))])
    );
    let (found, res) = depths("class A { m() { this; { this; } } }");
    assert!(res.is_ok());
    assert_eq!(found, named(&[("this", Some(2)), ("this", Some(3))]));
}

#[test]
fn resolver_refuses_misuse() {
    let message = |src: &str| match depths(src).1 {
        Err(RloxError::Parse(_, msg, _)) => msg,
        Err(RloxError::Break(_)) => "break".to_string(),
        other => panic!("{:?}", other),
    };
    assert_eq!(message("{ var a = a; }"), "Cannot read local variable in its own initializer");
    assert_eq!(message("{ var a; var a; }"), "variable already defined with this name in this scope");
    assert_eq!(message("fun f(a, a) {}"), "variable already defined with this name in this scope");
    assert_eq!(message("return;"), "cannot return from top-level code");
    assert_eq!(message("class A { init() { return 1; } }"), "Cannot return a value from an initializer");
    assert_eq!(message("{ break; }"), "break");
    assert_eq!(message("if (a) break;"), "break");
    assert_eq!(message("fun f() { this; }"), "Cannot use 'this' outside of a class");
    assert_eq!(message("class A { m() { super.m(); } }"), "Cannot use 'super' outside of a subclass");
    assert_eq!(message("class A < A {}"), "A class cannot inherit from itself");
}

#[test]
fn resolver_accepts_what_is_in_order() {
    for src in [
        "while (a) { break; }",
        "for (;;) break;",
        "while (a) fun f() { break; }",
        "fun f() { return; }",
        "fun f() { return 1; }",
        "class A { init() { return; } m() { return this; } }",
        "class A { m() { fun g() { this; } } }",
        "class B < A { m() { fun g() { super.m; } } }",
        "{ var a; { var a; } }",
        "var a = a;",
    ] {
        assert!(depths(src).1.is_ok(), "{}", src);
    }
}
