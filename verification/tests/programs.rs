use rlox::error::RloxError;
use rlox::machine::{Action, ArithOp, Output, Request};
use rlox::runner::Runner;

/// What a host does with a question: real binary64 arithmetic.
fn answer(request: &Request) -> u64 {
    match request {
        Request::Clock => 12.5f64.to_bits(),
        Request::Numeral(text) => text.parse::<f64>().unwrap().to_bits(),
        Request::Arith(op, a, b) => {
            let (a, b) = (f64::from_bits(*a), f64::from_bits(*b));
            let r = match op {
                ArithOp::Add => a + b,
                ArithOp::Sub => a - b,
                ArithOp::Mul => a * b,
                ArithOp::Div => a / b,
            };
            r.to_bits()
        },
    }
}

struct Outcome {
    out: Vec<String>,
    reports: Vec<RloxError>,
    failure: Option<RloxError>,
}

/// Runs `src` on `runner` to the end of the input, playing the host.
fn drive(runner: &mut Runner, src: &str) -> Outcome {
    let mut outcome = Outcome { out: Vec::new(), reports: Vec::new(), failure: None };
    runner.feed(src);
    let mut rounds = 0;
    loop {
        rounds += 1;
        assert!(rounds < 100_000, "the program does not end");
        match runner.run(10_000) {
            Action::Proceed => {},
            Action::Print(Output::Text(text)) => outcome.out.push(text),
            Action::Print(Output::Number(bits)) => {
                outcome.out.push(format!("{}", f64::from_bits(bits)))
            },
            Action::Report(e) => outcome.reports.push(e),
            Action::Ask(request) => runner.reply(answer(&request)),
            Action::Finished => return outcome,
            Action::Failed(e) => {
                outcome.failure = Some(e);
                return outcome;
            },
            Action::Idle => unreachable!(),
        }
    }
}

fn run(src: &str) -> Outcome {
    let mut runner = Runner::new(false);
    drive(&mut runner, src)
}

/// The lines that `src` prints, which must run without any diagnostic.
fn prints(src: &str) -> Vec<String> {
    let outcome = run(src);
    assert!(outcome.reports.is_empty(), "reported: {:?}", outcome.reports);
    assert!(outcome.failure.is_none(), "failed: {:?}", outcome.failure);
    outcome.out
}

fn failure(src: &str) -> RloxError {
    let outcome = run(src);
    assert!(outcome.reports.is_empty(), "reported: {:?}", outcome.reports);
    outcome.failure.unwrap()
}

fn message(e: &RloxError) -> String {
    match e {
        RloxError::Lexical(_, msg, _) => msg.clone(),
        RloxError::Parse(_, msg, _) => msg.clone(),
        RloxError::Runtime(_, msg, _) => msg.clone(),
        RloxError::Break(_) => "break".to_string(),
        RloxError::Return(_, _) => "return".to_string(),
    }
}

#[test]
fn arithmetic_follows_precedence() {
    assert_eq!(prints("print 1 + 2 * 3;"), vec!["7"]);
}

#[test]
fn strings_are_joined_by_plus() {
    assert_eq!(
        prints("var a = \"hello\"; var b = \"world\"; print a + \" \" + b;"),
        vec!["hello world"]
    );
}

#[test]
fn closure_keeps_its_own_counter() {
    let src = "fun counter() { var i = 0; fun incr() { i = i + 1; return i; } return incr; }
               var c = counter(); print c(); print c(); print c();";
    assert_eq!(prints(src), vec!["1", "2", "3"]);
}

#[test]
fn successive_calls_capture_separate_frames() {
    let src = "fun counter() { var i = 0; fun incr() { i = i + 1; return i; } return incr; }
               var a = counter(); var b = counter();
               print a(); print a(); print b(); print a(); print b();";
    assert_eq!(prints(src), vec!["1", "2", "1", "3", "2"]);
}

#[test]
fn method_is_called_on_a_new_instance() {
    let src = "class Greeter { greet(name) { print \"hi \" + name; } }
               Greeter().greet(\"lox\");";
    assert_eq!(prints(src), vec!["hi lox"]);
}

#[test]
fn super_calls_the_method_of_the_superclass() {
    let src = "class A { hello() { print \"A\"; } }
               class B < A { hello() { super.hello(); print \"B\"; } }
               B().hello();";
    assert_eq!(prints(src), vec!["A", "B"]);
}

#[test]
fn super_skips_the_override_of_a_further_subclass() {
    let src = "class A { m() { print \"A.m\"; } }
               class B < A { m() { print \"B.m\"; } test() { super.m(); } }
               class C < B { m() { print \"C.m\"; } }
               C().test();";
    assert_eq!(prints(src), vec!["A.m"]);
}

#[test]
fn function_sees_the_variable_of_its_declaration() {
    let src = "var a = \"global\";
               { fun show() { print a; } var a = \"local\"; show(); }";
    assert_eq!(prints(src), vec!["global"]);
}

#[test]
fn grouping_yields_what_is_inside() {
    assert_eq!(prints("print (1 + 2) * 3; print (\"a\"); print ((nil));"), vec!["9", "a", "nil"]);
}

#[test]
fn and_yields_an_operand_not_a_boolean() {
    assert_eq!(
        prints("print nil and 1; print false and 1; print 0 and 2; print \"\" and \"x\";"),
        vec!["nil", "false", "2", "x"]
    );
}

#[test]
fn or_yields_an_operand_not_a_boolean() {
    assert_eq!(
        prints("print nil or \"yes\"; print 1 or 2; print false or nil; print 0 or 5;"),
        vec!["yes", "1", "nil", "0"]
    );
}

#[test]
fn logical_operators_skip_the_right_operand() {
    let src = "var n = 0; fun bump() { n = n + 1; return true; }
               false and bump(); true or bump(); print n;
               true and bump(); false or bump(); print n;";
    assert_eq!(prints(src), vec!["0", "2"]);
}

fn call_with(n: usize) -> String {
    let params: Vec<String> = (0..n).map(|i| format!("p{}", i)).collect();
    let args: Vec<String> = (0..n).map(|i| format!("{}", i)).collect();
    format!("fun f({}) {{ print p0; }} f({});", params[..n.min(255)].join(", "), args.join(", "))
}

#[test]
fn call_with_255_arguments_runs() {
    assert_eq!(prints(&call_with(255)), vec!["0"]);
}

#[test]
fn call_with_256_arguments_is_a_parse_error() {
    let outcome = run(&call_with(256));
    assert_eq!(outcome.reports.len(), 1);
    assert!(matches!(&outcome.reports[0], RloxError::Parse(_, msg, _)
        if msg == "Can't have more than 255 arguments"));
    assert!(outcome.out.is_empty());
}

#[test]
fn too_many_arguments_are_reported_where_they_begin() {
    let args: Vec<String> = (0..255).map(|i| i.to_string()).collect();
    let src = format!("fun f() {{}}\nf({},\n  extra);", args.join(", "));
    let outcome = run(&src);
    assert_eq!(outcome.reports.len(), 1);
    assert!(matches!(&outcome.reports[0], RloxError::Parse(3, msg, near)
        if msg == "Can't have more than 255 arguments" && near == "extra"));
}

#[test]
fn endless_for_is_left_by_break() {
    assert_eq!(prints("for (;;) break; print 1;"), vec!["1"]);
    assert!(prints("for (;;) break;").is_empty());
}

#[test]
fn statements_before_a_refused_one_have_run() {
    let outcome = run("print 1; { var a = a; } print 2;");
    assert_eq!(outcome.out, vec!["1"]);
    assert!(outcome.reports.is_empty());
    assert_eq!(
        message(&outcome.failure.unwrap()),
        "Cannot read local variable in its own initializer"
    );
}

#[test]
fn wrong_number_of_arguments_is_reported_at_the_closing_parenthesis() {
    let e = failure("fun f(a) {}\nf(1,\n  2\n);");
    assert!(matches!(&e, RloxError::Runtime(4, msg, near)
        if msg == "expected 1 arguments but got 2" && near == ")"));
}

#[test]
fn function_with_256_parameters_is_a_parse_error() {
    let params: Vec<String> = (0..256).map(|i| format!("p{}", i)).collect();
    let outcome = run(&format!("fun f({}) {{}}", params.join(", ")));
    assert_eq!(outcome.reports.len(), 1);
    assert!(matches!(&outcome.reports[0], RloxError::Parse(_, msg, near)
        if msg == "Cannot have more than 255 parameters" && near == "f"));
}

#[test]
fn reading_a_variable_in_its_own_initializer_is_refused() {
    let e = failure("{ var a = a; }");
    assert!(matches!(&e, RloxError::Parse(1, msg, near)
        if msg == "Cannot read local variable in its own initializer" && near == "a"));
}

#[test]
fn global_may_be_read_in_its_own_initializer() {
    let e = failure("var a = a;");
    assert!(matches!(&e, RloxError::Runtime(1, msg, _) if msg == "Undefined variable a"));
}

#[test]
fn return_at_top_level_is_refused() {
    let e = failure("return 1;");
    assert!(matches!(&e, RloxError::Parse(1, msg, _) if msg == "cannot return from top-level code"));
}

#[test]
fn break_outside_a_loop_is_refused() {
    let outcome = run("print 1; break; print 2;");
    assert_eq!(outcome.out, vec!["1"]);
    assert!(matches!(outcome.failure, Some(RloxError::Break(1))));
}

#[test]
fn class_inheriting_from_itself_is_refused() {
    let e = failure("class A < A {}");
    assert!(matches!(&e, RloxError::Parse(1, msg, near)
        if msg == "A class cannot inherit from itself" && near == "A"));
}

#[test]
fn division_by_zero_is_a_runtime_error() {
    let e = failure("print 1 / 0;");
    assert!(matches!(&e, RloxError::Runtime(1, msg, near) if msg == "Division by zero" && near == "/"));
    let e = failure("var z = 0; print 4 / -z;");
    assert_eq!(message(&e), "Division by zero");
}

#[test]
fn division_yields_fractions() {
    assert_eq!(prints("print 7 / 2; print 1 / 4; print 6 / 3;"), vec!["3.5", "0.25", "2"]);
}

#[test]
fn duplicate_local_is_refused() {
    let e = failure("{ var a = 1; var a = 2; }");
    assert_eq!(message(&e), "variable already defined with this name in this scope");
    assert_eq!(prints("var a = 1; var a = 2; print a;"), vec!["2"]);
}

#[test]
fn this_outside_a_class_is_refused() {
    assert_eq!(message(&failure("print this;")), "Cannot use 'this' outside of a class");
}

#[test]
fn super_outside_a_subclass_is_refused() {
    assert_eq!(
        message(&failure("class A { m() { super.m(); } }")),
        "Cannot use 'super' outside of a subclass"
    );
}

#[test]
fn returning_a_value_from_an_initializer_is_refused() {
    assert_eq!(
        message(&failure("class A { init() { return 1; } }")),
        "Cannot return a value from an initializer"
    );
}

#[test]
fn initializer_yields_the_instance() {
    let src = "class P { init(x) { this.x = x; return; } }
               var p = P(3); print p.x; print p; print p.init(4); print p.x;";
    assert_eq!(prints(src), vec!["3", "P instance", "P instance", "4"]);
}

#[test]
fn fields_are_created_by_assignment() {
    let src = "class Box {} var b = Box(); b.v = 1; b.v = b.v + 1; print b.v; print Box;";
    assert_eq!(prints(src), vec!["2", "Box"]);
}

#[test]
fn fields_shadow_methods() {
    let src = "class C { m() { return 1; } } var c = C(); print c.m(); c.m = 5; print c.m;";
    assert_eq!(prints(src), vec!["1", "5"]);
}

#[test]
fn bound_method_keeps_its_instance() {
    let src = "class C { init(n) { this.n = n; } get() { return this.n; } }
               var g = C(7).get; print g();";
    assert_eq!(prints(src), vec!["7"]);
}

#[test]
fn inherited_methods_and_initializers() {
    let src = "class A { init(n) { this.n = n; } show() { print this.n; } }
               class B < A {}
               B(9).show();";
    assert_eq!(prints(src), vec!["9"]);
}

#[test]
fn undefined_property_is_a_runtime_error() {
    let e = failure("class C {} C().x;");
    assert!(matches!(&e, RloxError::Runtime(1, msg, near) if msg == "Undefined property x" && near == "x"));
}

#[test]
fn only_instances_have_properties() {
    assert_eq!(message(&failure("var a = 1; a.x;")), "Only instances have properties");
    assert_eq!(message(&failure("var a = 1; a.x = 2;")), "Only instances have fields");
}

#[test]
fn superclass_must_be_a_class() {
    assert_eq!(message(&failure("var x = 1; class A < x {}")), "Superclass must be a class");
}

#[test]
fn only_functions_and_classes_are_called() {
    assert_eq!(message(&failure("\"text\"();")), "Can only call functions and classes");
}

#[test]
fn arity_is_enforced() {
    assert_eq!(
        message(&failure("fun f(a, b) {} f(1);")),
        "expected 2 arguments but got 1"
    );
    assert_eq!(
        message(&failure("class C { init(a) {} } C();")),
        "expected 1 arguments but got 0"
    );
    assert_eq!(message(&failure("class C {} C(1);")), "expected 0 arguments but got 1");
}

#[test]
fn undefined_variable_is_a_runtime_error() {
    let outcome = run("print 1;\nprint x;\nprint 2;");
    assert_eq!(outcome.out, vec!["1"]);
    assert!(matches!(outcome.failure, Some(RloxError::Runtime(2, msg, near))
        if msg == "Undefined variable x" && near == "x"));
    assert_eq!(message(&failure("x = 1;")), "Undefined variable x");
}

#[test]
fn operators_check_their_operands() {
    assert_eq!(message(&failure("print 1 + \"a\";")), "Cannot add mixed types");
    assert_eq!(message(&failure("print \"a\" + 1;")), "Cannot add mixed types");
    assert_eq!(message(&failure("print nil - 1;")), "Cannot subtract non-numeric operands");
    assert_eq!(message(&failure("print 2 * \"a\";")), "Cannot multiply non-numeric operands");
    assert_eq!(message(&failure("print \"a\" / 2;")), "Cannot divide non-numerics");
    assert_eq!(message(&failure("print 1 < \"a\";")), "Cannot compare types");
    assert_eq!(message(&failure("print -\"a\";")), "Cannot negate non-numeric value");
}

#[test]
fn comparison_and_equality() {
    let src = "print 1 < 2; print 2 <= 2; print 3 > 4; print 4 >= 4; print -3 < 2; print -1 > -2;
               print 1 == 1; print 1 != 1; print \"a\" == \"a\"; print \"a\" == \"b\";
               print nil == nil; print nil == false; print 1 == \"1\"; print -0 == 0;";
    assert_eq!(
        prints(src),
        vec![
            "true", "true", "false", "true", "true", "true", "true", "false", "true", "false",
            "true", "false", "false", "true"
        ]
    );
}

#[test]
fn functions_classes_and_instances_are_equal_to_themselves_only() {
    let src = "fun f() {} fun g() {} class C {} var a = C(); var b = C();
               print f == f; print f == g; print C == C; print a == a; print a == b;";
    assert_eq!(prints(src), vec!["true", "false", "true", "true", "false"]);
}

#[test]
fn truthiness() {
    let src = "if (0) print \"zero\"; if (\"\") print \"empty\"; if (nil) print \"nil\";
               if (false) print \"false\"; else print \"else\"; print !nil; print !0;";
    assert_eq!(prints(src), vec!["zero", "empty", "else", "true", "false"]);
}

#[test]
fn while_and_break() {
    let src = "var i = 0; while (true) { i = i + 1; if (i > 3) break; print i; } print \"done\";";
    assert_eq!(prints(src), vec!["1", "2", "3", "done"]);
}

#[test]
fn break_leaves_the_innermost_loop_only() {
    let src = "var i = 0; while (i < 2) { i = i + 1; while (true) { break; } print i; }";
    assert_eq!(prints(src), vec!["1", "2"]);
}

#[test]
fn for_loop_runs_like_its_while_loop() {
    assert_eq!(prints("for (var i = 0; i < 3; i = i + 1) print i;"), vec!["0", "1", "2"]);
    assert_eq!(
        prints("var i = 0; for (; i < 2;) { print i; i = i + 1; } print i;"),
        vec!["0", "1", "2"]
    );
    assert_eq!(prints("for (var i = 0;; i = i + 1) { if (i == 2) break; print i; }"), vec!["0", "1"]);
}

#[test]
fn recursion() {
    let src = "fun fib(n) { if (n < 2) return n; return fib(n - 1) + fib(n - 2); } print fib(15);";
    assert_eq!(prints(src), vec!["610"]);
}

#[test]
fn function_without_return_yields_nil() {
    assert_eq!(prints("fun f() {} print f(); print f;"), vec!["nil", "<function>"]);
}

#[test]
fn return_leaves_loops_and_blocks() {
    let src = "fun f() { while (true) { { return \"out\"; } } } print f();";
    assert_eq!(prints(src), vec!["out"]);
}

#[test]
fn arguments_are_evaluated_left_to_right() {
    let src = "fun show(x) { print x; return x; } fun add(a, b, c) { return a + b + c; }
               print add(show(1), show(2), show(3));";
    assert_eq!(prints(src), vec!["1", "2", "3", "6"]);
}

#[test]
fn assignment_yields_the_value() {
    assert_eq!(prints("var a; var b; a = b = 3; print a; print b; print a = 4;"), vec!["3", "3", "4"]);
}

#[test]
fn blocks_shadow_and_restore() {
    let src = "var a = 1; { var a = 2; print a; { a = 3; } print a; } print a;";
    assert_eq!(prints(src), vec!["2", "3", "1"]);
}

#[test]
fn clock_is_a_number_from_the_host() {
    assert_eq!(prints("print clock(); print clock() - clock();"), vec!["12.5", "0"]);
    assert_eq!(message(&failure("clock(1);")), "expected 0 arguments but got 1");
}

#[test]
fn numbers_are_written_in_their_shortest_form() {
    assert_eq!(prints("print 3; print 3.0; print 2.50; print 0.1 + 0.2; print 100 * 100;"),
        vec!["3", "3", "2.5", "0.30000000000000004", "10000"]);
}

#[test]
fn parse_error_is_reported_and_the_next_statement_runs() {
    let outcome = run("print 1;\nprint ;\nprint 3;");
    assert_eq!(outcome.out, vec!["1", "3"]);
    assert_eq!(outcome.reports.len(), 1);
    assert!(matches!(&outcome.reports[0], RloxError::Parse(2, msg, near)
        if msg == "Unexpected Token" && near == ";"));
    assert!(outcome.failure.is_none());
}

#[test]
fn recovery_stops_at_a_statement_keyword() {
    let outcome = run("var 1 2 3 print 4; print 5;");
    assert_eq!(outcome.out, vec!["4", "5"]);
    assert_eq!(outcome.reports.len(), 1);
}

#[test]
fn invalid_assignment_target_is_a_parse_error() {
    let outcome = run("1 = 2; print 3;");
    assert_eq!(outcome.out, vec!["3"]);
    assert!(matches!(&outcome.reports[0], RloxError::Parse(1, msg, _)
        if msg == "Invalid assignment target."));
}

#[test]
fn missing_closing_parenthesis_is_a_parse_error() {
    let outcome = run("print (1 + 2;");
    assert!(outcome.out.is_empty());
    assert_eq!(outcome.reports.len(), 1);
}

#[test]
fn unterminated_string_is_reported_at_its_opening_line() {
    let outcome = run("print 1;\nprint \"abc\ndef");
    assert_eq!(outcome.out, vec!["1"]);
    assert_eq!(outcome.reports.len(), 1);
    assert!(matches!(&outcome.reports[0], RloxError::Lexical(2, msg, _) if msg == "Unterminated String"));
}

#[test]
fn unexpected_character_is_reported_and_scanning_goes_on() {
    let outcome = run("print 1; @ print 2;");
    assert_eq!(outcome.out, vec!["1", "2"]);
    assert!(matches!(&outcome.reports[0], RloxError::Lexical(1, msg, what)
        if msg == "Unexpected Character" && what == "@"));
}

#[test]
fn runtime_error_ends_the_input() {
    let outcome = run("print 1; print nil + 1; print 2;");
    assert_eq!(outcome.out, vec!["1"]);
    assert!(outcome.failure.is_some());
}

#[test]
fn repl_prints_expression_statements_and_keeps_globals() {
    let mut runner = Runner::new(true);
    assert_eq!(drive(&mut runner, "var a = 2;").out, Vec::<String>::new());
    assert_eq!(drive(&mut runner, "a * 21;").out, vec!["42"]);
    assert!(drive(&mut runner, "a + nil;").failure.is_some());
    assert_eq!(drive(&mut runner, "fun f() { a; return a; } f();").out, vec!["2"]);
    assert_eq!(drive(&mut runner, "{ a; }").out, Vec::<String>::new());
}

#[test]
fn file_mode_does_not_print_expression_statements() {
    assert_eq!(prints("1 + 2; \"x\";"), Vec::<String>::new());
}

#[test]
fn same_source_gives_same_output() {
    let src = "var s = 0; for (var i = 0; i < 10; i = i + 1) s = s + i * i; print s; print clock();";
    let first = run(src);
    let second = run(src);
    assert_eq!(first.out, second.out);
    assert_eq!(first.out, vec!["285", "12.5"]);
}

#[test]
fn strings_may_span_lines_and_hold_quotes() {
    assert_eq!(prints("print \"a\nb\"; print \"say \\\"hi\\\"\";"), vec!["a\nb", "say \"hi\""]);
}

#[test]
fn comments_and_blank_lines_are_passed_over() {
    let outcome = run("// one\n\n  print 1; // two\n// three\nprint x;");
    assert_eq!(outcome.out, vec!["1"]);
    assert!(matches!(outcome.failure, Some(RloxError::Runtime(5, _, _))));
}

#[test]
fn machine_waits_until_the_host_answers() {
    let mut runner = Runner::new(false);
    runner.feed("print 2 + 3;");
    let mut asked = 0;
    loop {
        match runner.run(1000) {
            Action::Ask(request) => {
                asked += 1;
                assert!(matches!(runner.step(), Action::Ask(_)));
                runner.reply(answer(&request));
            },
            Action::Print(Output::Number(bits)) => assert_eq!(f64::from_bits(bits), 5.0),
            Action::Finished => break,
            other => panic!("unexpected {:?}", other),
        }
    }
    assert_eq!(asked, 3);
}

#[test]
fn steps_are_bounded_by_the_fuel() {
    let mut runner = Runner::new(false);
    runner.feed("while (true) {}");
    for _ in 0..50 {
        assert!(matches!(runner.run(100), Action::Proceed));
    }
    assert!(matches!(runner.run(0), Action::Proceed));
}

#[test]
fn declaration_under_an_if_may_leave_a_resolved_name_unbound() {
    let e = failure("{ if (false) var a = 1; print a; }");
    assert!(matches!(&e, RloxError::Runtime(1, msg, _) if msg == "Undefined variable a"));
    assert_eq!(prints("{ if (true) var a = 1; print a; }"), vec!["1"]);
}

#[test]
fn initializer_that_assigns_to_its_own_variable_finds_it_unbound() {
    let e = failure("{ var a = (a = 1); }");
    assert!(matches!(&e, RloxError::Runtime(1, msg, _) if msg == "Undefined variable a"));
}

#[test]
fn resolved_names_are_found_where_the_resolver_said() {
    let src = "var x = \"g\";
               fun outer() {
                   var x = \"o\";
                   class C { m() { return x; } }
                   fun inner() { var y = x; { var x = \"i\"; y = y + x; } return y + C().m(); }
                   return inner();
               }
               print outer(); print x;";
    assert_eq!(prints(src), vec!["oio", "g"]);
}

#[test]
fn loop_variable_is_seen_by_functions_in_the_body() {
    let src = "for (var i = 0; i < 3; i = i + 1) { fun f() { print i; } f(); }";
    assert_eq!(prints(src), vec!["0", "1", "2"]);
}

#[test]
fn method_yields_the_instance_it_is_bound_to() {
    let src = "class A { me() { return this; } }
               var a = A(); print a.me() == a; var m = a.me; print m() == a; print A().me() == a;";
    assert_eq!(prints(src), vec!["true", "true", "false"]);
}

#[test]
fn bare_return_in_an_initializer_yields_the_instance() {
    let src = "class A { init(x) { this.x = x; if (x > 1) return; this.x = 0; } }
               print A(5).x; print A(1).x; var a = A(3); print a.init(7) == a; print a.x;";
    assert_eq!(prints(src), vec!["5", "0", "true", "7"]);
}

#[test]
fn numbers_are_binary64() {
    let src = "print 0.1 + 0.2; print 1 / 4; print 2 * 3.5; print 10 / 4 * 4; print 7 - 10;";
    assert_eq!(prints(src), vec!["0.30000000000000004", "0.25", "7", "10", "-3"]);
}

#[test]
fn values_of_different_kinds_are_never_equal() {
    let src = "print nil == nil; print nil == false; print 1 == \"1\"; print \"a\" == \"a\";
               print 0 == -0; print true != 1; print \"\" == nil;";
    assert_eq!(prints(src), vec!["true", "false", "false", "true", "true", "true", "false"]);
}

#[test]
fn super_reaches_past_the_nearest_class_that_lacks_the_method() {
    let src = "class A { who() { return \"A\"; } }
               class B < A { }
               class C < B { who() { return \"C>\" + super.who(); } }
               print C().who();";
    assert_eq!(prints(src), vec!["C>A"]);
}
