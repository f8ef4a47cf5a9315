//! What a step of the evaluator does, as a function on mathematical values.
//!
//! `InterpreterView::step` maps the state of the machine to the state after
//! one step and the action that the host is told. It is the definition of
//! the language: the executable `Interpreter` is proved to compute it, and
//! the laws of the language are proved about it.

use vstd::prelude::*;
use crate::ast::AstView;
use crate::class::{find_method, ClassView, InstanceView};
use crate::env::EnvView;
use crate::error::ErrorView;
use crate::expr::ExprView;
use crate::functions::{Callable, ClassInit, LoxFunction};
use crate::machine::{ActionView, ArithOp, ControlView, KontView, OutputView, RequestView};
use crate::number;
use crate::object::ObjectView;
use crate::stmt::StmtView;
use crate::text::decimal_spec;
use crate::tokens::{LiteralView, TokenType, TokenView};

verus! {

/// The evaluator as a mathematical value.
pub struct InterpreterView {
    /// Whether top-level expression statements print their value.
    pub repl: bool,
    pub env: EnvView,
    pub classes: Seq<ClassView>,
    pub instances: Seq<InstanceView>,
    /// The resolver's side table.
    pub locals: Map<usize, usize>,
    pub control: ControlView,
    /// What is waiting, innermost last.
    pub stack: Seq<KontView>,
}

/// The state after a step and what the host is told.
pub type Stepped = (InterpreterView, ActionView);

/// The global frame.
pub const GLOBAL: usize = 0;

/// A token for the name `this`, placed where `at` is.
pub open spec fn this_token(at: TokenView) -> TokenView {
    TokenView {
        token_type: TokenType::This,
        lexeme: "this"@,
        literal: None,
        line: at.line,
        offset: at.offset,
    }
}

/// The error for something that is accessed or called or operated on and
/// is not fit for it.
pub open spec fn runtime(at: TokenView, msg: Seq<char>) -> ErrorView {
    ErrorView::Runtime(at.line, msg, at.lexeme)
}

/// The error for a state that names a node, a frame, a class or an instance
/// that does not exist. A machine that was only ever loaded with statements
/// of its own syntax store does not get there.
pub open spec fn bad_reference() -> ErrorView {
    ErrorView::Runtime(0, "Bad reference"@, ""@)
}

pub open spec fn wrong_arity(paren: TokenView, expected: nat, got: nat) -> ErrorView {
    ErrorView::Runtime(
        paren.line,
        "expected "@ + decimal_spec(expected) + " arguments but got "@ + decimal_spec(got),
        paren.lexeme,
    )
}

/// What applying a unary operator comes to.
pub open spec fn unary_op(op: TokenView, rhs: ObjectView) -> ControlView {
    if op.token_type == TokenType::Minus {
        match rhs {
            ObjectView::Number(n) => ControlView::Value(ObjectView::Number(number::neg_spec(n))),
            _ => ControlView::Raise(runtime(op, "Cannot negate non-numeric value"@)),
        }
    } else if op.token_type == TokenType::Bang {
        ControlView::Value(ObjectView::Bool(!rhs.is_truthy()))
    } else {
        ControlView::Raise(runtime(op, "Invalid unary operator"@))
    }
}

/// The value of a comparison of two numbers.
pub open spec fn compare(op: TokenType, a: u64, b: u64) -> bool {
    if op == TokenType::Less {
        number::lt_spec(a, b)
    } else if op == TokenType::LessEqual {
        number::lt_spec(a, b) || number::eq_spec(a, b)
    } else if op == TokenType::Greater {
        number::lt_spec(b, a)
    } else {
        number::lt_spec(b, a) || number::eq_spec(a, b)
    }
}

/// The machine waiting for the host to do arithmetic.
pub open spec fn ask(op: ArithOp, a: u64, b: u64) -> (ControlView, ActionView) {
    (
        ControlView::Await(RequestView::Arith(op, a, b)),
        ActionView::Ask(RequestView::Arith(op, a, b)),
    )
}

/// What applying a binary operator to two values comes to: a value, an
/// error, or a question to the host.
///
/// `+` adds two numbers or joins two strings. `-`, `*` and `/` take two
/// numbers, and `/` refuses a divisor that is zero. The four comparisons
/// take two numbers. `==` and `!=` take anything.
pub open spec fn binary_op(op: TokenView, lhs: ObjectView, rhs: ObjectView) -> (
    ControlView,
    ActionView,
) {
    let kind = op.token_type;
    if kind == TokenType::Plus {
        match (lhs, rhs) {
            (ObjectView::Number(a), ObjectView::Number(b)) => ask(ArithOp::Add, a, b),
            (ObjectView::Str(a), ObjectView::Str(b)) => (
                ControlView::Value(ObjectView::Str(a + b)),
                ActionView::Proceed,
            ),
            _ => (ControlView::Raise(runtime(op, "Cannot add mixed types"@)), ActionView::Proceed),
        }
    } else if kind == TokenType::Minus {
        match (lhs, rhs) {
            (ObjectView::Number(a), ObjectView::Number(b)) => ask(ArithOp::Sub, a, b),
            _ => (
                ControlView::Raise(runtime(op, "Cannot subtract non-numeric operands"@)),
                ActionView::Proceed,
            ),
        }
    } else if kind == TokenType::Star {
        match (lhs, rhs) {
            (ObjectView::Number(a), ObjectView::Number(b)) => ask(ArithOp::Mul, a, b),
            _ => (
                ControlView::Raise(runtime(op, "Cannot multiply non-numeric operands"@)),
                ActionView::Proceed,
            ),
        }
    } else if kind == TokenType::Slash {
        match (lhs, rhs) {
            (ObjectView::Number(a), ObjectView::Number(b)) => if number::is_zero(b) {
                (ControlView::Raise(runtime(op, "Division by zero"@)), ActionView::Proceed)
            } else {
                ask(ArithOp::Div, a, b)
            },
            _ => (
                ControlView::Raise(runtime(op, "Cannot divide non-numerics"@)),
                ActionView::Proceed,
            ),
        }
    } else if kind == TokenType::Greater || kind == TokenType::GreaterEqual || kind
        == TokenType::Less || kind == TokenType::LessEqual {
        match (lhs, rhs) {
            (ObjectView::Number(a), ObjectView::Number(b)) => (
                ControlView::Value(ObjectView::Bool(compare(kind, a, b))),
                ActionView::Proceed,
            ),
            _ => (ControlView::Raise(runtime(op, "Cannot compare types"@)), ActionView::Proceed),
        }
    } else if kind == TokenType::EqualEqual {
        (ControlView::Value(ObjectView::Bool(lhs.equals(rhs))), ActionView::Proceed)
    } else if kind == TokenType::BangEqual {
        (ControlView::Value(ObjectView::Bool(!lhs.equals(rhs))), ActionView::Proceed)
    } else {
        (ControlView::Raise(runtime(op, "Invalid binary operator"@)), ActionView::Proceed)
    }
}

/// The store in which `frame` binds the parameters `params[i..]` to the
/// arguments `args[i..]`.
pub open spec fn bind_params(
    env: EnvView,
    frame: usize,
    params: Seq<TokenView>,
    args: Seq<ObjectView>,
    i: nat,
) -> EnvView
    decreases params.len() - i,
{
    if i >= params.len() || i >= args.len() {
        env
    } else {
        bind_params(env.define(frame, params[i as int].lexeme, args[i as int]), frame, params, args, i + 1)
    }
}

/// The method made from the declaration `decl`, closing over `frame`.
pub open spec fn method_of(ast: AstView, decl: usize, frame: usize) -> Option<
    (Seq<char>, ObjectView),
> {
    if decl < ast.stmts.len() {
        match ast.stmts[decl as int] {
            StmtView::Function(name, _, _) => Some(
                (
                    name.lexeme,
                    ObjectView::Func(
                        Callable::Runtime(
                            LoxFunction {
                                decl,
                                closure: frame,
                                is_initializer: name.lexeme == "init"@,
                            },
                        ),
                    ),
                ),
            ),
            _ => None,
        }
    } else {
        None
    }
}

/// The methods made from the first `n` of the declarations `methods`, by
/// name. Of two with one name the later one stays.
pub open spec fn method_table(ast: AstView, methods: Seq<usize>, frame: usize, n: nat) -> Map<
    Seq<char>,
    ObjectView,
>
    decreases n,
{
    if n == 0 || n > methods.len() {
        Map::empty()
    } else {
        let before = method_table(ast, methods, frame, (n - 1) as nat);
        match method_of(ast, methods[n - 1], frame) {
            Some((name, method)) => before.insert(name, method),
            None => before,
        }
    }
}

/// How many parameters the function `f` declares.
pub open spec fn function_arity(ast: AstView, f: LoxFunction) -> nat {
    if f.decl < ast.stmts.len() {
        match ast.stmts[f.decl as int] {
            StmtView::Function(_, params, _) => params.len(),
            _ => 0,
        }
    } else {
        0
    }
}

impl InterpreterView {
    /// A machine with nothing loaded: the global frame holds `clock` and
    /// nothing else.
    pub open spec fn start(repl: bool) -> InterpreterView {
        InterpreterView {
            repl,
            env: EnvView::start().define(GLOBAL, "clock"@, ObjectView::Func(Callable::Clock)),
            classes: Seq::empty(),
            instances: Seq::empty(),
            locals: Map::empty(),
            control: ControlView::Idle,
            stack: Seq::empty(),
        }
    }

    /// The machine doing `control` next, and nothing for the host to do.
    pub open spec fn go(self, control: ControlView) -> Stepped {
        (InterpreterView { control, ..self }, ActionView::Proceed)
    }

    /// The machine with one more construct waiting.
    pub open spec fn push(self, k: KontView) -> InterpreterView {
        InterpreterView { stack: self.stack.push(k), ..self }
    }

    pub open spec fn deliver(self, v: ObjectView) -> Stepped {
        self.go(ControlView::Value(v))
    }

    pub open spec fn raise(self, e: ErrorView) -> Stepped {
        self.go(ControlView::Raise(e))
    }

    pub open spec fn fault(self) -> Stepped {
        self.raise(bad_reference())
    }

    /// The depth that the resolver recorded for the node `expr`.
    pub open spec fn depth(self, expr: usize) -> Option<usize> {
        if self.locals.contains_key(expr) {
            Some(self.locals[expr])
        } else {
            None
        }
    }

    pub open spec fn class_name(self, class: usize) -> Seq<char> {
        if class < self.classes.len() {
            self.classes[class as int].name
        } else {
            ""@
        }
    }

    /// How a value is written by `print`.
    pub open spec fn display(self, v: ObjectView) -> OutputView {
        match v {
            ObjectView::Nil => OutputView::Text("nil"@),
            ObjectView::Bool(b) => OutputView::Text(
                if b {
                    "true"@
                } else {
                    "false"@
                },
            ),
            ObjectView::Number(n) => OutputView::Number(n),
            ObjectView::Str(s) => OutputView::Text(s),
            ObjectView::Func(_) => OutputView::Text("<function>"@),
            ObjectView::Class(c) => OutputView::Text(self.class_name(c)),
            ObjectView::Instance(i) => OutputView::Text(
                if i < self.instances.len() {
                    self.class_name(self.instances[i as int].class) + " instance"@
                } else {
                    " instance"@
                },
            ),
        }
    }

    /// Printing `v`: the host gets the line, the statement is done.
    pub open spec fn print(self, v: ObjectView) -> Stepped {
        (InterpreterView { control: ControlView::Normal, ..self }, ActionView::Print(self.display(v)))
    }

    /// A literal yields the value it stands for. A number is first turned
    /// into a binary64 by the host.
    pub open spec fn visit_literal(self, lit: TokenView) -> Stepped {
        match lit.literal {
            Some(LiteralView::Nil) => self.deliver(ObjectView::Nil),
            Some(LiteralView::Boolean(b)) => self.deliver(ObjectView::Bool(b)),
            Some(LiteralView::String(s)) => self.deliver(ObjectView::Str(s)),
            Some(LiteralView::Number(text)) => (
                InterpreterView { control: ControlView::Await(RequestView::Numeral(text)), ..self },
                ActionView::Ask(RequestView::Numeral(text)),
            ),
            None => self.deliver(ObjectView::Nil),
        }
    }

    /// A variable is read in the frame at the depth that the resolver
    /// recorded for the reference, or in the global frame if it recorded
    /// none.
    pub open spec fn lookup_var(self, expr: usize, id: TokenView, env: usize) -> Stepped {
        match self.env.get_at(env, id, self.depth(expr)) {
            Ok(v) => self.deliver(v),
            Err(e) => self.raise(e),
        }
    }

    /// The method `f` bound to `instance`: the same function, closing over a
    /// new frame that holds `this`.
    pub open spec fn bind(self, f: LoxFunction, instance: usize) -> (InterpreterView, LoxFunction) {
        let (env, frame) = self.env.push_frame(f.closure);
        (
            InterpreterView {
                env: env.define(frame, "this"@, ObjectView::Instance(instance)),
                ..self
            },
            LoxFunction { closure: frame, ..f },
        )
    }

    /// `super.method`: the method is looked up from the superclass on, and
    /// bound to the current `this`.
    pub open spec fn visit_super(
        self,
        expr: usize,
        keyword: TokenView,
        method: TokenView,
        env: usize,
    ) -> Stepped {
        let depth = self.depth(expr);
        match self.env.get_at(env, keyword, depth) {
            Err(e) => self.raise(e),
            Ok(ObjectView::Class(class)) => match depth {
                Some(d) => if d == 0 {
                    self.fault()
                } else {
                    match self.env.get_at(env, this_token(keyword), Some((d - 1) as usize)) {
                        Err(e) => self.raise(e),
                        Ok(ObjectView::Instance(instance)) => match find_method(
                            self.classes,
                            class,
                            method.lexeme,
                        ) {
                            Some(f) => if self.env.has(f.closure) {
                                let (bound, f) = self.bind(f, instance);
                                bound.deliver(ObjectView::Func(Callable::Runtime(f)))
                            } else {
                                self.fault()
                            },
                            None => self.raise(
                                runtime(method, "Undefined property "@ + method.lexeme),
                            ),
                        },
                        Ok(_) => self.fault(),
                    }
                },
                None => self.fault(),
            },
            Ok(_) => self.raise(runtime(keyword, "Superclass must be a class"@)),
        }
    }

    /// The first step of evaluating the expression `e` in the frame `env`.
    pub open spec fn eval(self, ast: AstView, e: usize, env: usize) -> Stepped {
        if e >= ast.exprs.len() || !self.env.has(env) {
            self.fault()
        } else {
            match ast.exprs[e as int] {
                ExprView::Literal(lit) => self.visit_literal(lit),
                ExprView::Identifier(id) => self.lookup_var(e, id, env),
                ExprView::This(token) => self.lookup_var(e, token, env),
                ExprView::Grouping(inner) => self.go(ControlView::Eval(inner, env)),
                ExprView::Unary(_, rhs) => self.push(KontView::Unary(e)).go(
                    ControlView::Eval(rhs, env),
                ),
                ExprView::Binary(lhs, _, _) => self.push(KontView::BinaryLeft(e, env)).go(
                    ControlView::Eval(lhs, env),
                ),
                ExprView::Logical(lhs, _, _) => self.push(KontView::Logical(e, env)).go(
                    ControlView::Eval(lhs, env),
                ),
                ExprView::Assignment(_, val) => self.push(KontView::Assign(e, env)).go(
                    ControlView::Eval(val, env),
                ),
                ExprView::Call(callee, _, _) => self.push(KontView::Callee(e, env)).go(
                    ControlView::Eval(callee, env),
                ),
                ExprView::Get(object, _) => self.push(KontView::Get(e)).go(
                    ControlView::Eval(object, env),
                ),
                ExprView::SetField(object, _, _) => self.push(KontView::SetObject(e, env)).go(
                    ControlView::Eval(object, env),
                ),
                ExprView::Super(keyword, method) => self.visit_super(e, keyword, method, env),
            }
        }
    }

    /// `l and r`, `l or r`, once `l` has yielded `lhs`: `lhs` itself where it
    /// settles the matter, else whatever `r` yields.
    pub open spec fn visit_logical(self, ast: AstView, e: usize, env: usize, lhs: ObjectView) -> Stepped {
        match ast.exprs[e as int] {
            ExprView::Logical(_, op, rhs) => if op.token_type == TokenType::Or && lhs.is_truthy() {
                self.deliver(lhs)
            } else if op.token_type == TokenType::And && !lhs.is_truthy() {
                self.deliver(lhs)
            } else {
                self.go(ControlView::Eval(rhs, env))
            },
            _ => self.fault(),
        }
    }

    /// `name = e`, once `e` has yielded `v`: the variable is written where
    /// the resolver found it, and the assignment yields `v`.
    pub open spec fn visit_assignment(self, ast: AstView, e: usize, env: usize, v: ObjectView) -> Stepped {
        match ast.exprs[e as int] {
            ExprView::Assignment(id, _) => {
                let (env2, res) = self.env.assign_at(env, id, v, self.depth(e));
                match res {
                    Ok(v) => InterpreterView { env: env2, ..self }.deliver(v),
                    Err(err) => self.raise(err),
                }
            },
            _ => self.fault(),
        }
    }

    /// How many arguments `callee` takes; nothing if it cannot be called.
    pub open spec fn arity(self, ast: AstView, callee: ObjectView) -> Option<nat> {
        match callee {
            ObjectView::Func(Callable::Runtime(f)) => Some(function_arity(ast, f)),
            ObjectView::Func(Callable::Clock) => Some(0),
            ObjectView::Func(Callable::Init(ClassInit(c))) => Some(self.class_arity(ast, c)),
            ObjectView::Class(c) => Some(self.class_arity(ast, c)),
            _ => None,
        }
    }

    /// A class takes the arguments of its `init`, if it has one.
    pub open spec fn class_arity(self, ast: AstView, class: usize) -> nat {
        match find_method(self.classes, class, "init"@) {
            Some(f) => function_arity(ast, f),
            None => 0,
        }
    }

    /// Entering the function `f` with `args`, in the call that `paren`
    /// closes. There must be one argument for each parameter; else the call
    /// is an error and nothing is entered. A new frame under the closure
    /// binds the parameters, and the body runs in it. What the call yields
    /// is settled when the body is left.
    pub open spec fn call_function(
        self,
        ast: AstView,
        f: LoxFunction,
        paren: TokenView,
        args: Seq<ObjectView>,
    ) -> Stepped {
        if f.decl >= ast.stmts.len() || !self.env.has(f.closure) {
            self.fault()
        } else {
            match ast.stmts[f.decl as int] {
                StmtView::Function(_, params, body) => if params.len() != args.len() {
                    self.raise(wrong_arity(paren, params.len(), args.len()))
                } else {
                    let (env, frame) = self.env.push_frame(f.closure);
                    let closure = self.env.frames[f.closure as int].bindings;
                    let instance = if f.is_initializer && closure.contains_key("this"@) {
                        match closure["this"@] {
                            ObjectView::Instance(i) => Some(i),
                            _ => None,
                        }
                    } else {
                        None
                    };
                    InterpreterView {
                        env: bind_params(env, frame, params, args, 0),
                        ..self
                    }.push(KontView::Call(instance)).go(ControlView::Exec(body, frame))
                },
                _ => self.fault(),
            }
        }
    }

    /// Calling the class `class` with `args`, in the call that `paren`
    /// closes. There must be as many arguments as the `init` of the class
    /// takes, and none if it has no `init`; else the call is an error and
    /// nothing is made. A new instance is made; if the class has an `init`,
    /// it runs on the instance with `args`. The call yields the instance.
    pub open spec fn instantiate(
        self,
        ast: AstView,
        class: usize,
        paren: TokenView,
        args: Seq<ObjectView>,
    ) -> Stepped {
        if class >= self.classes.len() {
            self.fault()
        } else if self.class_arity(ast, class) != args.len() {
            self.raise(wrong_arity(paren, self.class_arity(ast, class), args.len()))
        } else {
            let instance = self.instances.len() as usize;
            let made = InterpreterView {
                instances: self.instances.push(InstanceView { class, fields: Map::empty() }),
                ..self
            };
            match find_method(self.classes, class, "init"@) {
                Some(f) => if self.env.has(f.closure) {
                    let (bound, f) = made.bind(f, instance);
                    bound.call_function(ast, f, paren, args)
                } else {
                    self.fault()
                },
                None => made.deliver(ObjectView::Instance(instance)),
            }
        }
    }

    /// Calling `callee` with `args`, in the call that `paren` closes. What
    /// is called must be a function or a class and take exactly as many
    /// arguments as are given; else the call is an error at the line of
    /// `paren`, and nothing is entered or made.
    pub open spec fn call_dispatch(
        self,
        ast: AstView,
        callee: ObjectView,
        paren: TokenView,
        args: Seq<ObjectView>,
    ) -> Stepped {
        match self.arity(ast, callee) {
            None => self.raise(runtime(paren, "Can only call functions and classes"@)),
            Some(n) => if n != args.len() {
                self.raise(wrong_arity(paren, n, args.len()))
            } else {
                self.apply(ast, callee, paren, args)
            },
        }
    }

    /// Applying `callee` to as many arguments as it takes.
    pub open spec fn apply(
        self,
        ast: AstView,
        callee: ObjectView,
        paren: TokenView,
        args: Seq<ObjectView>,
    ) -> Stepped {
        match callee {
            ObjectView::Func(Callable::Runtime(f)) => self.call_function(ast, f, paren, args),
            ObjectView::Func(Callable::Clock) => (
                InterpreterView { control: ControlView::Await(RequestView::Clock), ..self },
                ActionView::Ask(RequestView::Clock),
            ),
            ObjectView::Func(Callable::Init(ClassInit(c))) => self.instantiate(ast, c, paren, args),
            ObjectView::Class(c) => self.instantiate(ast, c, paren, args),
            _ => self.fault(),
        }
    }

    /// A call, once `done` arguments have been evaluated: the next argument
    /// is evaluated, or the call is made.
    pub open spec fn visit_args(
        self,
        ast: AstView,
        e: usize,
        env: usize,
        callee: ObjectView,
        done: Seq<ObjectView>,
    ) -> Stepped {
        match ast.exprs[e as int] {
            ExprView::Call(_, paren, args) => if done.len() < args.len() {
                self.push(KontView::Args(e, env, callee, done)).go(
                    ControlView::Eval(args[done.len() as int], env),
                )
            } else {
                self.call_dispatch(ast, callee, paren, done)
            },
            _ => self.fault(),
        }
    }

    /// A call, once the callee has yielded `callee`: it must be something
    /// that can be called, and take as many arguments as are given.
    pub open spec fn visit_call(self, ast: AstView, e: usize, env: usize, callee: ObjectView) -> Stepped {
        match ast.exprs[e as int] {
            ExprView::Call(_, paren, args) => match self.arity(ast, callee) {
                None => self.raise(runtime(paren, "Can only call functions and classes"@)),
                Some(n) => if n != args.len() {
                    self.raise(wrong_arity(paren, n, args.len()))
                } else {
                    self.visit_args(ast, e, env, callee, seq![])
                },
            },
            _ => self.fault(),
        }
    }

    /// `o.name`, once `o` has yielded `object`: the field of that name, or
    /// else the method of that name bound to the instance.
    pub open spec fn visit_get(self, ast: AstView, e: usize, object: ObjectView) -> Stepped {
        match ast.exprs[e as int] {
            ExprView::Get(_, prop) => match object {
                ObjectView::Instance(i) => if i >= self.instances.len() {
                    self.fault()
                } else if self.instances[i as int].fields.contains_key(prop.lexeme) {
                    self.deliver(self.instances[i as int].fields[prop.lexeme])
                } else {
                    match find_method(self.classes, self.instances[i as int].class, prop.lexeme) {
                        Some(f) => if self.env.has(f.closure) {
                            let (bound, f) = self.bind(f, i);
                            bound.deliver(ObjectView::Func(Callable::Runtime(f)))
                        } else {
                            self.fault()
                        },
                        None => self.raise(runtime(prop, "Undefined property "@ + prop.lexeme)),
                    }
                },
                _ => self.raise(runtime(prop, "Only instances have properties"@)),
            },
            _ => self.fault(),
        }
    }

    /// `o.name = e`, once `o` has yielded `object`: it must be an instance.
    pub open spec fn visit_set(self, ast: AstView, e: usize, env: usize, object: ObjectView) -> Stepped {
        match ast.exprs[e as int] {
            ExprView::SetField(_, prop, val) => match object {
                ObjectView::Instance(i) => self.push(KontView::SetValue(e, i)).go(
                    ControlView::Eval(val, env),
                ),
                _ => self.raise(runtime(prop, "Only instances have fields"@)),
            },
            _ => self.fault(),
        }
    }

    /// `o.name = e`, once `e` has yielded `v`: the field is set, whether or
    /// not it existed, and the expression yields `v`.
    pub open spec fn set_field(self, ast: AstView, e: usize, instance: usize, v: ObjectView) -> Stepped {
        match ast.exprs[e as int] {
            ExprView::SetField(_, prop, _) => if instance >= self.instances.len() {
                self.fault()
            } else {
                let old = self.instances[instance as int];
                InterpreterView {
                    instances: self.instances.update(
                        instance as int,
                        InstanceView { fields: old.fields.insert(prop.lexeme, v), ..old },
                    ),
                    ..self
                }.deliver(v)
            },
            _ => self.fault(),
        }
    }

    /// `if`, once the condition has yielded `cond`.
    pub open spec fn visit_if(self, ast: AstView, s: usize, env: usize, cond: ObjectView) -> Stepped {
        match ast.stmts[s as int] {
            StmtView::If(_, then_stmt, else_stmt) => if cond.is_truthy() {
                self.go(ControlView::Exec(then_stmt, env))
            } else {
                match else_stmt {
                    Some(else_stmt) => self.go(ControlView::Exec(else_stmt, env)),
                    None => self.go(ControlView::Normal),
                }
            },
            _ => self.fault(),
        }
    }

    /// `while`, once the condition has yielded `cond`.
    pub open spec fn visit_while(self, ast: AstView, s: usize, env: usize, cond: ObjectView) -> Stepped {
        match ast.stmts[s as int] {
            StmtView::While(_, body) => if cond.is_truthy() {
                self.push(KontView::WhileBody(s, env)).go(ControlView::Exec(body, env))
            } else {
                self.go(ControlView::Normal)
            },
            _ => self.fault(),
        }
    }

    /// A class declaration, once its superclass, if it names one, has
    /// yielded `parent`. The methods close over the current frame, or, where
    /// there is a superclass, over a new frame under it that holds `super`.
    /// The class is bound to its name in the current frame.
    pub open spec fn visit_class(self, ast: AstView, s: usize, env: usize, parent: Option<ObjectView>) -> Stepped {
        match ast.stmts[s as int] {
            StmtView::Class(name, _, methods) => {
                let id = self.classes.len() as usize;
                match parent {
                    Some(ObjectView::Class(p)) => if p >= self.classes.len() {
                        self.fault()
                    } else {
                        let (env1, frame) = self.env.push_frame(env);
                        let env2 = env1.define(frame, "super"@, ObjectView::Class(p));
                        let class = ClassView {
                            name: name.lexeme,
                            parent: Some(p),
                            methods: method_table(ast, methods, frame, methods.len()),
                        };
                        InterpreterView {
                            env: env2.define(env, name.lexeme, ObjectView::Class(id)),
                            classes: self.classes.push(class),
                            ..self
                        }.go(ControlView::Normal)
                    },
                    Some(_) => self.raise(runtime(name, "Superclass must be a class"@)),
                    None => {
                        let class = ClassView {
                            name: name.lexeme,
                            parent: None,
                            methods: method_table(ast, methods, env, methods.len()),
                        };
                        InterpreterView {
                            env: self.env.define(env, name.lexeme, ObjectView::Class(id)),
                            classes: self.classes.push(class),
                            ..self
                        }.go(ControlView::Normal)
                    },
                }
            },
            _ => self.fault(),
        }
    }

    /// The first step of running the statement `s` in the frame `env`.
    pub open spec fn exec(self, ast: AstView, s: usize, env: usize) -> Stepped {
        if s >= ast.stmts.len() || !self.env.has(env) {
            self.fault()
        } else {
            match ast.stmts[s as int] {
                StmtView::Expression(e) => self.push(
                    KontView::ExprStmt(self.repl && env == GLOBAL),
                ).go(ControlView::Eval(e, env)),
                StmtView::Print(e) => self.push(KontView::Print).go(ControlView::Eval(e, env)),
                StmtView::Declaration(id, init) => match init {
                    Some(init) => self.push(KontView::VarInit(s, env)).go(
                        ControlView::Eval(init, env),
                    ),
                    None => InterpreterView {
                        env: self.env.define(env, id.lexeme, ObjectView::Nil),
                        ..self
                    }.go(ControlView::Normal),
                },
                StmtView::Block(body) => {
                    let (env1, frame) = self.env.push_frame(env);
                    InterpreterView { env: env1, ..self }.push(KontView::Block(s, 0, frame)).go(
                        ControlView::Normal,
                    )
                },
                StmtView::If(cond, _, _) => self.push(KontView::IfCond(s, env)).go(
                    ControlView::Eval(cond, env),
                ),
                StmtView::While(cond, _) => self.push(KontView::WhileCond(s, env)).go(
                    ControlView::Eval(cond, env),
                ),
                StmtView::Break(token) => self.raise(ErrorView::Break(token.line)),
                StmtView::Function(name, _, _) => InterpreterView {
                    env: self.env.define(
                        env,
                        name.lexeme,
                        ObjectView::Func(
                            Callable::Runtime(
                                LoxFunction { decl: s, closure: env, is_initializer: false },
                            ),
                        ),
                    ),
                    ..self
                }.go(ControlView::Normal),
                StmtView::Return(keyword, val) => match val {
                    Some(val) => self.push(KontView::ReturnValue(s)).go(ControlView::Eval(val, env)),
                    None => self.raise(ErrorView::Return(keyword.line, ObjectView::Nil)),
                },
                StmtView::Class(_, parent, _) => match parent {
                    Some(parent) => self.push(KontView::Superclass(s, env)).go(
                        ControlView::Eval(parent, env),
                    ),
                    None => self.visit_class(ast, s, env, None),
                },
            }
        }
    }

    /// Whether the waiting construct `k` names nodes and frames that exist.
    pub open spec fn kont_ok(self, ast: AstView, k: KontView) -> bool {
        match k {
            KontView::Unary(e) => e < ast.exprs.len(),
            KontView::BinaryLeft(e, env) => e < ast.exprs.len() && self.env.has(env),
            KontView::BinaryRight(e, _) => e < ast.exprs.len(),
            KontView::Logical(e, env) => e < ast.exprs.len() && self.env.has(env),
            KontView::Assign(e, env) => e < ast.exprs.len() && self.env.has(env),
            KontView::Callee(e, env) => e < ast.exprs.len() && self.env.has(env),
            KontView::Args(e, env, _, _) => e < ast.exprs.len() && self.env.has(env),
            KontView::Get(e) => e < ast.exprs.len(),
            KontView::SetObject(e, env) => e < ast.exprs.len() && self.env.has(env),
            KontView::SetValue(e, _) => e < ast.exprs.len(),
            KontView::ExprStmt(_) => true,
            KontView::Print => true,
            KontView::VarInit(s, env) => s < ast.stmts.len() && self.env.has(env),
            KontView::Block(s, _, env) => s < ast.stmts.len() && self.env.has(env),
            KontView::IfCond(s, env) => s < ast.stmts.len() && self.env.has(env),
            KontView::WhileCond(s, env) => s < ast.stmts.len() && self.env.has(env),
            KontView::WhileBody(s, env) => s < ast.stmts.len() && self.env.has(env),
            KontView::ReturnValue(s) => s < ast.stmts.len(),
            KontView::Superclass(s, env) => s < ast.stmts.len() && self.env.has(env),
            KontView::Call(_) => true,
        }
    }

    /// The step that hands the value `v` to the waiting construct `k`. A
    /// construct that waits for a statement has no use for a value.
    pub open spec fn resume(self, ast: AstView, k: KontView, v: ObjectView) -> Stepped {
        if !self.kont_ok(ast, k) {
            self.fault()
        } else {
            match k {
                KontView::Unary(e) => match ast.exprs[e as int] {
                    ExprView::Unary(op, _) => self.go(unary_op(op, v)),
                    _ => self.fault(),
                },
                KontView::BinaryLeft(e, env) => match ast.exprs[e as int] {
                    ExprView::Binary(_, _, rhs) => self.push(KontView::BinaryRight(e, v)).go(
                        ControlView::Eval(rhs, env),
                    ),
                    _ => self.fault(),
                },
                KontView::BinaryRight(e, lhs) => match ast.exprs[e as int] {
                    ExprView::Binary(_, op, _) => {
                        let (control, action) = binary_op(op, lhs, v);
                        (InterpreterView { control, ..self }, action)
                    },
                    _ => self.fault(),
                },
                KontView::Logical(e, env) => self.visit_logical(ast, e, env, v),
                KontView::Assign(e, env) => self.visit_assignment(ast, e, env, v),
                KontView::Callee(e, env) => self.visit_call(ast, e, env, v),
                KontView::Args(e, env, callee, done) => self.visit_args(
                    ast,
                    e,
                    env,
                    callee,
                    done.push(v),
                ),
                KontView::Get(e) => self.visit_get(ast, e, v),
                KontView::SetObject(e, env) => self.visit_set(ast, e, env, v),
                KontView::SetValue(e, instance) => self.set_field(ast, e, instance, v),
                KontView::ExprStmt(print) => if print {
                    self.print(v)
                } else {
                    self.go(ControlView::Normal)
                },
                KontView::Print => self.print(v),
                KontView::VarInit(s, env) => match ast.stmts[s as int] {
                    StmtView::Declaration(id, _) => InterpreterView {
                        env: self.env.define(env, id.lexeme, v),
                        ..self
                    }.go(ControlView::Normal),
                    _ => self.fault(),
                },
                KontView::IfCond(s, env) => self.visit_if(ast, s, env, v),
                KontView::WhileCond(s, env) => self.visit_while(ast, s, env, v),
                KontView::ReturnValue(s) => match ast.stmts[s as int] {
                    StmtView::Return(keyword, _) => self.raise(ErrorView::Return(keyword.line, v)),
                    _ => self.fault(),
                },
                KontView::Superclass(s, env) => self.visit_class(ast, s, env, Some(v)),
                _ => self.fault(),
            }
        }
    }

    /// The step that tells the waiting construct `k` that the statement it
    /// waited for has run to its end. A construct that waits for a value has
    /// no use for that.
    pub open spec fn complete(self, ast: AstView, k: KontView) -> Stepped {
        if !self.kont_ok(ast, k) {
            self.fault()
        } else {
            match k {
                KontView::Block(s, next, env) => match ast.stmts[s as int] {
                    StmtView::Block(body) => if next < body.len() {
                        self.push(KontView::Block(s, (next + 1) as usize, env)).go(
                            ControlView::Exec(body[next as int], env),
                        )
                    } else {
                        self.go(ControlView::Normal)
                    },
                    _ => self.fault(),
                },
                KontView::WhileBody(s, env) => match ast.stmts[s as int] {
                    StmtView::While(cond, _) => self.push(KontView::WhileCond(s, env)).go(
                        ControlView::Eval(cond, env),
                    ),
                    _ => self.fault(),
                },
                KontView::Call(instance) => match instance {
                    Some(i) => self.deliver(ObjectView::Instance(i)),
                    None => self.deliver(ObjectView::Nil),
                },
                _ => self.fault(),
            }
        }
    }

    /// The step that passes the signal `e` by the waiting construct `k`. A
    /// running loop catches `break`; a running function catches `return`;
    /// everything else is left behind.
    pub open spec fn unwind(self, k: KontView, e: ErrorView) -> Stepped {
        match (k, e) {
            (KontView::WhileBody(_, _), ErrorView::Break(_)) => self.go(ControlView::Normal),
            (KontView::Call(instance), ErrorView::Return(_, v)) => match instance {
                Some(i) => self.deliver(ObjectView::Instance(i)),
                None => self.deliver(v),
            },
            _ => self.raise(e),
        }
    }

    /// The machine without its innermost waiting construct.
    pub open spec fn pop(self) -> InterpreterView {
        InterpreterView { stack: self.stack.drop_last(), ..self }
    }

    /// The machine at rest, and the word to the host that it is.
    pub open spec fn stop(self, action: ActionView) -> Stepped {
        (InterpreterView { control: ControlView::Idle, ..self }, action)
    }

    /// One step of the machine.
    pub open spec fn step(self, ast: AstView) -> Stepped {
        match self.control {
            ControlView::Idle => (self, ActionView::Idle),
            ControlView::Await(request) => (self, ActionView::Ask(request)),
            ControlView::Eval(e, env) => self.eval(ast, e, env),
            ControlView::Exec(s, env) => self.exec(ast, s, env),
            ControlView::Value(v) => if self.stack.len() == 0 {
                self.stop(ActionView::Finished)
            } else {
                self.pop().resume(ast, self.stack.last(), v)
            },
            ControlView::Normal => if self.stack.len() == 0 {
                self.stop(ActionView::Finished)
            } else {
                self.pop().complete(ast, self.stack.last())
            },
            ControlView::Raise(e) => if self.stack.len() == 0 {
                self.stop(ActionView::Failed(e))
            } else {
                self.pop().unwind(self.stack.last(), e)
            },
        }
    }

    /// The host's answer `n` to the question the machine waits on. A
    /// machine that waits on nothing is left as it is.
    pub open spec fn reply(self, n: u64) -> InterpreterView {
        match self.control {
            ControlView::Await(_) => InterpreterView {
                control: ControlView::Value(ObjectView::Number(n)),
                ..self
            },
            _ => self,
        }
    }

    /// Loading the statement `s` to run at the top level. A machine that is
    /// not at rest is left as it is.
    pub open spec fn load(self, s: usize) -> InterpreterView {
        match self.control {
            ControlView::Idle => InterpreterView { control: ControlView::Exec(s, GLOBAL), ..self },
            _ => self,
        }
    }

    /// Up to `fuel` steps, stopping early at the first step that has
    /// something for the host.
    pub open spec fn run(self, ast: AstView, fuel: nat) -> Stepped
        decreases fuel,
    {
        if fuel == 0 {
            (self, ActionView::Proceed)
        } else {
            let (next, action) = self.step(ast);
            if action is Proceed {
                next.run(ast, (fuel - 1) as nat)
            } else {
                (next, action)
            }
        }
    }
}

} // verus!
