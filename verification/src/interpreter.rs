//! The evaluator.
//!
//! `Interpreter` is the machine of `crate::semantics`, made of vectors and
//! strings. Each method is proved to do to the machine exactly what the
//! function of the same name in `InterpreterView` says.

use vstd::prelude::*;
use vstd::string::StringExecFns;
use crate::ast::Ast;
use crate::class::{
    class_views, classes_wf, instance_views, instances_wf, lookup_method, LoxClass, LoxInstance,
};
use crate::env::Env;
use crate::error::RloxError;
use crate::expr::Expr;
use crate::functions::{Callable, ClassInit, LoxFunction};
use crate::locals::Locals;
use crate::machine::{
    kont_views, object_views, Action, ArithOp, Control, Kont, Output, Request,
};
use crate::number;
use crate::object::Object;
use crate::semantics::{
    bad_reference, binary_op, bind_params, compare, function_arity, method_table, runtime,
    unary_op, wrong_arity, InterpreterView, GLOBAL,
};
use crate::stmt::{token_views, Stmt};
use crate::table::Table;
use crate::text::{decimal, joined};
use crate::tokens::{Literal, Token, TokenType};

verus! {

pub struct Interpreter {
    pub repl: bool,
    pub env: Env,
    pub classes: Vec<LoxClass>,
    pub instances: Vec<LoxInstance>,
    pub locals: Locals,
    pub control: Control,
    pub stack: Vec<Kont>,
}

impl View for Interpreter {
    type V = InterpreterView;

    open spec fn view(&self) -> InterpreterView {
        InterpreterView {
            repl: self.repl,
            env: self.env@,
            classes: class_views(self.classes@),
            instances: instance_views(self.instances@),
            locals: self.locals@,
            control: self.control@,
            stack: kont_views(self.stack@),
        }
    }
}

/// A token that carries the name `text` and nothing else.
fn name_token(token_type: TokenType, text: &str, line: usize, offset: usize) -> (t: Token)
    ensures
        t@ == (crate::tokens::TokenView {
            token_type,
            lexeme: text@,
            literal: None,
            line,
            offset,
        }),
{
    Token { token_type, lexeme: text.to_string(), literal: None, line, offset }
}

fn runtime_error(at: &Token, msg: String) -> (e: RloxError)
    ensures
        e@ == runtime(at@, msg@),
{
    RloxError::Runtime(at.line, msg, at.lexeme.clone())
}

fn bad_reference_error() -> (e: RloxError)
    ensures
        e@ == bad_reference(),
{
    RloxError::Runtime(0, "Bad reference".to_string(), "".to_string())
}

impl Interpreter {
    /// The frames are in order and so is every table of names.
    pub open spec fn wf(&self) -> bool {
        &&& self.env.wf()
        &&& classes_wf(self.classes@)
        &&& instances_wf(self.instances@)
    }

    /// A machine with nothing loaded. In REPL mode a top-level expression
    /// statement prints its value.
    pub fn new(repl: bool) -> (i: Self)
        ensures
            i.wf(),
            i@ == InterpreterView::start(repl),
    {
        let mut env = Env::new();
        let clock = name_token(TokenType::Ident, "clock", 0, 0);
        env.define(GLOBAL, &clock, Object::Func(Callable::Clock));
        let i = Interpreter {
            repl,
            env,
            classes: Vec::new(),
            instances: Vec::new(),
            locals: Locals::new(),
            control: Control::Idle,
            stack: Vec::new(),
        };
        assert(i@.classes =~= Seq::empty());
        assert(i@.instances =~= Seq::empty());
        assert(i@.stack =~= Seq::empty());
        i
    }

    /// Records the depth that the resolver found for the reference `expr`.
    pub fn resolve(&mut self, expr: usize, idx: usize)
        requires
            expr < usize::MAX,
        ensures
            final(self)@ == (InterpreterView {
                locals: old(self)@.locals.insert(expr, idx),
                ..old(self)@
            }),
            final(self).wf() == old(self).wf(),
    {
        self.locals.resolve(expr, idx);
    }

    fn push(&mut self, k: Kont)
        requires
            old(self).wf(),
        ensures
            final(self).wf(),
            final(self)@ == old(self)@.push(k@),
    {
        self.stack.push(k);
        assert(self@.stack =~= old(self)@.stack.push(k@));
    }

    fn pop(&mut self) -> (k: Kont)
        requires
            old(self).wf(),
            old(self)@.stack.len() > 0,
        ensures
            final(self).wf(),
            final(self)@ == old(self)@.pop(),
            k@ == old(self)@.stack.last(),
    {
        let k = self.stack.pop().unwrap();
        assert(self@.stack =~= old(self)@.stack.drop_last());
        k
    }

    fn go(&mut self, control: Control) -> (a: Action)
        requires
            old(self).wf(),
        ensures
            final(self).wf(),
            (final(self)@, a@) == old(self)@.go(control@),
    {
        self.control = control;
        Action::Proceed
    }

    fn deliver(&mut self, v: Object) -> (a: Action)
        requires
            old(self).wf(),
        ensures
            final(self).wf(),
            (final(self)@, a@) == old(self)@.deliver(v@),
    {
        self.go(Control::Value(v))
    }

    fn raise(&mut self, e: RloxError) -> (a: Action)
        requires
            old(self).wf(),
        ensures
            final(self).wf(),
            (final(self)@, a@) == old(self)@.raise(e@),
    {
        self.go(Control::Raise(e))
    }

    fn fault(&mut self) -> (a: Action)
        requires
            old(self).wf(),
        ensures
            final(self).wf(),
            (final(self)@, a@) == old(self)@.fault(),
    {
        self.raise(bad_reference_error())
    }

    fn depth(&self, expr: usize) -> (d: Option<usize>)
        ensures
            d == self@.depth(expr),
    {
        self.locals.get(expr)
    }

    fn class_name(&self, class: usize) -> (name: String)
        ensures
            name@ == self@.class_name(class),
    {
        if class < self.classes.len() {
            assert(self@.classes[class as int] == self.classes@[class as int]@);
            self.classes[class].name.clone()
        } else {
            "".to_string()
        }
    }

    /// How `print` writes the value `v`.
    pub fn display(&self, v: &Object) -> (out: Output)
        ensures
            out@ == self@.display(v@),
    {
        match v {
            Object::Nil => Output::Text("nil".to_string()),
            Object::Bool(b) => Output::Text(
                if *b {
                    "true".to_string()
                } else {
                    "false".to_string()
                },
            ),
            Object::Number(n) => Output::Number(*n),
            Object::Str(s) => Output::Text(s.clone()),
            Object::Func(_) => Output::Text("<function>".to_string()),
            Object::Class(c) => Output::Text(self.class_name(*c)),
            Object::Instance(i) => {
                if *i < self.instances.len() {
                    assert(self@.instances[*i as int] == self.instances@[*i as int]@);
                    let name = self.class_name(self.instances[*i].class);
                    Output::Text(joined(name.as_str(), " instance"))
                } else {
                    Output::Text(" instance".to_string())
                }
            },
        }
    }

    fn print(&mut self, v: &Object) -> (a: Action)
        requires
            old(self).wf(),
        ensures
            final(self).wf(),
            (final(self)@, a@) == old(self)@.print(v@),
    {
        let out = self.display(v);
        self.control = Control::Normal;
        Action::Print(out)
    }

    fn visit_literal(&mut self, lit: &Token) -> (a: Action)
        requires
            old(self).wf(),
        ensures
            final(self).wf(),
            (final(self)@, a@) == old(self)@.visit_literal(lit@),
    {
        match &lit.literal {
            Some(Literal::Nil) => self.deliver(Object::Nil),
            Some(Literal::Boolean(b)) => self.deliver(Object::Bool(*b)),
            Some(Literal::String(s)) => self.deliver(Object::Str(s.clone())),
            Some(Literal::Number(text)) => {
                self.control = Control::Await(Request::Numeral(text.clone()));
                Action::Ask(Request::Numeral(text.clone()))
            },
            None => self.deliver(Object::Nil),
        }
    }

    fn lookup_var(&mut self, id: &Token, expr: usize, env: usize) -> (a: Action)
        requires
            old(self).wf(),
            old(self)@.env.has(env),
        ensures
            final(self).wf(),
            (final(self)@, a@) == old(self)@.lookup_var(expr, id@, env),
    {
        match self.env.get_at(env, id, self.depth(expr)) {
            Ok(v) => self.deliver(v),
            Err(e) => self.raise(e),
        }
    }

    /// The method `f` bound to `instance`.
    pub fn bind(&mut self, f: LoxFunction, instance: usize) -> (b: LoxFunction)
        requires
            old(self).wf(),
            old(self)@.env.has(f.closure),
        ensures
            final(self).wf(),
            (final(self)@, b) == old(self)@.bind(f, instance),
    {
        let frame = self.env.from(f.closure);
        let this = name_token(TokenType::This, "this", 0, 0);
        self.env.define(frame, &this, Object::Instance(instance));
        LoxFunction { decl: f.decl, closure: frame, is_initializer: f.is_initializer }
    }

    fn undefined_property(prop: &Token) -> (e: RloxError)
        ensures
            e@ == runtime(prop@, "Undefined property "@ + prop@.lexeme),
    {
        runtime_error(prop, joined("Undefined property ", prop.lexeme.as_str()))
    }

    fn visit_super(&mut self, expr: usize, keyword: &Token, method: &Token, env: usize) -> (a: Action)
        requires
            old(self).wf(),
            old(self)@.env.has(env),
        ensures
            final(self).wf(),
            (final(self)@, a@) == old(self)@.visit_super(expr, keyword@, method@, env),
    {
        let depth = self.depth(expr);
        let class = match self.env.get_at(env, keyword, depth) {
            Err(e) => return self.raise(e),
            Ok(Object::Class(class)) => class,
            Ok(_) => return self.raise(
                runtime_error(keyword, "Superclass must be a class".to_string()),
            ),
        };
        let d = match depth {
            Some(d) => d,
            None => return self.fault(),
        };
        if d == 0 {
            return self.fault();
        }
        let this = name_token(TokenType::This, "this", keyword.line, keyword.offset);
        let instance = match self.env.get_at(env, &this, Some(d - 1)) {
            Err(e) => return self.raise(e),
            Ok(Object::Instance(instance)) => instance,
            Ok(_) => return self.fault(),
        };
        match lookup_method(&self.classes, class, &method.lexeme) {
            Some(f) => {
                if f.closure < self.env.frames.len() {
                    let bound = self.bind(f, instance);
                    self.deliver(Object::Func(Callable::Runtime(bound)))
                } else {
                    self.fault()
                }
            },
            None => self.raise(Interpreter::undefined_property(method)),
        }
    }

    fn eval(&mut self, ast: &Ast, e: usize, env: usize) -> (a: Action)
        requires
            old(self).wf(),
            ast.wf(),
        ensures
            final(self).wf(),
            (final(self)@, a@) == old(self)@.eval(ast@, e, env),
    {
        if e >= ast.n_exprs() || env >= self.env.frames.len() {
            return self.fault();
        }
        match ast.expr(e) {
            Expr::Literal(lit) => self.visit_literal(lit),
            Expr::Identifier(id) => self.lookup_var(id, e, env),
            Expr::This(token) => self.lookup_var(token, e, env),
            Expr::Grouping(inner) => self.go(Control::Eval(*inner, env)),
            Expr::Unary(_, rhs) => {
                self.push(Kont::Unary(e));
                self.go(Control::Eval(*rhs, env))
            },
            Expr::Binary(lhs, _, _) => {
                self.push(Kont::BinaryLeft(e, env));
                self.go(Control::Eval(*lhs, env))
            },
            Expr::Logical(lhs, _, _) => {
                self.push(Kont::Logical(e, env));
                self.go(Control::Eval(*lhs, env))
            },
            Expr::Assignment(_, val) => {
                self.push(Kont::Assign(e, env));
                self.go(Control::Eval(*val, env))
            },
            Expr::Call(callee, _, _) => {
                self.push(Kont::Callee(e, env));
                self.go(Control::Eval(*callee, env))
            },
            Expr::Get(object, _) => {
                self.push(Kont::Get(e));
                self.go(Control::Eval(*object, env))
            },
            Expr::SetField(object, _, _) => {
                self.push(Kont::SetObject(e, env));
                self.go(Control::Eval(*object, env))
            },
            Expr::Super(keyword, method) => self.visit_super(e, keyword, method, env),
        }
    }

    /// What applying the unary operator `op` to `rhs` comes to.
    pub fn visit_unary(op: &Token, rhs: &Object) -> (c: Control)
        ensures
            c@ == unary_op(op@, rhs@),
    {
        match op.token_type {
            TokenType::Minus => match rhs {
                Object::Number(n) => Control::Value(Object::Number(number::neg_bits(*n))),
                _ => Control::Raise(
                    runtime_error(op, "Cannot negate non-numeric value".to_string()),
                ),
            },
            TokenType::Bang => Control::Value(Object::Bool(!rhs.is_truthy())),
            _ => Control::Raise(runtime_error(op, "Invalid unary operator".to_string())),
        }
    }

    fn ask(op: ArithOp, a: u64, b: u64) -> (r: (Control, Action))
        ensures
            (r.0@, r.1@) == crate::semantics::ask(op, a, b),
    {
        (Control::Await(Request::Arith(op, a, b)), Action::Ask(Request::Arith(op, a, b)))
    }

    fn compare(op: TokenType, a: u64, b: u64) -> (r: bool)
        ensures
            r == compare(op, a, b),
    {
        match op {
            TokenType::Less => number::lt_bits(a, b),
            TokenType::LessEqual => number::lt_bits(a, b) || number::eq_bits(a, b),
            TokenType::Greater => number::lt_bits(b, a),
            _ => number::lt_bits(b, a) || number::eq_bits(a, b),
        }
    }

    fn refuse(op: &Token, msg: &str) -> (r: (Control, Action))
        ensures
            r.0@ == crate::machine::ControlView::Raise(runtime(op@, msg@)),
            r.1@ == crate::machine::ActionView::Proceed,
    {
        (Control::Raise(runtime_error(op, msg.to_string())), Action::Proceed)
    }

    /// What applying the binary operator `op` to `lhs` and `rhs` comes to:
    /// the machine's next control, and what the host is told.
    pub fn visit_binary(op: &Token, lhs: &Object, rhs: &Object) -> (r: (Control, Action))
        ensures
            (r.0@, r.1@) == binary_op(op@, lhs@, rhs@),
    {
        match op.token_type {
            TokenType::Plus => match (lhs, rhs) {
                (Object::Number(a), Object::Number(b)) => Interpreter::ask(ArithOp::Add, *a, *b),
                (Object::Str(a), Object::Str(b)) => (
                    Control::Value(Object::concat(a, b)),
                    Action::Proceed,
                ),
                _ => Interpreter::refuse(op, "Cannot add mixed types"),
            },
            TokenType::Minus => match (lhs, rhs) {
                (Object::Number(a), Object::Number(b)) => Interpreter::ask(ArithOp::Sub, *a, *b),
                _ => Interpreter::refuse(op, "Cannot subtract non-numeric operands"),
            },
            TokenType::Star => match (lhs, rhs) {
                (Object::Number(a), Object::Number(b)) => Interpreter::ask(ArithOp::Mul, *a, *b),
                _ => Interpreter::refuse(op, "Cannot multiply non-numeric operands"),
            },
            TokenType::Slash => match (lhs, rhs) {
                (Object::Number(a), Object::Number(b)) => {
                    if number::is_zero_bits(*b) {
                        Interpreter::refuse(op, "Division by zero")
                    } else {
                        Interpreter::ask(ArithOp::Div, *a, *b)
                    }
                },
                _ => Interpreter::refuse(op, "Cannot divide non-numerics"),
            },
            TokenType::Greater | TokenType::GreaterEqual | TokenType::Less | TokenType::LessEqual => {
                match (lhs, rhs) {
                    (Object::Number(a), Object::Number(b)) => (
                        Control::Value(Object::Bool(Interpreter::compare(op.token_type, *a, *b))),
                        Action::Proceed,
                    ),
                    _ => Interpreter::refuse(op, "Cannot compare types"),
                }
            },
            TokenType::EqualEqual => (
                Control::Value(Object::Bool(lhs.equals(rhs))),
                Action::Proceed,
            ),
            TokenType::BangEqual => (
                Control::Value(Object::Bool(!lhs.equals(rhs))),
                Action::Proceed,
            ),
            _ => Interpreter::refuse(op, "Invalid binary operator"),
        }
    }

    fn visit_logical(&mut self, ast: &Ast, e: usize, env: usize, lhs: Object) -> (a: Action)
        requires
            old(self).wf(),
            e < ast@.exprs.len(),
        ensures
            final(self).wf(),
            (final(self)@, a@) == old(self)@.visit_logical(ast@, e, env, lhs@),
    {
        match ast.expr(e) {
            Expr::Logical(_, op, rhs) => {
                if op.token_type == TokenType::Or && lhs.is_truthy() {
                    self.deliver(lhs)
                } else if op.token_type == TokenType::And && !lhs.is_truthy() {
                    self.deliver(lhs)
                } else {
                    self.go(Control::Eval(*rhs, env))
                }
            },
            _ => self.fault(),
        }
    }

    fn visit_assignment(&mut self, ast: &Ast, e: usize, env: usize, v: Object) -> (a: Action)
        requires
            old(self).wf(),
            e < ast@.exprs.len(),
            old(self)@.env.has(env),
        ensures
            final(self).wf(),
            (final(self)@, a@) == old(self)@.visit_assignment(ast@, e, env, v@),
    {
        match ast.expr(e) {
            Expr::Assignment(id, _) => {
                let depth = self.depth(e);
                match self.env.assign_at(env, id, v, depth) {
                    Ok(v) => self.deliver(v),
                    Err(err) => self.raise(err),
                }
            },
            _ => self.fault(),
        }
    }

    /// How many parameters the function `f` declares.
    pub fn function_arity(ast: &Ast, f: &LoxFunction) -> (n: usize)
        ensures
            n == function_arity(ast@, *f),
    {
        if f.decl < ast.n_stmts() {
            match ast.stmt(f.decl) {
                Stmt::Function(_, params, _) => {
                    assert(token_views(params@).len() == params@.len());
                    params.len()
                },
                _ => 0,
            }
        } else {
            0
        }
    }

    /// How many arguments the class `class` takes: those of its `init`.
    pub fn class_arity(&self, ast: &Ast, class: usize) -> (n: usize)
        requires
            self.wf(),
        ensures
            n == self@.class_arity(ast@, class),
    {
        match lookup_method(&self.classes, class, &"init".to_string()) {
            Some(f) => Interpreter::function_arity(ast, &f),
            None => 0,
        }
    }

    /// How many arguments `callee` takes; nothing if it cannot be called.
    pub fn arity(&self, ast: &Ast, callee: &Object) -> (n: Option<usize>)
        requires
            self.wf(),
        ensures
            match n {
                Some(n) => self@.arity(ast@, callee@) == Some(n as nat),
                None => self@.arity(ast@, callee@) is None,
            },
    {
        match callee {
            Object::Func(Callable::Runtime(f)) => Some(Interpreter::function_arity(ast, f)),
            Object::Func(Callable::Clock) => Some(0),
            Object::Func(Callable::Init(ClassInit(c))) => Some(self.class_arity(ast, *c)),
            Object::Class(c) => Some(self.class_arity(ast, *c)),
            _ => None,
        }
    }

    /// Enters the function `f` with `args`, in the call that `paren`
    /// closes. It is an error to give more or fewer arguments than `f` has
    /// parameters.
    pub fn call_function(&mut self, ast: &Ast, f: LoxFunction, paren: &Token, args: Vec<Object>) -> (a:
        Action)
        requires
            old(self).wf(),
        ensures
            final(self).wf(),
            (final(self)@, a@) == old(self)@.call_function(ast@, f, paren@, object_views(args@)),
    {
        if f.decl >= ast.n_stmts() || f.closure >= self.env.frames.len() {
            return self.fault();
        }
        match ast.stmt(f.decl) {
            Stmt::Function(_, params, body) => {
                assert(token_views(params@).len() == params@.len());
                if params.len() != args.len() {
                    return self.raise(Interpreter::wrong_arity(paren, params.len(), args.len()));
                }
                let instance = if f.is_initializer {
                    assert(self@.env.frames[f.closure as int] == self.env.frames@[f.closure as int]@);
                    match self.env.frames[f.closure].bindings.get(&"this".to_string()) {
                        Some(Object::Instance(i)) => Some(*i),
                        _ => None,
                    }
                } else {
                    None
                };
                let frame = self.env.from(f.closure);
                let ghost start = self.env@;
                let mut i: usize = 0;
                while i < params.len() && i < args.len()
                    invariant
                        self.env.wf(),
                        classes_wf(self.classes@),
                        instances_wf(self.instances@),
                        self.env@.has(frame),
                        i <= params@.len(),
                        self@ == (InterpreterView { env: self.env@, ..old(self)@ }),
                        bind_params(start, frame, token_views(params@), object_views(args@), 0)
                            == bind_params(
                            self.env@,
                            frame,
                            token_views(params@),
                            object_views(args@),
                            i as nat,
                        ),
                    decreases params@.len() - i,
                {
                    self.env.define(frame, &params[i], args[i].clone());
                    i += 1;
                }
                self.push(Kont::Call(instance));
                self.go(Control::Exec(*body, frame))
            },
            _ => self.fault(),
        }
    }

    /// Makes an instance of `class` and runs its `init`, if it has one, on
    /// `args`, in the call that `paren` closes. It is an error to give more
    /// or fewer arguments than the `init` takes, or any where there is no
    /// `init`.
    pub fn instantiate(&mut self, ast: &Ast, class: usize, paren: &Token, args: Vec<Object>) -> (a:
        Action)
        requires
            old(self).wf(),
        ensures
            final(self).wf(),
            (final(self)@, a@) == old(self)@.instantiate(ast@, class, paren@, object_views(args@)),
    {
        if class >= self.classes.len() {
            return self.fault();
        }
        let takes = self.class_arity(ast, class);
        if takes != args.len() {
            return self.raise(Interpreter::wrong_arity(paren, takes, args.len()));
        }
        let init = lookup_method(&self.classes, class, &"init".to_string());
        if let Some(f) = init {
            if f.closure >= self.env.frames.len() {
                return self.fault();
            }
        }
        let instance = self.instances.len();
        self.instances.push(LoxInstance::new(class));
        assert(self@.instances =~= old(self)@.instances.push(
            crate::class::InstanceView { class, fields: Map::empty() },
        ));
        match init {
            Some(f) => {
                let bound = self.bind(f, instance);
                self.call_function(ast, bound, paren, args)
            },
            None => self.deliver(Object::Instance(instance)),
        }
    }

    /// Calls `callee` with `args`, in the call that `paren` closes. It is
    /// an error, at the line of `paren`, to call what is neither a function
    /// nor a class, or to give more or fewer arguments than it takes; then
    /// nothing is entered or made.
    pub fn call_dispatch(&mut self, ast: &Ast, callee: &Object, paren: &Token, args: Vec<Object>) -> (a:
        Action)
        requires
            old(self).wf(),
        ensures
            final(self).wf(),
            (final(self)@, a@) == old(self)@.call_dispatch(ast@, callee@, paren@, object_views(args@)),
            old(self)@.arity(ast@, callee@) is None ==> (final(self)@, a@) == old(self)@.raise(
                runtime(paren@, "Can only call functions and classes"@),
            ),
            old(self)@.arity(ast@, callee@) is Some && old(self)@.arity(ast@, callee@)->0
                != args@.len() ==> (final(self)@, a@) == old(self)@.raise(
                wrong_arity(paren@, old(self)@.arity(ast@, callee@)->0, args@.len() as nat),
            ),
    {
        match self.arity(ast, callee) {
            None => self.raise(
                runtime_error(paren, "Can only call functions and classes".to_string()),
            ),
            Some(n) => {
                if n != args.len() {
                    self.raise(Interpreter::wrong_arity(paren, n, args.len()))
                } else {
                    self.apply(ast, callee, paren, args)
                }
            },
        }
    }

    fn apply(&mut self, ast: &Ast, callee: &Object, paren: &Token, args: Vec<Object>) -> (a: Action)
        requires
            old(self).wf(),
        ensures
            final(self).wf(),
            (final(self)@, a@) == old(self)@.apply(ast@, callee@, paren@, object_views(args@)),
    {
        match callee {
            Object::Func(Callable::Runtime(f)) => self.call_function(ast, *f, paren, args),
            Object::Func(Callable::Clock) => {
                self.control = Control::Await(Request::Clock);
                Action::Ask(Request::Clock)
            },
            Object::Func(Callable::Init(ClassInit(c))) => self.instantiate(ast, *c, paren, args),
            Object::Class(c) => self.instantiate(ast, *c, paren, args),
            _ => self.fault(),
        }
    }

    fn visit_args(&mut self, ast: &Ast, e: usize, env: usize, callee: Object, done: Vec<Object>) -> (a:
        Action)
        requires
            old(self).wf(),
            e < ast@.exprs.len(),
        ensures
            final(self).wf(),
            (final(self)@, a@) == old(self)@.visit_args(
                ast@,
                e,
                env,
                callee@,
                object_views(done@),
            ),
    {
        match ast.expr(e) {
            Expr::Call(_, paren, args) => {
                if done.len() < args.len() {
                    let next = args[done.len()];
                    self.push(Kont::Args(e, env, callee, done));
                    self.go(Control::Eval(next, env))
                } else {
                    self.call_dispatch(ast, &callee, paren, done)
                }
            },
            _ => self.fault(),
        }
    }

    fn wrong_arity(paren: &Token, expected: usize, got: usize) -> (e: RloxError)
        ensures
            e@ == wrong_arity(paren@, expected as nat, got as nat),
    {
        let mut msg = joined("expected ", decimal(expected).as_str());
        msg.append(" arguments but got ");
        msg.append(decimal(got).as_str());
        assert(msg@ =~= "expected "@ + crate::text::decimal_spec(expected as nat)
            + " arguments but got "@ + crate::text::decimal_spec(got as nat));
        RloxError::Runtime(paren.line, msg, paren.lexeme.clone())
    }

    fn visit_call(&mut self, ast: &Ast, e: usize, env: usize, callee: Object) -> (a: Action)
        requires
            old(self).wf(),
            e < ast@.exprs.len(),
        ensures
            final(self).wf(),
            (final(self)@, a@) == old(self)@.visit_call(ast@, e, env, callee@),
    {
        match ast.expr(e) {
            Expr::Call(_, paren, args) => match self.arity(ast, &callee) {
                None => self.raise(
                    runtime_error(paren, "Can only call functions and classes".to_string()),
                ),
                Some(n) => {
                    if n != args.len() {
                        self.raise(Interpreter::wrong_arity(paren, n, args.len()))
                    } else {
                        let done: Vec<Object> = Vec::new();
                        assert(object_views(done@) =~= seq![]);
                        self.visit_args(ast, e, env, callee, done)
                    }
                },
            },
            _ => self.fault(),
        }
    }

    fn visit_get(&mut self, ast: &Ast, e: usize, object: Object) -> (a: Action)
        requires
            old(self).wf(),
            e < ast@.exprs.len(),
        ensures
            final(self).wf(),
            (final(self)@, a@) == old(self)@.visit_get(ast@, e, object@),
    {
        match ast.expr(e) {
            Expr::Get(_, prop) => match object {
                Object::Instance(i) => {
                    if i >= self.instances.len() {
                        return self.fault();
                    }
                    assert(self@.instances[i as int] == self.instances@[i as int]@);
                    let field = match self.instances[i].fields.get(&prop.lexeme) {
                        Some(v) => Some(v.clone()),
                        None => None,
                    };
                    if let Some(v) = field {
                        return self.deliver(v);
                    }
                    match lookup_method(&self.classes, self.instances[i].class, &prop.lexeme) {
                        Some(f) => {
                            if f.closure < self.env.frames.len() {
                                let bound = self.bind(f, i);
                                self.deliver(Object::Func(Callable::Runtime(bound)))
                            } else {
                                self.fault()
                            }
                        },
                        None => self.raise(Interpreter::undefined_property(prop)),
                    }
                },
                _ => self.raise(runtime_error(prop, "Only instances have properties".to_string())),
            },
            _ => self.fault(),
        }
    }

    fn visit_set(&mut self, ast: &Ast, e: usize, env: usize, object: Object) -> (a: Action)
        requires
            old(self).wf(),
            e < ast@.exprs.len(),
        ensures
            final(self).wf(),
            (final(self)@, a@) == old(self)@.visit_set(ast@, e, env, object@),
    {
        match ast.expr(e) {
            Expr::SetField(_, prop, val) => match object {
                Object::Instance(i) => {
                    self.push(Kont::SetValue(e, i));
                    self.go(Control::Eval(*val, env))
                },
                _ => self.raise(runtime_error(prop, "Only instances have fields".to_string())),
            },
            _ => self.fault(),
        }
    }

    fn set_field(&mut self, ast: &Ast, e: usize, instance: usize, v: Object) -> (a: Action)
        requires
            old(self).wf(),
            e < ast@.exprs.len(),
        ensures
            final(self).wf(),
            (final(self)@, a@) == old(self)@.set_field(ast@, e, instance, v@),
    {
        match ast.expr(e) {
            Expr::SetField(_, prop, _) => {
                if instance >= self.instances.len() {
                    return self.fault();
                }
                assert(self@.instances[instance as int] == self.instances@[instance as int]@);
                self.instances[instance].fields.insert(&prop.lexeme, v.clone());
                proof {
                    let before = old(self)@.instances[instance as int];
                    assert(self@.instances =~= old(self)@.instances.update(
                        instance as int,
                        crate::class::InstanceView {
                            fields: before.fields.insert(prop@.lexeme, v@),
                            ..before
                        },
                    ));
                }
                self.deliver(v)
            },
            _ => self.fault(),
        }
    }

    fn visit_if(&mut self, ast: &Ast, s: usize, env: usize, cond: &Object) -> (a: Action)
        requires
            old(self).wf(),
            s < ast@.stmts.len(),
        ensures
            final(self).wf(),
            (final(self)@, a@) == old(self)@.visit_if(ast@, s, env, cond@),
    {
        match ast.stmt(s) {
            Stmt::If(_, then_stmt, else_stmt) => {
                if cond.is_truthy() {
                    self.go(Control::Exec(*then_stmt, env))
                } else {
                    match else_stmt {
                        Some(else_stmt) => self.go(Control::Exec(*else_stmt, env)),
                        None => self.go(Control::Normal),
                    }
                }
            },
            _ => self.fault(),
        }
    }

    fn visit_while(&mut self, ast: &Ast, s: usize, env: usize, cond: &Object) -> (a: Action)
        requires
            old(self).wf(),
            s < ast@.stmts.len(),
        ensures
            final(self).wf(),
            (final(self)@, a@) == old(self)@.visit_while(ast@, s, env, cond@),
    {
        match ast.stmt(s) {
            Stmt::While(_, body) => {
                if cond.is_truthy() {
                    self.push(Kont::WhileBody(s, env));
                    self.go(Control::Exec(*body, env))
                } else {
                    self.go(Control::Normal)
                }
            },
            _ => self.fault(),
        }
    }

    /// The methods made from the declarations `methods`, closing over `frame`.
    fn methods(ast: &Ast, methods: &Vec<usize>, frame: usize) -> (table: Table<Object>)
        ensures
            table.wf(),
            table@ == method_table(ast@, methods@, frame, methods@.len()),
    {
        let mut table: Table<Object> = Table::new();
        let mut i: usize = 0;
        while i < methods.len()
            invariant
                table.wf(),
                i <= methods@.len(),
                table@ == method_table(ast@, methods@, frame, i as nat),
            decreases methods@.len() - i,
        {
            let m = methods[i];
            if m < ast.n_stmts() {
                if let Stmt::Function(name, _, _) = ast.stmt(m) {
                    let is_initializer = name.lexeme == "init".to_string();
                    table.insert(
                        &name.lexeme,
                        Object::Func(Callable::new(frame, m, is_initializer)),
                    );
                }
            }
            i += 1;
        }
        table
    }

    fn visit_class(&mut self, ast: &Ast, s: usize, env: usize, parent: Option<Object>) -> (a: Action)
        requires
            old(self).wf(),
            s < ast@.stmts.len(),
            old(self)@.env.has(env),
        ensures
            final(self).wf(),
            (final(self)@, a@) == old(self)@.visit_class(
                ast@,
                s,
                env,
                match parent {
                    Some(p) => Some(p@),
                    None => None,
                },
            ),
    {
        match ast.stmt(s) {
            Stmt::Class(name, _, methods) => {
                let id = self.classes.len();
                let (superclass, frame) = match parent {
                    Some(Object::Class(p)) => {
                        if p >= self.classes.len() {
                            return self.fault();
                        }
                        let frame = self.env.from(env);
                        let sup = name_token(TokenType::Super, "super", 0, 0);
                        self.env.define(frame, &sup, Object::Class(p));
                        (Some(p), frame)
                    },
                    Some(_) => {
                        return self.raise(
                            runtime_error(name, "Superclass must be a class".to_string()),
                        );
                    },
                    None => (None, env),
                };
                let table = Interpreter::methods(ast, methods, frame);
                let class = LoxClass::new(name.lexeme.clone(), superclass, table);
                let ghost shown = class@;
                self.classes.push(class);
                assert(self@.classes =~= old(self)@.classes.push(shown));
                self.env.define(env, name, Object::Class(id));
                self.go(Control::Normal)
            },
            _ => self.fault(),
        }
    }

    fn exec(&mut self, ast: &Ast, s: usize, env: usize) -> (a: Action)
        requires
            old(self).wf(),
            ast.wf(),
        ensures
            final(self).wf(),
            (final(self)@, a@) == old(self)@.exec(ast@, s, env),
    {
        if s >= ast.n_stmts() || env >= self.env.frames.len() {
            return self.fault();
        }
        match ast.stmt(s) {
            Stmt::Expression(e) => {
                self.push(Kont::ExprStmt(self.repl && env == GLOBAL));
                self.go(Control::Eval(*e, env))
            },
            Stmt::Print(e) => {
                self.push(Kont::Print);
                self.go(Control::Eval(*e, env))
            },
            Stmt::Declaration(id, init) => match init {
                Some(init) => {
                    self.push(Kont::VarInit(s, env));
                    self.go(Control::Eval(*init, env))
                },
                None => {
                    self.env.define(env, id, Object::Nil);
                    self.go(Control::Normal)
                },
            },
            Stmt::Block(_) => {
                let frame = self.env.from(env);
                self.push(Kont::Block(s, 0, frame));
                self.go(Control::Normal)
            },
            Stmt::If(cond, _, _) => {
                self.push(Kont::IfCond(s, env));
                self.go(Control::Eval(*cond, env))
            },
            Stmt::While(cond, _) => {
                self.push(Kont::WhileCond(s, env));
                self.go(Control::Eval(*cond, env))
            },
            Stmt::Break(token) => self.raise(RloxError::Break(token.line)),
            Stmt::Function(name, _, _) => {
                self.env.define(env, name, Object::Func(Callable::new(env, s, false)));
                self.go(Control::Normal)
            },
            Stmt::Return(keyword, val) => match val {
                Some(val) => {
                    self.push(Kont::ReturnValue(s));
                    self.go(Control::Eval(*val, env))
                },
                None => self.raise(RloxError::Return(keyword.line, Object::Nil)),
            },
            Stmt::Class(_, parent, _) => match parent {
                Some(parent) => {
                    self.push(Kont::Superclass(s, env));
                    self.go(Control::Eval(*parent, env))
                },
                None => self.visit_class(ast, s, env, None),
            },
        }
    }

    fn kont_ok(&self, ast: &Ast, k: &Kont) -> (r: bool)
        ensures
            r == self@.kont_ok(ast@, k@),
    {
        let n_exprs = ast.n_exprs();
        let n_stmts = ast.n_stmts();
        let n_frames = self.env.frames.len();
        match k {
            Kont::Unary(e) => *e < n_exprs,
            Kont::BinaryLeft(e, env) => *e < n_exprs && *env < n_frames,
            Kont::BinaryRight(e, _) => *e < n_exprs,
            Kont::Logical(e, env) => *e < n_exprs && *env < n_frames,
            Kont::Assign(e, env) => *e < n_exprs && *env < n_frames,
            Kont::Callee(e, env) => *e < n_exprs && *env < n_frames,
            Kont::Args(e, env, _, _) => *e < n_exprs && *env < n_frames,
            Kont::Get(e) => *e < n_exprs,
            Kont::SetObject(e, env) => *e < n_exprs && *env < n_frames,
            Kont::SetValue(e, _) => *e < n_exprs,
            Kont::ExprStmt(_) => true,
            Kont::Print => true,
            Kont::VarInit(s, env) => *s < n_stmts && *env < n_frames,
            Kont::Block(s, _, env) => *s < n_stmts && *env < n_frames,
            Kont::IfCond(s, env) => *s < n_stmts && *env < n_frames,
            Kont::WhileCond(s, env) => *s < n_stmts && *env < n_frames,
            Kont::WhileBody(s, env) => *s < n_stmts && *env < n_frames,
            Kont::ReturnValue(s) => *s < n_stmts,
            Kont::Superclass(s, env) => *s < n_stmts && *env < n_frames,
            Kont::Call(_) => true,
        }
    }

    fn resume(&mut self, ast: &Ast, k: Kont, v: Object) -> (a: Action)
        requires
            old(self).wf(),
            ast.wf(),
        ensures
            final(self).wf(),
            (final(self)@, a@) == old(self)@.resume(ast@, k@, v@),
    {
        if !self.kont_ok(ast, &k) {
            return self.fault();
        }
        match k {
            Kont::Unary(e) => match ast.expr(e) {
                Expr::Unary(op, _) => self.go(Interpreter::visit_unary(op, &v)),
                _ => self.fault(),
            },
            Kont::BinaryLeft(e, env) => match ast.expr(e) {
                Expr::Binary(_, _, rhs) => {
                    self.push(Kont::BinaryRight(e, v));
                    self.go(Control::Eval(*rhs, env))
                },
                _ => self.fault(),
            },
            Kont::BinaryRight(e, lhs) => match ast.expr(e) {
                Expr::Binary(_, op, _) => {
                    let (control, action) = Interpreter::visit_binary(op, &lhs, &v);
                    self.control = control;
                    action
                },
                _ => self.fault(),
            },
            Kont::Logical(e, env) => self.visit_logical(ast, e, env, v),
            Kont::Assign(e, env) => self.visit_assignment(ast, e, env, v),
            Kont::Callee(e, env) => self.visit_call(ast, e, env, v),
            Kont::Args(e, env, callee, done) => {
                let mut done = done;
                let ghost before = object_views(done@);
                done.push(v);
                assert(object_views(done@) =~= before.push(v@));
                self.visit_args(ast, e, env, callee, done)
            },
            Kont::Get(e) => self.visit_get(ast, e, v),
            Kont::SetObject(e, env) => self.visit_set(ast, e, env, v),
            Kont::SetValue(e, instance) => self.set_field(ast, e, instance, v),
            Kont::ExprStmt(print) => {
                if print {
                    self.print(&v)
                } else {
                    self.go(Control::Normal)
                }
            },
            Kont::Print => self.print(&v),
            Kont::VarInit(s, env) => match ast.stmt(s) {
                Stmt::Declaration(id, _) => {
                    self.env.define(env, id, v);
                    self.go(Control::Normal)
                },
                _ => self.fault(),
            },
            Kont::IfCond(s, env) => self.visit_if(ast, s, env, &v),
            Kont::WhileCond(s, env) => self.visit_while(ast, s, env, &v),
            Kont::ReturnValue(s) => match ast.stmt(s) {
                Stmt::Return(keyword, _) => self.raise(RloxError::Return(keyword.line, v)),
                _ => self.fault(),
            },
            Kont::Superclass(s, env) => self.visit_class(ast, s, env, Some(v)),
            _ => self.fault(),
        }
    }

    fn complete(&mut self, ast: &Ast, k: Kont) -> (a: Action)
        requires
            old(self).wf(),
            ast.wf(),
        ensures
            final(self).wf(),
            (final(self)@, a@) == old(self)@.complete(ast@, k@),
    {
        if !self.kont_ok(ast, &k) {
            return self.fault();
        }
        match k {
            Kont::Block(s, next, env) => match ast.stmt(s) {
                Stmt::Block(body) => {
                    if next < body.len() {
                        let stmt = body[next];
                        self.push(Kont::Block(s, next + 1, env));
                        self.go(Control::Exec(stmt, env))
                    } else {
                        self.go(Control::Normal)
                    }
                },
                _ => self.fault(),
            },
            Kont::WhileBody(s, env) => match ast.stmt(s) {
                Stmt::While(cond, _) => {
                    self.push(Kont::WhileCond(s, env));
                    self.go(Control::Eval(*cond, env))
                },
                _ => self.fault(),
            },
            Kont::Call(instance) => match instance {
                Some(i) => self.deliver(Object::Instance(i)),
                None => self.deliver(Object::Nil),
            },
            _ => self.fault(),
        }
    }

    fn unwind(&mut self, k: Kont, e: RloxError) -> (a: Action)
        requires
            old(self).wf(),
        ensures
            final(self).wf(),
            (final(self)@, a@) == old(self)@.unwind(k@, e@),
    {
        match (k, e) {
            (Kont::WhileBody(_, _), RloxError::Break(_)) => self.go(Control::Normal),
            (Kont::Call(instance), RloxError::Return(_, v)) => match instance {
                Some(i) => self.deliver(Object::Instance(i)),
                None => self.deliver(v),
            },
            (_, e) => self.raise(e),
        }
    }

    fn stop(&mut self, action: Action) -> (a: Action)
        requires
            old(self).wf(),
        ensures
            final(self).wf(),
            (final(self)@, a@) == old(self)@.stop(action@),
    {
        self.control = Control::Idle;
        action
    }

    /// Takes one step.
    pub fn step(&mut self, ast: &Ast) -> (a: Action)
        requires
            old(self).wf(),
            ast.wf(),
        ensures
            final(self).wf(),
            (final(self)@, a@) == old(self)@.step(ast@),
    {
        match &self.control {
            Control::Idle => Action::Idle,
            Control::Await(request) => Action::Ask(request.clone()),
            Control::Eval(e, env) => {
                let (e, env) = (*e, *env);
                self.eval(ast, e, env)
            },
            Control::Exec(s, env) => {
                let (s, env) = (*s, *env);
                self.exec(ast, s, env)
            },
            Control::Value(v) => {
                let v = v.clone();
                if self.stack.len() == 0 {
                    self.stop(Action::Finished)
                } else {
                    let k = self.pop();
                    self.resume(ast, k, v)
                }
            },
            Control::Normal => {
                if self.stack.len() == 0 {
                    self.stop(Action::Finished)
                } else {
                    let k = self.pop();
                    self.complete(ast, k)
                }
            },
            Control::Raise(e) => {
                let e = e.clone();
                if self.stack.len() == 0 {
                    self.stop(Action::Failed(e))
                } else {
                    let k = self.pop();
                    self.unwind(k, e)
                }
            },
        }
    }

    /// Gives the machine the host's answer to the question it waits on.
    pub fn reply(&mut self, n: u64)
        requires
            old(self).wf(),
        ensures
            final(self).wf(),
            final(self)@ == old(self)@.reply(n),
    {
        if let Control::Await(_) = &self.control {
            self.control = Control::Value(Object::Number(n));
        }
    }

    /// Loads the statement `s` to run at the top level, if the machine is
    /// at rest. Says whether it was.
    pub fn load(&mut self, s: usize) -> (loaded: bool)
        requires
            old(self).wf(),
        ensures
            final(self).wf(),
            final(self)@ == old(self)@.load(s),
            loaded == (old(self)@.control is Idle),
    {
        if let Control::Idle = &self.control {
            self.control = Control::Exec(s, GLOBAL);
            true
        } else {
            false
        }
    }

    /// Takes up to `fuel` steps and stops early at the first one that has
    /// something for the host: an output, a question, or the end of the
    /// statement. `Proceed` comes back if the steps were used up.
    pub fn run(&mut self, ast: &Ast, fuel: usize) -> (a: Action)
        requires
            old(self).wf(),
            ast.wf(),
        ensures
            final(self).wf(),
            (final(self)@, a@) == old(self)@.run(ast@, fuel as nat),
    {
        let mut left = fuel;
        while left > 0
            invariant
                self.wf(),
                ast.wf(),
                old(self)@.run(ast@, fuel as nat) == self@.run(ast@, left as nat),
            decreases left,
        {
            let action = self.step(ast);
            match action {
                Action::Proceed => {
                    left -= 1;
                },
                _ => {
                    return action;
                },
            }
        }
        Action::Proceed
    }
}

} // verus!
