//! Callable values.
//!
//! A function value does not own its code: it names the declaration it was
//! made from and the frame it closed over. Calling one is a transition of
//! the evaluator (see `Interpreter::call_dispatch`).

use vstd::prelude::*;
use crate::ast::Ast;
use crate::interpreter::Interpreter;
use crate::machine::{object_views, Action};
use crate::object::{Object, ObjectView};
use crate::semantics::function_arity;
use crate::tokens::Token;

verus! {

/// What kind of function body the resolver is currently inside.
#[derive(Debug, Clone, Copy, PartialEq, Eq, Structural)]
pub enum FunctionType {
    /// Not inside any function body.
    Outside,
    Function,
    Method,
    Initializer,
}

/// A user-defined function or method together with its captured frame.
#[derive(Debug, Clone, Copy, PartialEq, Eq, Structural)]
pub struct LoxFunction {
    /// The `Stmt::Function` node this value was made from.
    pub decl: usize,
    /// The frame that was current when the declaration was executed, or the
    /// frame holding `this` for a bound method.
    pub closure: usize,
    /// Whether this is a class's `init` method.
    pub is_initializer: bool,
}

impl LoxFunction {
    pub fn new(scope: usize, decl: usize, is_initializer: bool) -> (f: Self)
        ensures
            f == (LoxFunction { decl, closure: scope, is_initializer }),
    {
        LoxFunction { decl, closure: scope, is_initializer }
    }
}

/// A class used as a callee: calling it makes an instance.
#[derive(Debug, Clone, Copy, PartialEq, Eq, Structural)]
pub struct ClassInit(pub usize);

/// Everything that can stand in callee position.
#[derive(Debug, Clone, Copy, PartialEq, Eq, Structural)]
pub enum Callable {
    /// A function or method written in Lox.
    Runtime(LoxFunction),
    /// A class being instantiated.
    Init(ClassInit),
    /// The built-in `clock`.
    Clock,
}

impl Callable {
    pub fn new(env: usize, decl: usize, is_initializer: bool) -> (c: Self)
        ensures
            c == Callable::Runtime(LoxFunction { decl, closure: env, is_initializer }),
    {
        Callable::Runtime(LoxFunction::new(env, decl, is_initializer))
    }

    pub fn init(class: usize) -> (c: Self)
        ensures
            c == Callable::Init(ClassInit(class)),
    {
        Callable::Init(ClassInit(class))
    }
}


impl LoxFunction {
    /// How many parameters the function declares.
    pub fn arity(&self, ast: &Ast) -> (n: usize)
        ensures
            n == function_arity(ast@, *self),
    {
        Interpreter::function_arity(ast, self)
    }

    /// Enters the function with `args` on the machine `interpreter`, in the
    /// call that `paren` closes. It is an error to give more or fewer
    /// arguments than the function has parameters.
    pub fn call(&self, interpreter: &mut Interpreter, ast: &Ast, paren: &Token, args: Vec<Object>) -> (a:
        Action)
        requires
            old(interpreter).wf(),
        ensures
            final(interpreter).wf(),
            (final(interpreter)@, a@) == old(interpreter)@.call_function(
                ast@,
                *self,
                paren@,
                object_views(args@),
            ),
    {
        interpreter.call_function(ast, *self, paren, args)
    }

    /// The method bound to the instance `inst`: the same function, closing
    /// over a new frame that holds `this`.
    pub fn bind(&self, interpreter: &mut Interpreter, inst: usize) -> (b: LoxFunction)
        requires
            old(interpreter).wf(),
            old(interpreter)@.env.has(self.closure),
        ensures
            final(interpreter).wf(),
            (final(interpreter)@, b) == old(interpreter)@.bind(*self, inst),
    {
        interpreter.bind(*self, inst)
    }
}

impl ClassInit {
    /// How many arguments the class takes: those of its `init`, if it has
    /// one.
    pub fn arity(&self, interpreter: &Interpreter, ast: &Ast) -> (n: usize)
        requires
            interpreter.wf(),
        ensures
            n == interpreter@.class_arity(ast@, self.0),
    {
        interpreter.class_arity(ast, self.0)
    }

    /// Makes an instance of the class and runs its `init`, if it has one,
    /// on `args`, in the call that `paren` closes. It is an error to give
    /// more or fewer arguments than the class takes.
    pub fn call(&self, interpreter: &mut Interpreter, ast: &Ast, paren: &Token, args: Vec<Object>) -> (a:
        Action)
        requires
            old(interpreter).wf(),
        ensures
            final(interpreter).wf(),
            (final(interpreter)@, a@) == old(interpreter)@.instantiate(
                ast@,
                self.0,
                paren@,
                object_views(args@),
            ),
    {
        interpreter.instantiate(ast, self.0, paren, args)
    }
}

impl Callable {
    /// How many arguments the callable takes.
    pub fn arity(&self, interpreter: &Interpreter, ast: &Ast) -> (n: usize)
        requires
            interpreter.wf(),
        ensures
            interpreter@.arity(ast@, ObjectView::Func(*self)) == Some(n as nat),
    {
        match self {
            Callable::Runtime(f) => f.arity(ast),
            Callable::Init(class) => class.arity(interpreter, ast),
            Callable::Clock => 0,
        }
    }

    /// Calls the callable with `args` on the machine `interpreter`, in the
    /// call that `paren` closes. It is an error to give more or fewer
    /// arguments than the callable takes.
    pub fn call(&self, interpreter: &mut Interpreter, ast: &Ast, paren: &Token, args: Vec<Object>) -> (a:
        Action)
        requires
            old(interpreter).wf(),
        ensures
            final(interpreter).wf(),
            (final(interpreter)@, a@) == old(interpreter)@.call_dispatch(
                ast@,
                ObjectView::Func(*self),
                paren@,
                object_views(args@),
            ),
    {
        interpreter.call_dispatch(ast, &Object::Func(*self), paren, args)
    }

    /// The method bound to the instance `inst`. Only a function written in
    /// Lox can be bound.
    pub fn bind(&self, interpreter: &mut Interpreter, inst: usize) -> (b: Callable)
        requires
            old(interpreter).wf(),
            *self matches Callable::Runtime(f) && old(interpreter)@.env.has(f.closure),
        ensures
            final(interpreter).wf(),
            (final(interpreter)@, b) == (
                old(interpreter)@.bind(self->Runtime_0, inst).0,
                Callable::Runtime(old(interpreter)@.bind(self->Runtime_0, inst).1),
            ),
    {
        match self {
            Callable::Runtime(f) => Callable::Runtime(f.bind(interpreter, inst)),
            _ => *self,
        }
    }
}

} // verus!
