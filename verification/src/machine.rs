//! The state of the evaluator and what it exchanges with its host.
//!
//! The evaluator is a machine that takes one small step at a time. What it
//! is doing is its `Control`; what it still has to do afterwards is a stack
//! of `Kont` records, one for each construct that is waiting for a part of
//! itself to finish. After every step the machine tells its host, by an
//! `Action`, whether there is something for the host to do.

use vstd::prelude::*;
use crate::error::{ErrorView, RloxError};
use crate::object::{Object, ObjectView};

verus! {

/// The arithmetic that the host performs on binary64 numbers.
#[derive(Debug, Clone, Copy, PartialEq, Eq, Structural)]
pub enum ArithOp {
    Add,
    Sub,
    Mul,
    Div,
}

/// A question to the host. The answer is always a number, given as its
/// binary64 bit pattern.
#[derive(Debug)]
pub enum Request {
    /// Seconds since some fixed moment.
    Clock,
    /// The binary64 nearest to a decimal numeral.
    Numeral(String),
    /// The result of an arithmetic operation on two numbers.
    Arith(ArithOp, u64, u64),
}

pub enum RequestView {
    Clock,
    Numeral(Seq<char>),
    Arith(ArithOp, u64, u64),
}

impl View for Request {
    type V = RequestView;

    open spec fn view(&self) -> RequestView {
        match self {
            Request::Clock => RequestView::Clock,
            Request::Numeral(text) => RequestView::Numeral(text@),
            Request::Arith(op, a, b) => RequestView::Arith(*op, *a, *b),
        }
    }
}

impl Clone for Request {
    fn clone(&self) -> (r: Self)
        ensures
            r == *self,
    {
        match self {
            Request::Clock => Request::Clock,
            Request::Numeral(text) => Request::Numeral(text.clone()),
            Request::Arith(op, a, b) => Request::Arith(*op, *a, *b),
        }
    }
}

/// What a `print` writes: text as it stands, or a number for the host to
/// write in its shortest decimal form.
#[derive(Debug)]
pub enum Output {
    Text(String),
    Number(u64),
}

pub enum OutputView {
    Text(Seq<char>),
    Number(u64),
}

impl View for Output {
    type V = OutputView;

    open spec fn view(&self) -> OutputView {
        match self {
            Output::Text(text) => OutputView::Text(text@),
            Output::Number(n) => OutputView::Number(*n),
        }
    }
}

/// What the machine tells its host after a step.
#[derive(Debug)]
pub enum Action {
    /// Nothing to do for the host; the machine can take its next step.
    Proceed,
    /// A line for standard output. The machine can take its next step.
    Print(Output),
    /// A diagnostic for standard error: a statement that could not be
    /// scanned or parsed was passed over. The next step goes on behind it.
    Report(RloxError),
    /// The machine waits for the answer to this question.
    Ask(Request),
    /// What was loaded has run to its end.
    Finished,
    /// What was loaded was ended by this error, or by a `break` or `return`
    /// that nothing caught.
    Failed(RloxError),
    /// Nothing is loaded.
    Idle,
}

pub enum ActionView {
    Proceed,
    Print(OutputView),
    Report(ErrorView),
    Ask(RequestView),
    Finished,
    Failed(ErrorView),
    Idle,
}

impl View for Action {
    type V = ActionView;

    open spec fn view(&self) -> ActionView {
        match self {
            Action::Proceed => ActionView::Proceed,
            Action::Print(out) => ActionView::Print(out@),
            Action::Report(e) => ActionView::Report(e@),
            Action::Ask(req) => ActionView::Ask(req@),
            Action::Finished => ActionView::Finished,
            Action::Failed(e) => ActionView::Failed(e@),
            Action::Idle => ActionView::Idle,
        }
    }
}

/// What the machine is doing.
#[derive(Debug)]
pub enum Control {
    /// Nothing is loaded.
    Idle,
    /// About to run a statement in a frame.
    Exec(usize, usize),
    /// About to evaluate an expression in a frame.
    Eval(usize, usize),
    /// An expression has yielded this value.
    Value(Object),
    /// A statement has run to its end.
    Normal,
    /// An error, a `break` or a `return` is on its way outwards.
    Raise(RloxError),
    /// Waiting for the host's answer.
    Await(Request),
}

pub enum ControlView {
    Idle,
    Exec(usize, usize),
    Eval(usize, usize),
    Value(ObjectView),
    Normal,
    Raise(ErrorView),
    Await(RequestView),
}

impl View for Control {
    type V = ControlView;

    open spec fn view(&self) -> ControlView {
        match self {
            Control::Idle => ControlView::Idle,
            Control::Exec(stmt, env) => ControlView::Exec(*stmt, *env),
            Control::Eval(expr, env) => ControlView::Eval(*expr, *env),
            Control::Value(v) => ControlView::Value(v@),
            Control::Normal => ControlView::Normal,
            Control::Raise(e) => ControlView::Raise(e@),
            Control::Await(req) => ControlView::Await(req@),
        }
    }
}

/// What a construct that waits for a part of itself will do when that part
/// is finished. Expressions are named by their node, statements by theirs,
/// frames by their index.
#[derive(Debug)]
pub enum Kont {
    /// `op e`: the operand is being evaluated.
    Unary(usize),
    /// `l op r`: the left operand is being evaluated, in this frame.
    BinaryLeft(usize, usize),
    /// `l op r`: the left operand is this; the right one is being evaluated.
    BinaryRight(usize, Object),
    /// `l and r`, `l or r`: the left operand is being evaluated.
    Logical(usize, usize),
    /// `name = e`: the value is being evaluated.
    Assign(usize, usize),
    /// `f(..)`: the callee is being evaluated.
    Callee(usize, usize),
    /// `f(..)`: the callee is this, these arguments are done, the next one
    /// is being evaluated.
    Args(usize, usize, Object, Vec<Object>),
    /// `o.name`: the object is being evaluated.
    Get(usize),
    /// `o.name = e`: the object is being evaluated.
    SetObject(usize, usize),
    /// `o.name = e`: the object is this instance; the value is being
    /// evaluated.
    SetValue(usize, usize),
    /// An expression statement; whether its value is to be printed.
    ExprStmt(bool),
    /// A `print` statement.
    Print,
    /// `var name = e;`: the initializer is being evaluated.
    VarInit(usize, usize),
    /// A block: the statements before this index are done or under way.
    Block(usize, usize, usize),
    /// `if`: the condition is being evaluated.
    IfCond(usize, usize),
    /// `while`: the condition is being evaluated.
    WhileCond(usize, usize),
    /// `while`: the body is running.
    WhileBody(usize, usize),
    /// `return e;`: the value is being evaluated.
    ReturnValue(usize),
    /// `class C < S`: the superclass is being evaluated.
    Superclass(usize, usize),
    /// A function's body is running. For an initializer, the instance that
    /// the call yields whatever the body returns.
    Call(Option<usize>),
}

pub enum KontView {
    Unary(usize),
    BinaryLeft(usize, usize),
    BinaryRight(usize, ObjectView),
    Logical(usize, usize),
    Assign(usize, usize),
    Callee(usize, usize),
    Args(usize, usize, ObjectView, Seq<ObjectView>),
    Get(usize),
    SetObject(usize, usize),
    SetValue(usize, usize),
    ExprStmt(bool),
    Print,
    VarInit(usize, usize),
    Block(usize, usize, usize),
    IfCond(usize, usize),
    WhileCond(usize, usize),
    WhileBody(usize, usize),
    ReturnValue(usize),
    Superclass(usize, usize),
    Call(Option<usize>),
}

pub open spec fn object_views(values: Seq<Object>) -> Seq<ObjectView> {
    Seq::new(values.len(), |i: int| values[i]@)
}

impl View for Kont {
    type V = KontView;

    open spec fn view(&self) -> KontView {
        match self {
            Kont::Unary(e) => KontView::Unary(*e),
            Kont::BinaryLeft(e, env) => KontView::BinaryLeft(*e, *env),
            Kont::BinaryRight(e, lhs) => KontView::BinaryRight(*e, lhs@),
            Kont::Logical(e, env) => KontView::Logical(*e, *env),
            Kont::Assign(e, env) => KontView::Assign(*e, *env),
            Kont::Callee(e, env) => KontView::Callee(*e, *env),
            Kont::Args(e, env, callee, args) => KontView::Args(
                *e,
                *env,
                callee@,
                object_views(args@),
            ),
            Kont::Get(e) => KontView::Get(*e),
            Kont::SetObject(e, env) => KontView::SetObject(*e, *env),
            Kont::SetValue(e, instance) => KontView::SetValue(*e, *instance),
            Kont::ExprStmt(print) => KontView::ExprStmt(*print),
            Kont::Print => KontView::Print,
            Kont::VarInit(s, env) => KontView::VarInit(*s, *env),
            Kont::Block(s, next, env) => KontView::Block(*s, *next, *env),
            Kont::IfCond(s, env) => KontView::IfCond(*s, *env),
            Kont::WhileCond(s, env) => KontView::WhileCond(*s, *env),
            Kont::WhileBody(s, env) => KontView::WhileBody(*s, *env),
            Kont::ReturnValue(s) => KontView::ReturnValue(*s),
            Kont::Superclass(s, env) => KontView::Superclass(*s, *env),
            Kont::Call(instance) => KontView::Call(*instance),
        }
    }
}

pub open spec fn kont_views(stack: Seq<Kont>) -> Seq<KontView> {
    Seq::new(stack.len(), |i: int| stack[i]@)
}

} // verus!
