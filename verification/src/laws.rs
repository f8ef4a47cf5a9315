//! Laws of the language, proved of the evaluator's semantics.

use vstd::prelude::*;
use crate::ast::AstView;
use crate::class::{find_method, ClassView};
use crate::expr::ExprView;
use crate::functions::{Callable, LoxFunction};
use crate::machine::{ActionView, ControlView, KontView, OutputView};
use crate::object::ObjectView;
use crate::runner::RunnerView;
use crate::error::ErrorView;
use crate::semantics::{bind_params, this_token, wrong_arity, InterpreterView};
use crate::stmt::StmtView;
use crate::tokens::{TokenType, TokenView};

verus! {

/// What a runner writes, and in what order, in its next `steps` steps, when
/// the host answers the `k`-th question with `replies[k]` (and with nothing
/// once the answers are used up, so that the run stops there).
pub open spec fn output(r: RunnerView, replies: Seq<u64>, steps: nat) -> Seq<OutputView>
    decreases steps,
{
    if steps == 0 {
        seq![]
    } else {
        let (next, action) = r.step();
        match action {
            ActionView::Print(line) => seq![line] + output(next, replies, (steps - 1) as nat),
            ActionView::Ask(_) => if replies.len() > 0 {
                output(next.reply(replies[0]), replies.drop_first(), (steps - 1) as nat)
            } else {
                seq![]
            },
            ActionView::Proceed => output(next, replies, (steps - 1) as nat),
            ActionView::Report(_) => output(next, replies, (steps - 1) as nat),
            _ => seq![],
        }
    }
}

/// The same source, run in the same mode with the same answers from the
/// host, writes the same output.
pub proof fn law_same_input_same_output(
    repl: bool,
    src1: Seq<char>,
    src2: Seq<char>,
    replies1: Seq<u64>,
    replies2: Seq<u64>,
    steps: nat,
)
    requires
        src1 == src2,
        replies1 == replies2,
    ensures
        output(RunnerView::start(repl).feed(src1), replies1, steps) == output(
            RunnerView::start(repl).feed(src2),
            replies2,
            steps,
        ),
{
}

/// A step of the evaluator leaves the syntax store as it is.
pub proof fn law_evaluation_keeps_the_syntax(r: RunnerView)
    requires
        !(r.interpreter.control is Idle),
    ensures
        r.step().0.parser.ast == r.parser.ast,
        r.step().0.parser.tokens == r.parser.tokens,
{
}

/// Evaluating `(e)` is evaluating `e`: the machine that is about to
/// evaluate a grouping is, one step later, the machine that is about to
/// evaluate what is grouped, in the same frame, with the same constructs
/// waiting, and with everything else as it was.
pub proof fn law_grouping(m: InterpreterView, ast: AstView, e: usize, env: usize, inner: usize)
    requires
        m.control == ControlView::Eval(e, env),
        e < ast.exprs.len(),
        m.env.has(env),
        ast.exprs[e as int] == ExprView::Grouping(inner),
    ensures
        m.step(ast) == (
            InterpreterView { control: ControlView::Eval(inner, env), ..m },
            ActionView::Proceed,
        ),
{
}

/// A logical expression first evaluates its left operand, and waits.
pub proof fn law_logical_begins(
    m: InterpreterView,
    ast: AstView,
    e: usize,
    env: usize,
    lhs: usize,
    op: TokenView,
    rhs: usize,
)
    requires
        m.control == ControlView::Eval(e, env),
        e < ast.exprs.len(),
        m.env.has(env),
        ast.exprs[e as int] == ExprView::Logical(lhs, op, rhs),
    ensures
        m.step(ast) == (
            InterpreterView {
                control: ControlView::Eval(lhs, env),
                stack: m.stack.push(KontView::Logical(e, env)),
                ..m
            },
            ActionView::Proceed,
        ),
{
}

/// `a and b` is `a` when `a` is falsey, else `b`. Once `a` has yielded a
/// value, a falsey value is handed on as the value of the whole expression,
/// as it is and not as a boolean; after a truthy one the machine evaluates
/// `b` in place of the whole expression.
pub proof fn law_and(
    m: InterpreterView,
    ast: AstView,
    e: usize,
    env: usize,
    lhs: usize,
    op: TokenView,
    rhs: usize,
    a: ObjectView,
)
    requires
        m.control == ControlView::Value(a),
        m.stack.len() > 0,
        m.stack.last() == KontView::Logical(e, env),
        e < ast.exprs.len(),
        m.env.has(env),
        ast.exprs[e as int] == ExprView::Logical(lhs, op, rhs),
        op.token_type == TokenType::And,
    ensures
        !a.is_truthy() ==> m.step(ast) == (
            InterpreterView { control: ControlView::Value(a), ..m.pop() },
            ActionView::Proceed,
        ),
        a.is_truthy() ==> m.step(ast) == (
            InterpreterView { control: ControlView::Eval(rhs, env), ..m.pop() },
            ActionView::Proceed,
        ),
{
}

/// `a or b` is `a` when `a` is truthy, else `b`. Once `a` has yielded a
/// value, a truthy value is handed on as the value of the whole expression,
/// as it is and not as a boolean; after a falsey one the machine evaluates
/// `b` in place of the whole expression.
pub proof fn law_or(
    m: InterpreterView,
    ast: AstView,
    e: usize,
    env: usize,
    lhs: usize,
    op: TokenView,
    rhs: usize,
    a: ObjectView,
)
    requires
        m.control == ControlView::Value(a),
        m.stack.len() > 0,
        m.stack.last() == KontView::Logical(e, env),
        e < ast.exprs.len(),
        m.env.has(env),
        ast.exprs[e as int] == ExprView::Logical(lhs, op, rhs),
        op.token_type == TokenType::Or,
    ensures
        a.is_truthy() ==> m.step(ast) == (
            InterpreterView { control: ControlView::Value(a), ..m.pop() },
            ActionView::Proceed,
        ),
        !a.is_truthy() ==> m.step(ast) == (
            InterpreterView { control: ControlView::Eval(rhs, env), ..m.pop() },
            ActionView::Proceed,
        ),
{
}

/// Binding parameters touches the frame they are bound in and no other,
/// and adds no frame.
pub proof fn lemma_bind_params(
    env: crate::env::EnvView,
    frame: usize,
    params: Seq<TokenView>,
    args: Seq<ObjectView>,
    i: nat,
)
    requires
        env.has(frame),
    ensures
        bind_params(env, frame, params, args, i).frames.len() == env.frames.len(),
        forall|k: int|
            0 <= k < env.frames.len() && k != frame ==> bind_params(
                env,
                frame,
                params,
                args,
                i,
            ).frames[k] == env.frames[k],
        bind_params(env, frame, params, args, i).frames[frame as int].parent
            == env.frames[frame as int].parent,
    decreases params.len() - i,
{
    if i < params.len() && i < args.len() {
        let env1 = env.define(frame, params[i as int].lexeme, args[i as int]);
        lemma_bind_params(env1, frame, params, args, i + 1);
        assert forall|k: int| 0 <= k < env.frames.len() && k != frame implies bind_params(
            env,
            frame,
            params,
            args,
            i,
        ).frames[k] == env.frames[k] by {
            assert(env1.frames[k] == env.frames[k]);
        }
    }
}

/// Every call of a function runs its body in a frame of its own: the frame
/// did not exist before the call, its parent is the function's closure, and
/// every frame that existed is left as it was. So the closures that two
/// calls make close over different frames.
pub proof fn law_call_makes_a_new_frame(
    m: InterpreterView,
    ast: AstView,
    f: LoxFunction,
    paren: TokenView,
    args: Seq<ObjectView>,
)
    requires
        m.env.frames.len() < usize::MAX,
        m.call_function(ast, f, paren, args).0.control is Exec,
    ensures
        ({
            let after = m.call_function(ast, f, paren, args).0;
            let frame = after.control->Exec_1;
            &&& frame == m.env.frames.len()
            &&& after.env.frames.len() == m.env.frames.len() + 1
            &&& after.env.frames[frame as int].parent == Some(f.closure)
            &&& forall|k: int| 0 <= k < m.env.frames.len() ==> after.env.frames[k] == m.env.frames[k]
        }),
{
    if f.decl < ast.stmts.len() && m.env.has(f.closure) {
        match ast.stmts[f.decl as int] {
            StmtView::Function(_, params, body) => {
                let (env, frame) = m.env.push_frame(f.closure);
                lemma_bind_params(env, frame, params, args, 0);
                let after = m.call_function(ast, f, paren, args).0;
                assert(after.env == bind_params(env, frame, params, args, 0));
                assert forall|k: int| 0 <= k < m.env.frames.len() implies after.env.frames[k]
                    == m.env.frames[k] by {
                    assert(env.frames[k] == m.env.frames[k]);
                }
            },
            _ => {},
        }
    }
}

/// A call must give exactly as many arguments as what is called takes.
/// With more or fewer the call is a runtime error at the line of its
/// closing parenthesis, and the machine is otherwise as it was: no frame and
/// no instance is made and no body is entered. So it is with a function, a
/// class with or without an `init`, and `clock`.
pub proof fn law_call_takes_exactly_its_arguments(
    m: InterpreterView,
    ast: AstView,
    callee: ObjectView,
    paren: TokenView,
    args: Seq<ObjectView>,
    takes: nat,
)
    requires
        m.arity(ast, callee) == Some(takes),
        takes != args.len(),
    ensures
        m.call_dispatch(ast, callee, paren, args) == (
            InterpreterView {
                control: ControlView::Raise(wrong_arity(paren, takes, args.len())),
                ..m
            },
            ActionView::Proceed,
        ),
        wrong_arity(paren, takes, args.len()) matches ErrorView::Runtime(line, _, _) && line
            == paren.line,
{
}

/// What is neither a function nor a class cannot be called: the call is a
/// runtime error at the line of its closing parenthesis.
pub proof fn law_only_functions_and_classes_are_called(
    m: InterpreterView,
    ast: AstView,
    callee: ObjectView,
    paren: TokenView,
    args: Seq<ObjectView>,
)
    requires
        !(callee is Func),
        !(callee is Class),
    ensures
        m.call_dispatch(ast, callee, paren, args) == (
            InterpreterView {
                control: ControlView::Raise(
                    ErrorView::Runtime(paren.line, "Can only call functions and classes"@, paren.lexeme),
                ),
                ..m
            },
            ActionView::Proceed,
        ),
{
}

/// A function declaration closes over the frame it is run in.
pub proof fn law_declaration_captures_the_current_frame(
    m: InterpreterView,
    ast: AstView,
    s: usize,
    env: usize,
)
    requires
        s < ast.stmts.len(),
        m.env.has(env),
        ast.stmts[s as int] is Function,
    ensures
        ({
            let name = ast.stmts[s as int]->Function_0.lexeme;
            let after = m.exec(ast, s, env).0;
            &&& after.env.frames[env as int].bindings.contains_key(name)
            &&& after.env.frames[env as int].bindings[name] == ObjectView::Func(
                Callable::Runtime(LoxFunction { decl: s, closure: env, is_initializer: false }),
            )
        }),
{
}

/// The method that a class offers under a name is settled by the class and
/// its superclasses. Classes made later, its subclasses among them, do not
/// change it.
pub proof fn law_later_classes_change_no_method(
    classes: Seq<ClassView>,
    later: ClassView,
    class: usize,
    name: Seq<char>,
)
    requires
        class < classes.len(),
    ensures
        find_method(classes.push(later), class, name) == find_method(classes, class, name),
    decreases class,
{
    if !classes[class as int].methods.contains_key(name) {
        match classes[class as int].parent {
            Some(p) => {
                if p < class {
                    law_later_classes_change_no_method(classes, later, p, name);
                }
            },
            None => {},
        }
    }
}

/// `super.m` is the method `m` as the superclass has it, bound to the
/// current instance, whatever the class of that instance is and whatever it
/// overrides.
pub proof fn law_super_finds_the_method_of_the_superclass(
    m: InterpreterView,
    expr: usize,
    keyword: TokenView,
    method: TokenView,
    env: usize,
    superclass: usize,
    instance: usize,
    depth: usize,
    f: LoxFunction,
)
    requires
        m.depth(expr) == Some(depth),
        depth > 0,
        m.env.get_at(env, keyword, Some(depth)) == Ok::<ObjectView, crate::error::ErrorView>(
            ObjectView::Class(superclass),
        ),
        m.env.get_at(env, this_token(keyword), Some((depth - 1) as usize)) == Ok::<
            ObjectView,
            crate::error::ErrorView,
        >(ObjectView::Instance(instance)),
        find_method(m.classes, superclass, method.lexeme) == Some(f),
        m.env.has(f.closure),
        m.env.frames.len() < usize::MAX,
    ensures
        m.visit_super(expr, keyword, method, env).0.control matches ControlView::Value(
            ObjectView::Func(Callable::Runtime(bound)),
        ) && bound.decl == f.decl && bound.is_initializer == f.is_initializer && ({
            let after = m.visit_super(expr, keyword, method, env).0;
            &&& after.env.frames[bound.closure as int].parent == Some(f.closure)
            &&& after.env.frames[bound.closure as int].bindings.contains_key("this"@)
            &&& after.env.frames[bound.closure as int].bindings["this"@] == ObjectView::Instance(
                instance,
            )
        }),
{
}

} // verus!
