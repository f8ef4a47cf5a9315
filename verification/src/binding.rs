//! At evaluation time a resolved reference finds its binding.
//!
//! The laws here are about a machine that is sound in the sense of
//! `crate::soundness`: its side table names, for every reference it may
//! still evaluate, a scope that is certain to hold the reference's name.
//! Such a machine stays sound whatever it does, and in it the frame that a
//! recorded depth leads to always binds the name.

use vstd::prelude::*;
use crate::ast::AstView;
use crate::env::EnvView;
use crate::error::ErrorView;
use crate::expr::ExprView;
use crate::functions::Callable;
use crate::machine::{ControlView, KontView};
use crate::object::ObjectView;
use crate::preservation::{
    blocks_fit, lemma_complete, lemma_eval, lemma_exec, lemma_resume, lemma_unwind,
};
use crate::scoping::{
    after, bound_at, lemma_blank_stmt, lemma_scope_at_depth, scopes_of, sound_expr, sound_exprs,
    sound_stmt,
};
use crate::semantics::{InterpreterView, GLOBAL};
use crate::soundness::{
    fits, heap_ok, kont_sound, lemma_define_grows, lemma_heap_define, lemma_sound_is_ready,
    progress, sound, values_ok,
};
use crate::footprint::{
    agree_on, lemma_sound_stmt_local, lemma_stmt_frame, lemma_stmt_nodes_stored, same_at,
    stmt_nodes,
};
use crate::growth::{law_sound_with_more_syntax, stored};
use crate::resolution::{fresh, named, spelled, tree};
use crate::resolved::{law_resolver_is_sound, lemma_tidy_is_plain, tidy};
use crate::resolver::ResolverView;
use crate::runner::RunnerView;
use crate::tokens::TokenView;

verus! {

/// A new machine is sound.
pub proof fn law_sound_at_start(repl: bool, ast: AstView)
    ensures
        sound(InterpreterView::start(repl), ast),
{
    let m = InterpreterView::start(repl);
    let base = InterpreterView { env: EnvView::start(), ..m };
    assert(base.env.wf());
    assert(heap_ok(base, ast)) by {
        assert forall|f: int| 0 <= f < base.env.frames.len() implies values_ok(
            ast,
            base.locals,
            base.env,
            (#[trigger] base.env.frames[f]).bindings,
        ) by {}
    }
    lemma_heap_define(base, ast, GLOBAL, "clock"@, ObjectView::Func(Callable::Clock));
    lemma_define_grows(base.env, GLOBAL, "clock"@, ObjectView::Func(Callable::Clock));
}

/// A step keeps a sound machine sound.
pub proof fn law_step_keeps_sound(m: InterpreterView, ast: AstView)
    requires
        sound(m, ast),
        fits(m),
        blocks_fit(ast),
    ensures
        sound(m.step(ast).0, ast),
{
    lemma_sound_is_ready(m, ast);
    match m.control {
        ControlView::Idle => {},
        ControlView::Await(_) => {},
        ControlView::Eval(e, frame) => lemma_eval(m, ast, e, frame),
        ControlView::Exec(s, frame) => lemma_exec(m, ast, s, frame),
        ControlView::Value(v) => {
            if m.stack.len() > 0 {
                lemma_resume(m, ast, v);
            }
        },
        ControlView::Normal => {
            if m.stack.len() > 0 {
                lemma_complete(m, ast);
            }
        },
        ControlView::Raise(e) => {
            if m.stack.len() > 0 {
                lemma_unwind(m, ast, e);
            }
        },
    }
}

/// The host's answer keeps a sound machine sound.
pub proof fn law_reply_keeps_sound(m: InterpreterView, ast: AstView, n: u64)
    requires
        sound(m, ast),
    ensures
        sound(m.reply(n), ast),
{
    let next = m.reply(n);
    assert forall|j: int| 0 <= j < next.stack.len() implies #[trigger] progress(next, ast, j) by {
        assert(progress(m, ast, j));
    }
}

/// Loading a statement for which the table is sound at the top level keeps
/// a sound machine sound.
pub proof fn law_load_keeps_sound(m: InterpreterView, ast: AstView, s: usize)
    requires
        sound(m, ast),
        sound_stmt(ast, m.locals, s, seq![]),
    ensures
        sound(m.load(s), ast),
{
    let next = m.load(s);
    assert(scopes_of(m.env, GLOBAL) =~= seq![]);
    assert forall|j: int| 0 <= j < next.stack.len() implies #[trigger] progress(next, ast, j) by {
        assert(progress(m, ast, j));
    }
}

/// The frame that a depth recorded for a name leads to, in scopes that are
/// sound for it: it exists, it is not the global frame, and it binds the
/// name.
pub proof fn lemma_depth_leads_to_binding(
    env: EnvView,
    frame: usize,
    locals: Map<usize, usize>,
    e: usize,
    name: Seq<char>,
)
    requires
        env.wf(),
        env.has(frame),
        locals.contains_key(e),
        bound_at(locals, e, name, scopes_of(env, frame)),
    ensures
        env.ancestor(frame, locals[e] as nat) matches Some(f) && env.has(f) && f != GLOBAL
            && env.frames[f as int].bindings.contains_key(name),
{
    lemma_scope_at_depth(env, frame, locals[e] as nat);
}

/// In a sound machine, a variable that is about to be read and was
/// resolved at some depth is bound in the frame that many parents up.
/// Reading it cannot fail.
pub proof fn law_resolved_variable_is_bound(
    m: InterpreterView,
    ast: AstView,
    e: usize,
    frame: usize,
    id: TokenView,
    depth: usize,
)
    requires
        sound(m, ast),
        m.control == ControlView::Eval(e, frame),
        e < ast.exprs.len(),
        ast.exprs[e as int] == ExprView::Identifier(id) || ast.exprs[e as int] == ExprView::This(id),
        m.depth(e) == Some(depth),
    ensures
        m.env.ancestor(frame, depth as nat) matches Some(f) && m.env.has(f)
            && m.env.frames[f as int].bindings.contains_key(id.lexeme),
        m.env.get_at(frame, id, Some(depth)) is Ok,
        m.step(ast).0.control is Value,
{
    reveal(sound_expr);
    reveal(sound_exprs);
    lemma_depth_leads_to_binding(m.env, frame, m.locals, e, id.lexeme);
}

/// Whatever the side table holds, sound or not, a variable that was
/// resolved at some depth is read from the frame that many parents up and
/// from no other. Where that frame binds its name, reading yields the
/// value bound there. Where it does not, or where there is no such frame,
/// reading is a runtime error at the line of the variable, and the machine
/// is otherwise as it was. So it is with a reference that the resolver
/// resolved to the scope of a declaration that has not run.
pub proof fn law_resolved_variable_is_read_at_its_depth(
    m: InterpreterView,
    ast: AstView,
    e: usize,
    frame: usize,
    id: TokenView,
    depth: usize,
)
    requires
        m.control == ControlView::Eval(e, frame),
        e < ast.exprs.len(),
        m.env.has(frame),
        ast.exprs[e as int] == ExprView::Identifier(id) || ast.exprs[e as int] == ExprView::This(id),
        m.depth(e) == Some(depth),
    ensures
        match m.env.ancestor(frame, depth as nat) {
            Some(f) => if m.env.frames[f as int].bindings.contains_key(id.lexeme) {
                m.step(ast) == m.deliver(m.env.frames[f as int].bindings[id.lexeme])
            } else {
                m.step(ast) == m.raise(
                    ErrorView::Runtime(id.line, "Undefined variable "@ + id.lexeme, id.lexeme),
                )
            },
            None => m.step(ast).0.control matches ControlView::Raise(ErrorView::Runtime(line, _, near))
                && line == id.line && near == id.lexeme && m.step(ast).0 == (InterpreterView {
                control: m.step(ast).0.control,
                ..m
            }),
        },
{
}

/// Whatever the side table holds, sound or not, a variable that was
/// resolved at some depth is written in the frame that many parents up and
/// in no other. Where that frame does not bind its name, or where there is
/// no such frame, writing is a runtime error at the line of the variable
/// and changes no frame.
pub proof fn law_resolved_variable_is_written_at_its_depth(
    m: InterpreterView,
    ast: AstView,
    e: usize,
    frame: usize,
    id: TokenView,
    value: usize,
    v: ObjectView,
    depth: usize,
)
    requires
        m.control == ControlView::Value(v),
        m.stack.len() > 0,
        m.stack.last() == KontView::Assign(e, frame),
        e < ast.exprs.len(),
        m.env.has(frame),
        ast.exprs[e as int] == ExprView::Assignment(id, value),
        m.depth(e) == Some(depth),
    ensures
        match m.env.ancestor(frame, depth as nat) {
            Some(f) => if m.env.frames[f as int].bindings.contains_key(id.lexeme) {
                m.step(ast) == InterpreterView {
                    env: m.env.define(f, id.lexeme, v),
                    ..m.pop()
                }.deliver(v)
            } else {
                m.step(ast) == m.pop().raise(
                    ErrorView::Runtime(id.line, "Undefined variable "@ + id.lexeme, id.lexeme),
                )
            },
            None => m.step(ast).0.control matches ControlView::Raise(ErrorView::Runtime(line, _, near))
                && line == id.line && near == id.lexeme && m.step(ast).0.env == m.env,
        },
{
}

/// In a sound machine, a variable that is about to be written and was
/// resolved at some depth is bound in the frame that many parents up.
/// Writing it cannot fail.
pub proof fn law_resolved_assignment_is_bound(
    m: InterpreterView,
    ast: AstView,
    e: usize,
    frame: usize,
    id: TokenView,
    value: usize,
    v: ObjectView,
    depth: usize,
)
    requires
        sound(m, ast),
        m.control == ControlView::Value(v),
        m.stack.len() > 0,
        m.stack.last() == KontView::Assign(e, frame),
        e < ast.exprs.len(),
        ast.exprs[e as int] == ExprView::Assignment(id, value),
        m.depth(e) == Some(depth),
    ensures
        m.env.ancestor(frame, depth as nat) matches Some(f) && m.env.has(f)
            && m.env.frames[f as int].bindings.contains_key(id.lexeme),
        m.env.assign_at(frame, id, v, Some(depth)).1 is Ok,
        m.step(ast).0.control == ControlView::Value(v),
{
    reveal(sound_expr);
    reveal(sound_exprs);
    assert(kont_sound(ast, m.locals, m.env, m.stack[m.stack.len() - 1]));
    lemma_depth_leads_to_binding(m.env, frame, m.locals, e, id.lexeme);
}

/// In a sound machine, where `super` is about to be evaluated and was
/// resolved at some depth, the frame that many parents up binds `super`,
/// and the frame one nearer binds `this`.
pub proof fn law_resolved_super_is_bound(
    m: InterpreterView,
    ast: AstView,
    e: usize,
    frame: usize,
    keyword: TokenView,
    method: TokenView,
    depth: usize,
)
    requires
        sound(m, ast),
        m.control == ControlView::Eval(e, frame),
        e < ast.exprs.len(),
        ast.exprs[e as int] == ExprView::Super(keyword, method),
        m.depth(e) == Some(depth),
    ensures
        depth >= 1,
        m.env.get_at(frame, keyword, Some(depth)) is Ok,
        m.env.ancestor(frame, (depth - 1) as nat) matches Some(f) && m.env.has(f)
            && m.env.frames[f as int].bindings.contains_key("this"@),
{
    reveal(sound_expr);
    reveal(sound_exprs);
    lemma_depth_leads_to_binding(m.env, frame, m.locals, e, keyword.lexeme);
    let shifted = map![e => (depth - 1) as usize];
    assert(shifted.contains_key(e));
    assert(shifted[e] == (depth - 1) as usize);
    lemma_depth_leads_to_binding(m.env, frame, shifted, e, "this"@);
}


/// The side table knows of stored nodes only.
pub open spec fn within(locals: Map<usize, usize>, ast: AstView) -> bool {
    forall|k: usize| #[trigger] locals.contains_key(k) ==> k < ast.exprs.len()
}

/// The statement `s` of `ast` is made of nodes that `old` does not have.
pub open spec fn new_in(ast: AstView, old: AstView, s: usize) -> bool {
    forall|k: usize| #[trigger] stmt_nodes(ast, s).contains(k) ==> k >= old.exprs.len()
}

/// The resolver binds the top-level statement `s` well: if it accepts the
/// statement, every reference in it that gets a depth is resolved to a
/// scope in which its name is certain to be bound by the time the
/// reference is evaluated.
///
/// A name is certain in a scope once a statement of that scope's block has
/// declared it, or when it is a parameter, `this` or `super`. It is not
/// certain when its declaration stands alone under an `if` or a `while`,
/// which may never run, nor is a variable certain within its own
/// initializer. So the statements that are not bound well are those in
/// which some reference is resolved to the scope of such a declaration.
pub open spec fn bound_well(ast: AstView, locals: Map<usize, usize>, s: usize) -> bool {
    let (r, res) = ResolverView::start(locals).stmt(ast, s);
    res is Ok ==> sound_stmt(ast, r.locals, s, seq![])
}

/// A statement that keeps to the two rules of style is bound well: one in
/// which no declaration stands alone under an `if` or a `while` inside a
/// block or a function, and no initializer assigns to the variable it
/// initializes.
pub proof fn law_tidy_statement_is_bound_well(ast: AstView, locals: Map<usize, usize>, s: usize)
    requires
        ast.wf(),
        tree(ast),
        spelled(ast),
        named(ast),
        s < ast.stmts.len(),
        3 * s + 3 <= usize::MAX,
        fresh(locals, stmt_nodes(ast, s)),
        tidy(ast, s, false),
    ensures
        bound_well(ast, locals, s),
{
    lemma_tidy_is_plain(ast, s, false);
    if ResolverView::start(locals).stmt(ast, s).1 is Ok {
        law_resolver_is_sound(ast, locals, s);
    }
}

/// A statement none of whose references the resolver gives a depth, so
/// that all of them are global, is bound well, whatever it declares and
/// wherever: a block that holds `if (c) var a = 1;` and nothing that the
/// resolver finds in a scope is one.
pub proof fn law_statement_of_globals_is_bound_well(ast: AstView, locals: Map<usize, usize>, s: usize)
    requires
        ast.wf(),
        s < ast.stmts.len(),
        forall|k: usize| #[trigger]
            stmt_nodes(ast, s).contains(k) ==> !ResolverView::start(locals).stmt(
                ast,
                s,
            ).0.locals.contains_key(k),
    ensures
        bound_well(ast, locals, s),
{
    let after = ResolverView::start(locals).stmt(ast, s).0.locals;
    lemma_blank_stmt(ast, s, seq![]);
    assert(agree_on(Map::empty(), after, stmt_nodes(ast, s))) by {
        assert forall|k: usize| stmt_nodes(ast, s).contains(k) implies #[trigger] same_at(
            Map::empty(),
            after,
            k,
        ) by {}
    }
    lemma_sound_stmt_local(ast, Map::empty(), after, s, seq![]);
}

/// Resolving a new statement and loading it keeps a sound machine sound.
///
/// The machine was sound with the syntax `ast`. The parser has added nodes
/// to it, making it `more`, in which the statement `s` is made of new
/// nodes and is bound well. Then the machine is sound with `more` and the
/// table that the resolver leaves, whether or not the resolver accepts the
/// statement; and if it does, the machine is sound with the statement
/// loaded.
pub proof fn law_loading_keeps_sound(m: InterpreterView, ast: AstView, more: AstView, s: usize)
    requires
        sound(m, ast),
        within(m.locals, ast),
        more.wf(),
        more.extends(ast),
        s < more.stmts.len(),
        new_in(more, ast, s),
        bound_well(more, m.locals, s),
    ensures
        ({
            let (r, res) = ResolverView::start(m.locals).stmt(more, s);
            let resolved = InterpreterView { locals: r.locals, ..m };
            &&& sound(resolved, more)
            &&& within(r.locals, more)
            &&& res is Ok ==> sound(resolved.load(s), more)
        }),
{
    let start = ResolverView::start(m.locals);
    let (r, res) = start.stmt(more, s);
    let resolved = InterpreterView { locals: r.locals, ..m };
    lemma_stmt_frame(more, start, s);
    lemma_stmt_nodes_stored(more, s);
    assert(agree_on(m.locals, r.locals, stored(ast))) by {
        assert forall|k: usize| stored(ast).contains(k) implies #[trigger] same_at(
            m.locals,
            r.locals,
            k,
        ) by {
            assert(!stmt_nodes(more, s).contains(k));
        }
    }
    law_sound_with_more_syntax(m, ast, more, r.locals);
    assert(fresh(m.locals, stmt_nodes(more, s))) by {
        assert forall|k: usize| stmt_nodes(more, s).contains(k) implies !#[trigger] m.locals.contains_key(
            k,
        ) by {}
    }
    assert(within(r.locals, more)) by {
        assert forall|k: usize| #[trigger] r.locals.contains_key(k) implies k < more.exprs.len() by {
            if !stmt_nodes(more, s).contains(k) {
                assert(same_at(m.locals, r.locals, k));
                assert(m.locals.contains_key(k));
            }
        }
    }
    if res is Ok {
        law_load_keeps_sound(resolved, more, s);
    }
}

/// What makes a runner sound: its evaluator is sound with its syntax, its
/// side table knows of stored nodes only, and its syntax is a well-formed
/// forest in which names and keywords are kept apart.
pub open spec fn healthy(r: RunnerView) -> bool {
    &&& sound(r.interpreter, r.parser.ast)
    &&& within(r.interpreter.locals, r.parser.ast)
    &&& r.parser.ast.wf()
    &&& tree(r.parser.ast)
    &&& spelled(r.parser.ast)
    &&& named(r.parser.ast)
}

/// What the parser does for its next statement: the syntax stays a
/// well-formed forest with every stored node in place, and the statement
/// is made of new nodes. A step of `Runner` shows it of every runner that
/// it is given.
pub open spec fn parses_well(r: RunnerView) -> bool {
    let (parser, next) = r.parser.next();
    &&& parser.ast.wf()
    &&& parser.ast.extends(r.parser.ast)
    &&& tree(parser.ast)
    &&& spelled(parser.ast)
    &&& named(parser.ast)
    &&& next matches Some(Ok(s)) ==> s < parser.ast.stmts.len() && new_in(parser.ast, r.parser.ast, s)
}

/// The next statement is bound well, and the machine has room for its
/// step.
pub open spec fn steps_well(r: RunnerView) -> bool {
    let (parser, next) = r.parser.next();
    &&& fits(r.interpreter)
    &&& r.interpreter.control is Idle ==> (next matches Some(Ok(s)) ==> bound_well(
        parser.ast,
        r.interpreter.locals,
        s,
    ))
}

/// A runner steps well where its next statement keeps to the two rules of
/// style and the machine has room.
pub proof fn law_tidy_statement_steps_well(r: RunnerView)
    requires
        healthy(r),
        parses_well(r),
        fits(r.interpreter),
        r.interpreter.control is Idle ==> (r.parser.next().1 matches Some(Ok(s)) ==> tidy(
            r.parser.next().0.ast,
            s,
            false,
        ) && 3 * s + 3 <= usize::MAX),
    ensures
        steps_well(r),
{
    let (parser, next) = r.parser.next();
    if r.interpreter.control is Idle {
        if let Some(Ok(s)) = next {
            assert(fresh(r.interpreter.locals, stmt_nodes(parser.ast, s))) by {
                assert forall|k: usize| stmt_nodes(parser.ast, s).contains(k) implies !#[trigger] r.interpreter.locals.contains_key(
                    k,
                ) by {}
            }
            law_tidy_statement_is_bound_well(parser.ast, r.interpreter.locals, s);
        }
    }
}

/// Every step of a run of up to `fuel` steps is one that `steps_well`
/// admits.
pub open spec fn runs_well(r: RunnerView, fuel: nat) -> bool
    decreases fuel,
{
    fuel > 0 ==> steps_well(r) && (r.step().1 is Proceed ==> runs_well(r.step().0, (fuel - 1) as nat))
}

/// The step of a sound runner whose evaluator is at rest keeps it sound.
pub proof fn lemma_runner_advances(r: RunnerView)
    requires
        healthy(r),
        parses_well(r),
        steps_well(r),
        r.interpreter.control is Idle,
    ensures
        healthy(r.advance().0),
{
    let ast = r.parser.ast;
    let (parser, next) = r.parser.next();
    let m = r.interpreter;
    match next {
        Some(Ok(s)) => {
            law_loading_keeps_sound(m, ast, parser.ast, s);
        },
        _ => {
            assert(agree_on(m.locals, m.locals, stored(ast)));
            law_sound_with_more_syntax(m, ast, parser.ast, m.locals);
            assert(within(m.locals, parser.ast));
        },
    }
}

/// The step of a sound runner whose evaluator is at work keeps it sound.
pub proof fn lemma_runner_evaluates(r: RunnerView)
    requires
        healthy(r),
        fits(r.interpreter),
        blocks_fit(r.parser.ast),
        !(r.interpreter.control is Idle),
    ensures
        healthy(r.step().0),
{
    law_step_keeps_sound(r.interpreter, r.parser.ast);
    let (after, action) = r.interpreter.step(r.parser.ast);
    lemma_step_keeps_table(r.interpreter, r.parser.ast);
}

/// A step of the evaluator leaves the side table as it is.
pub proof fn lemma_step_keeps_table(m: InterpreterView, ast: AstView)
    ensures
        m.step(ast).0.locals == m.locals,
{
    crate::preservation::lemma_step_frame(m, ast);
}

/// A step keeps a sound runner sound: whether it parses, resolves and
/// loads the next statement or lets the evaluator take a step.
pub proof fn law_runner_stays_healthy(r: RunnerView)
    requires
        healthy(r),
        parses_well(r),
        steps_well(r),
        blocks_fit(r.parser.ast),
    ensures
        healthy(r.step().0),
{
    if r.interpreter.control is Idle {
        lemma_runner_advances(r);
    } else {
        lemma_runner_evaluates(r);
    }
}

/// The host's answer keeps a sound runner sound.
pub proof fn law_runner_reply_stays_healthy(r: RunnerView, n: u64)
    requires
        healthy(r),
    ensures
        healthy(r.reply(n)),
{
    law_reply_keeps_sound(r.interpreter, r.parser.ast, n);
}

/// A new input keeps a sound runner sound.
pub proof fn law_runner_feed_stays_healthy(r: RunnerView, src: Seq<char>)
    requires
        healthy(r),
    ensures
        healthy(r.feed(src)),
{
}

/// A new runner is sound.
pub proof fn law_runner_starts_healthy(repl: bool)
    ensures
        healthy(RunnerView::start(repl)),
{
    law_sound_at_start(repl, AstView::empty());
    let ast = AstView::empty();
    assert(tree(ast));
    assert(spelled(ast));
    assert(ast.wf());
}

} // verus!
