//! The side table and the frames agree.
//!
//! A machine is `sound` when its side table is sound, in the sense of
//! `crate::scoping`, for every piece of syntax the machine may still run,
//! in the scopes that the frames make where it will run. This module proves
//! that a step keeps a sound machine sound, and that in a sound machine a
//! reference that has a depth finds, that many frames out, a frame that
//! binds its name.

use vstd::prelude::*;
use crate::ast::AstView;
use crate::env::EnvView;
use crate::error::ErrorView;
use crate::functions::{Callable, LoxFunction};
use crate::machine::{ControlView, KontView};
use crate::object::ObjectView;
use crate::scoping::{
    add_name, after, covers, declared, grows, lemma_covers_add, lemma_covers_after,
    lemma_covers_push, lemma_covers_trans, lemma_scopes_grow, lemma_sound_expr_mono,
    lemma_sound_stmt_mono, lemma_sound_stmts_mono, param_names, scopes_of, sound_expr, sound_stmt,
    sound_stmts,
};
use crate::semantics::InterpreterView;
use crate::stmt::StmtView;

verus! {

/// The closure of the function `f` exists, and the table is sound for its
/// body run with its parameters in the scopes that its closure makes.
pub open spec fn fun_ok(ast: AstView, locals: Map<usize, usize>, env: EnvView, f: LoxFunction) -> bool {
    &&& env.has(f.closure)
    &&& f.decl < ast.stmts.len()
    &&& match ast.stmts[f.decl as int] {
        StmtView::Function(_, params, body) => sound_stmt(
            ast,
            locals,
            body,
            scopes_of(env, f.closure).push(param_names(params)),
        ),
        _ => true,
    }
}

/// The same for a method as a class holds it, not yet bound to an
/// instance: between its closure and its parameters there will be a frame
/// that binds `this`.
pub open spec fn method_ok(ast: AstView, locals: Map<usize, usize>, env: EnvView, f: LoxFunction) -> bool {
    &&& env.has(f.closure)
    &&& f.decl < ast.stmts.len()
    &&& match ast.stmts[f.decl as int] {
        StmtView::Function(_, params, body) => sound_stmt(
            ast,
            locals,
            body,
            scopes_of(env, f.closure).push(set!["this"@]).push(param_names(params)),
        ),
        _ => true,
    }
}

pub open spec fn value_ok(ast: AstView, locals: Map<usize, usize>, env: EnvView, v: ObjectView) -> bool {
    match v {
        ObjectView::Func(Callable::Runtime(f)) => fun_ok(ast, locals, env, f),
        _ => true,
    }
}

pub open spec fn entry_ok(ast: AstView, locals: Map<usize, usize>, env: EnvView, v: ObjectView) -> bool {
    match v {
        ObjectView::Func(Callable::Runtime(f)) => method_ok(ast, locals, env, f),
        _ => true,
    }
}

pub open spec fn values_ok(
    ast: AstView,
    locals: Map<usize, usize>,
    env: EnvView,
    table: Map<Seq<char>, ObjectView>,
) -> bool {
    forall|n: Seq<char>| table.contains_key(n) ==> value_ok(ast, locals, env, #[trigger] table[n])
}

pub open spec fn entries_ok(
    ast: AstView,
    locals: Map<usize, usize>,
    env: EnvView,
    table: Map<Seq<char>, ObjectView>,
) -> bool {
    forall|n: Seq<char>| table.contains_key(n) ==> entry_ok(ast, locals, env, #[trigger] table[n])
}

/// Every value that a frame or an instance holds, and every method that a
/// class holds, is in order.
pub open spec fn heap_ok(m: InterpreterView, ast: AstView) -> bool {
    &&& forall|f: int|
        0 <= f < m.env.frames.len() ==> values_ok(
            ast,
            m.locals,
            m.env,
            (#[trigger] m.env.frames[f]).bindings,
        )
    &&& forall|i: int|
        0 <= i < m.instances.len() ==> values_ok(
            ast,
            m.locals,
            m.env,
            (#[trigger] m.instances[i]).fields,
        )
    &&& forall|c: int|
        0 <= c < m.classes.len() ==> entries_ok(
            ast,
            m.locals,
            m.env,
            (#[trigger] m.classes[c]).methods,
        )
}

/// The frame exists and the table is sound for the expression in the
/// scopes seen from it.
pub open spec fn node_sound(
    ast: AstView,
    locals: Map<usize, usize>,
    env: EnvView,
    e: usize,
    frame: usize,
) -> bool {
    env.has(frame) && sound_expr(ast, locals, e, scopes_of(env, frame))
}

pub open spec fn stmt_sound(
    ast: AstView,
    locals: Map<usize, usize>,
    env: EnvView,
    s: usize,
    frame: usize,
) -> bool {
    env.has(frame) && sound_stmt(ast, locals, s, scopes_of(env, frame))
}

/// The statements of a block that are still to run, counted from `next`.
/// Where a statement is under way, the scopes meant are those after it.
pub open spec fn rest_sound(
    ast: AstView,
    locals: Map<usize, usize>,
    env: EnvView,
    s: usize,
    next: usize,
    frame: usize,
) -> bool {
    &&& env.has(frame)
    &&& s < ast.stmts.len()
    &&& {
        match ast.stmts[s as int] {
            StmtView::Block(body) => if next == 0 {
                sound_stmts(ast, locals, s, body, 0, scopes_of(env, frame))
            } else if next - 1 < body.len() {
                body[next - 1] < ast.stmts.len() && sound_stmts(
                    ast,
                    locals,
                    s,
                    body,
                    next as nat,
                    after(ast, scopes_of(env, frame), body[next - 1]),
                )
            } else {
                true
            },
            _ => true,
        }
    }
}

/// The statement `s`, if it declares a class, names a superclass for it.
pub open spec fn inherits(ast: AstView, s: usize) -> bool {
    s < ast.stmts.len() ==> match ast.stmts[s as int] {
        StmtView::Class(_, parent, _) => parent is Some,
        _ => true,
    }
}

/// What a waiting construct needs of the frames and the table, whatever
/// else is waiting.
pub open spec fn kont_sound(ast: AstView, locals: Map<usize, usize>, env: EnvView, k: KontView) -> bool {
    match k {
        KontView::BinaryLeft(e, frame) => node_sound(ast, locals, env, e, frame),
        KontView::Logical(e, frame) => node_sound(ast, locals, env, e, frame),
        KontView::Assign(e, frame) => node_sound(ast, locals, env, e, frame),
        KontView::Callee(e, frame) => node_sound(ast, locals, env, e, frame),
        KontView::SetObject(e, frame) => node_sound(ast, locals, env, e, frame),
        KontView::Args(e, frame, callee, done) => {
            &&& node_sound(ast, locals, env, e, frame)
            &&& value_ok(ast, locals, env, callee)
            &&& forall|k: int| 0 <= k < done.len() ==> value_ok(ast, locals, env, #[trigger] done[k])
        },
        KontView::BinaryRight(_, lhs) => value_ok(ast, locals, env, lhs),
        KontView::IfCond(s, frame) => stmt_sound(ast, locals, env, s, frame),
        KontView::WhileCond(s, frame) => stmt_sound(ast, locals, env, s, frame),
        KontView::WhileBody(s, frame) => stmt_sound(ast, locals, env, s, frame),
        KontView::Superclass(s, frame) => stmt_sound(ast, locals, env, s, frame) && inherits(ast, s),
        KontView::Block(s, next, frame) => rest_sound(ast, locals, env, s, next, frame),
        _ => true,
    }
}

/// The statement of a block that is under way, if the construct at `j` is
/// a block with one.
pub open spec fn under_way(m: InterpreterView, ast: AstView, j: int) -> Option<(usize, usize)> {
    match m.stack[j] {
        KontView::Block(s, next, frame) => if next >= 1 && s < ast.stmts.len() {
            match ast.stmts[s as int] {
                StmtView::Block(body) => if next - 1 < body.len() {
                    Some((body[next - 1], frame))
                } else {
                    None
                },
                _ => None,
            }
        } else {
            None
        },
        _ => None,
    }
}

/// The name that the statement under way in the block at `j` binds is
/// bound, or is about to be: the statement is about to run, or has gone as
/// far as evaluating what the name is to be bound to, or is being left
/// behind by an error.
pub open spec fn progress(m: InterpreterView, ast: AstView, j: int) -> bool {
    match under_way(m, ast, j) {
        Some((stmt, frame)) => {
            ||| (declared(ast, stmt) matches Some(name) ==> m.env.has(frame)
                && m.env.frames[frame as int].bindings.contains_key(name))
            ||| (j + 1 < m.stack.len() && (m.stack[j + 1] == KontView::VarInit(stmt, frame)
                || m.stack[j + 1] == KontView::Superclass(stmt, frame)))
            ||| (j + 1 == m.stack.len() && (m.control == ControlView::Exec(stmt, frame)
                || m.control is Raise))
        },
        None => true,
    }
}

pub open spec fn control_ok(m: InterpreterView, ast: AstView) -> bool {
    match m.control {
        ControlView::Eval(e, frame) => node_sound(ast, m.locals, m.env, e, frame),
        ControlView::Exec(s, frame) => stmt_sound(ast, m.locals, m.env, s, frame),
        ControlView::Value(v) => value_ok(ast, m.locals, m.env, v),
        ControlView::Raise(ErrorView::Return(_, v)) => value_ok(ast, m.locals, m.env, v),
        _ => true,
    }
}

/// The machine is sound: the side table is sound for all that it may still
/// run, where it will run it.
pub open spec fn sound(m: InterpreterView, ast: AstView) -> bool {
    &&& m.env.wf()
    &&& heap_ok(m, ast)
    &&& forall|j: int| 0 <= j < m.stack.len() ==> kont_sound(ast, m.locals, m.env, #[trigger] m.stack[j])
    &&& forall|j: int| 0 <= j < m.stack.len() ==> #[trigger] progress(m, ast, j)
    &&& control_ok(m, ast)
}

/// There is room for the frames, the classes and the instances that one
/// step may make.
pub open spec fn fits(m: InterpreterView) -> bool {
    &&& m.env.frames.len() + 2 <= usize::MAX
    &&& m.classes.len() < usize::MAX
    &&& m.instances.len() < usize::MAX
}

pub proof fn lemma_fun_grows(
    ast: AstView,
    locals: Map<usize, usize>,
    env: EnvView,
    later: EnvView,
    f: LoxFunction,
)
    requires
        grows(env, later),
        fun_ok(ast, locals, env, f),
    ensures
        fun_ok(ast, locals, later, f),
{
    lemma_scopes_grow(env, later, f.closure);
    if f.decl < ast.stmts.len() {
        match ast.stmts[f.decl as int] {
            StmtView::Function(_, params, body) => {
                lemma_covers_push(
                    scopes_of(later, f.closure),
                    scopes_of(env, f.closure),
                    param_names(params),
                    param_names(params),
                );
                lemma_sound_stmt_mono(
                    ast,
                    locals,
                    body,
                    scopes_of(env, f.closure).push(param_names(params)),
                    scopes_of(later, f.closure).push(param_names(params)),
                );
            },
            _ => {},
        }
    }
}

pub proof fn lemma_method_grows(
    ast: AstView,
    locals: Map<usize, usize>,
    env: EnvView,
    later: EnvView,
    f: LoxFunction,
)
    requires
        grows(env, later),
        method_ok(ast, locals, env, f),
    ensures
        method_ok(ast, locals, later, f),
{
    lemma_scopes_grow(env, later, f.closure);
    if f.decl < ast.stmts.len() {
        match ast.stmts[f.decl as int] {
            StmtView::Function(_, params, body) => {
                lemma_covers_push(
                    scopes_of(later, f.closure),
                    scopes_of(env, f.closure),
                    set!["this"@],
                    set!["this"@],
                );
                lemma_covers_push(
                    scopes_of(later, f.closure).push(set!["this"@]),
                    scopes_of(env, f.closure).push(set!["this"@]),
                    param_names(params),
                    param_names(params),
                );
                lemma_sound_stmt_mono(
                    ast,
                    locals,
                    body,
                    scopes_of(env, f.closure).push(set!["this"@]).push(param_names(params)),
                    scopes_of(later, f.closure).push(set!["this"@]).push(param_names(params)),
                );
            },
            _ => {},
        }
    }
}

pub proof fn lemma_value_grows(
    ast: AstView,
    locals: Map<usize, usize>,
    env: EnvView,
    later: EnvView,
    v: ObjectView,
)
    requires
        grows(env, later),
        value_ok(ast, locals, env, v),
    ensures
        value_ok(ast, locals, later, v),
{
    match v {
        ObjectView::Func(Callable::Runtime(f)) => lemma_fun_grows(ast, locals, env, later, f),
        _ => {},
    }
}

pub proof fn lemma_values_grow(
    ast: AstView,
    locals: Map<usize, usize>,
    env: EnvView,
    later: EnvView,
    table: Map<Seq<char>, ObjectView>,
)
    requires
        grows(env, later),
        values_ok(ast, locals, env, table),
    ensures
        values_ok(ast, locals, later, table),
{
    assert forall|n: Seq<char>| table.contains_key(n) implies value_ok(
        ast,
        locals,
        later,
        #[trigger] table[n],
    ) by {
        lemma_value_grows(ast, locals, env, later, table[n]);
    }
}

pub proof fn lemma_entries_grow(
    ast: AstView,
    locals: Map<usize, usize>,
    env: EnvView,
    later: EnvView,
    table: Map<Seq<char>, ObjectView>,
)
    requires
        grows(env, later),
        entries_ok(ast, locals, env, table),
    ensures
        entries_ok(ast, locals, later, table),
{
    assert forall|n: Seq<char>| table.contains_key(n) implies entry_ok(
        ast,
        locals,
        later,
        #[trigger] table[n],
    ) by {
        match table[n] {
            ObjectView::Func(Callable::Runtime(f)) => lemma_method_grows(ast, locals, env, later, f),
            _ => {},
        }
    }
}

pub proof fn lemma_node_grows(
    ast: AstView,
    locals: Map<usize, usize>,
    env: EnvView,
    later: EnvView,
    e: usize,
    frame: usize,
)
    requires
        grows(env, later),
        node_sound(ast, locals, env, e, frame),
    ensures
        node_sound(ast, locals, later, e, frame),
{
    lemma_scopes_grow(env, later, frame);
    lemma_sound_expr_mono(ast, locals, e, scopes_of(env, frame), scopes_of(later, frame));
}

pub proof fn lemma_stmt_grows(
    ast: AstView,
    locals: Map<usize, usize>,
    env: EnvView,
    later: EnvView,
    s: usize,
    frame: usize,
)
    requires
        grows(env, later),
        stmt_sound(ast, locals, env, s, frame),
    ensures
        stmt_sound(ast, locals, later, s, frame),
{
    lemma_scopes_grow(env, later, frame);
    lemma_sound_stmt_mono(ast, locals, s, scopes_of(env, frame), scopes_of(later, frame));
}

pub proof fn lemma_kont_grows(
    ast: AstView,
    locals: Map<usize, usize>,
    env: EnvView,
    later: EnvView,
    k: KontView,
)
    requires
        grows(env, later),
        kont_sound(ast, locals, env, k),
    ensures
        kont_sound(ast, locals, later, k),
{
    match k {
        KontView::BinaryLeft(e, frame) => lemma_node_grows(ast, locals, env, later, e, frame),
        KontView::Logical(e, frame) => lemma_node_grows(ast, locals, env, later, e, frame),
        KontView::Assign(e, frame) => lemma_node_grows(ast, locals, env, later, e, frame),
        KontView::Callee(e, frame) => lemma_node_grows(ast, locals, env, later, e, frame),
        KontView::SetObject(e, frame) => lemma_node_grows(ast, locals, env, later, e, frame),
        KontView::Args(e, frame, callee, done) => {
            lemma_node_grows(ast, locals, env, later, e, frame);
            lemma_value_grows(ast, locals, env, later, callee);
            assert forall|k: int| 0 <= k < done.len() implies value_ok(
                ast,
                locals,
                later,
                #[trigger] done[k],
            ) by {
                lemma_value_grows(ast, locals, env, later, done[k]);
            }
        },
        KontView::BinaryRight(_, lhs) => lemma_value_grows(ast, locals, env, later, lhs),
        KontView::IfCond(s, frame) => lemma_stmt_grows(ast, locals, env, later, s, frame),
        KontView::WhileCond(s, frame) => lemma_stmt_grows(ast, locals, env, later, s, frame),
        KontView::WhileBody(s, frame) => lemma_stmt_grows(ast, locals, env, later, s, frame),
        KontView::Superclass(s, frame) => lemma_stmt_grows(ast, locals, env, later, s, frame),
        KontView::Block(s, next, frame) => {
            lemma_scopes_grow(env, later, frame);
            if s < ast.stmts.len() {
                match ast.stmts[s as int] {
                    StmtView::Block(body) => {
                        if next == 0 {
                            lemma_sound_stmts_mono(
                                ast,
                                locals,
                                s,
                                body,
                                0,
                                scopes_of(env, frame),
                                scopes_of(later, frame),
                            );
                        } else if next - 1 < body.len() {
                            lemma_covers_after(
                                ast,
                                scopes_of(later, frame),
                                scopes_of(env, frame),
                                body[next - 1],
                            );
                            lemma_sound_stmts_mono(
                                ast,
                                locals,
                                s,
                                body,
                                next as nat,
                                after(ast, scopes_of(env, frame), body[next - 1]),
                                after(ast, scopes_of(later, frame), body[next - 1]),
                            );
                        }
                    },
                    _ => {},
                }
            }
        },
        _ => {},
    }
}

/// Growth of the frames composes.
pub proof fn lemma_grows_trans(a: EnvView, b: EnvView, c: EnvView)
    requires
        grows(a, b),
        grows(b, c),
    ensures
        grows(a, c),
{
    assert forall|f: int| 0 <= f < a.frames.len() implies (#[trigger] c.frames[f]).parent
        == a.frames[f].parent && a.frames[f].bindings.dom().subset_of(c.frames[f].bindings.dom()) by {
        assert(b.frames[f].parent == a.frames[f].parent);
        assert(c.frames[f].parent == b.frames[f].parent);
        assert(a.frames[f].bindings.dom().subset_of(b.frames[f].bindings.dom()));
        assert(b.frames[f].bindings.dom().subset_of(c.frames[f].bindings.dom()));
    }
}

/// Binding a name in a frame grows the frames and keeps them in order.
pub proof fn lemma_define_grows(env: EnvView, frame: usize, name: Seq<char>, v: ObjectView)
    requires
        env.wf(),
        env.has(frame),
    ensures
        grows(env, env.define(frame, name, v)),
        env.define(frame, name, v).wf(),
        env.define(frame, name, v).frames.len() == env.frames.len(),
        env.define(frame, name, v).frames[frame as int].bindings.contains_key(name),
{
    let later = env.define(frame, name, v);
    assert forall|f: int| 0 <= f < env.frames.len() implies (#[trigger] later.frames[f]).parent
        == env.frames[f].parent && env.frames[f].bindings.dom().subset_of(
        later.frames[f].bindings.dom(),
    ) by {}
    assert forall|i: int| 1 <= i < later.frames.len() implies ((
    #[trigger] later.frames[i]).parent matches Some(p) && p < i) by {
        assert(env.frames[i].parent matches Some(p) && p < i);
    }
}

/// Making a frame grows the frames and keeps them in order.
pub proof fn lemma_push_grows(env: EnvView, parent: usize)
    requires
        env.wf(),
        env.has(parent),
        env.frames.len() < usize::MAX,
    ensures
        grows(env, env.push_frame(parent).0),
        env.push_frame(parent).0.wf(),
        env.push_frame(parent).1 == env.frames.len(),
        env.push_frame(parent).0.frames.len() == env.frames.len() + 1,
        env.push_frame(parent).0.has(env.push_frame(parent).1),
        scopes_of(env.push_frame(parent).0, env.push_frame(parent).1) == scopes_of(
            env.push_frame(parent).0,
            parent,
        ).push(Set::<Seq<char>>::empty()),
{
    let (later, id) = env.push_frame(parent);
    assert forall|f: int| 0 <= f < env.frames.len() implies (#[trigger] later.frames[f]).parent
        == env.frames[f].parent && env.frames[f].bindings.dom().subset_of(
        later.frames[f].bindings.dom(),
    ) by {}
    assert forall|i: int| 1 <= i < later.frames.len() implies ((
    #[trigger] later.frames[i]).parent matches Some(p) && p < i) by {
        if i < env.frames.len() {
            assert(env.frames[i].parent matches Some(p) && p < i);
        }
    }
    assert(later.frames[id as int].bindings.dom() =~= Set::<Seq<char>>::empty());
}

/// What the scopes seen from a frame are made of.
pub proof fn lemma_scopes_unfold(env: EnvView, frame: usize)
    requires
        env.wf(),
        env.has(frame),
        frame != 0,
    ensures
        env.frames[frame as int].parent is Some,
        env.frames[frame as int].parent->0 < frame,
        scopes_of(env, frame) == scopes_of(env, env.frames[frame as int].parent->0).push(
            env.frames[frame as int].bindings.dom(),
        ),
{
    assert(env.frames[frame as int].parent matches Some(p) && p < frame);
}

/// Once a frame binds a name, adding the name to the innermost scope seen
/// from the frame adds nothing.
pub proof fn lemma_bound_name_is_in_scope(env: EnvView, frame: usize, name: Seq<char>)
    requires
        env.wf(),
        env.has(frame),
        env.frames[frame as int].bindings.contains_key(name),
    ensures
        covers(scopes_of(env, frame), add_name(scopes_of(env, frame), name)),
{
    let s = scopes_of(env, frame);
    if frame != 0 {
        lemma_scopes_unfold(env, frame);
        assert(s.last() == env.frames[frame as int].bindings.dom());
        assert(s.last().insert(name) =~= s.last());
        assert(add_name(s, name) =~= s);
    }
}

/// Binding a name in a frame puts it into the innermost scope seen from
/// the frame.
pub proof fn lemma_define_adds(env: EnvView, frame: usize, name: Seq<char>, v: ObjectView)
    requires
        env.wf(),
        env.has(frame),
    ensures
        covers(
            scopes_of(env.define(frame, name, v), frame),
            add_name(scopes_of(env, frame), name),
        ),
{
    let later = env.define(frame, name, v);
    lemma_define_grows(env, frame, name, v);
    lemma_scopes_grow(env, later, frame);
    lemma_covers_add(scopes_of(later, frame), scopes_of(env, frame), name);
    lemma_bound_name_is_in_scope(later, frame, name);
    lemma_covers_trans(
        scopes_of(later, frame),
        add_name(scopes_of(later, frame), name),
        add_name(scopes_of(env, frame), name),
    );
}


/// All of soundness that does not hang on what the machine is doing at the
/// moment: the heap, what every waiting construct needs, and the progress
/// of every block but the innermost waiting one.
pub open spec fn sound_below(m: InterpreterView, ast: AstView) -> bool {
    &&& m.env.wf()
    &&& heap_ok(m, ast)
    &&& forall|j: int| 0 <= j < m.stack.len() ==> kont_sound(ast, m.locals, m.env, #[trigger] m.stack[j])
    &&& forall|j: int| 0 <= j < m.stack.len() - 1 ==> #[trigger] progress(m, ast, j)
}

/// The statement under way in the innermost waiting block, if there is
/// one, has bound its name.
pub open spec fn settled(m: InterpreterView, ast: AstView) -> bool {
    m.stack.len() > 0 ==> (under_way(m, ast, m.stack.len() - 1) matches Some((stmt, frame)) ==> (
    declared(ast, stmt) matches Some(name) ==> m.env.has(frame)
        && m.env.frames[frame as int].bindings.contains_key(name)))
}

/// The statement under way in the innermost waiting block, if there is
/// one, has bound its name or is the statement `stmt` run in `frame`.
pub open spec fn settled_but(m: InterpreterView, ast: AstView, stmt: usize, frame: usize) -> bool {
    settled(m, ast) || (m.stack.len() > 0 && under_way(m, ast, m.stack.len() - 1) == Some(
        (stmt, frame),
    ))
}

/// A sound machine, but for what it is doing, is ready for it.
pub proof fn lemma_sound_is_ready(m: InterpreterView, ast: AstView)
    requires
        sound(m, ast),
    ensures
        sound_below(m, ast),
        !(m.control is Exec) && !(m.control is Raise) ==> settled(m, ast),
        m.control matches ControlView::Exec(s, frame) ==> settled_but(m, ast, s, frame),
{
    if m.stack.len() > 0 {
        assert(progress(m, ast, m.stack.len() - 1));
    }
}

/// A sound machine without its innermost waiting construct.
pub proof fn lemma_pop_is_ready(m: InterpreterView, ast: AstView)
    requires
        sound(m, ast),
        m.stack.len() > 0,
    ensures
        sound_below(m.pop(), ast),
        kont_sound(ast, m.locals, m.env, m.stack.last()),
        match m.stack.last() {
            KontView::VarInit(s, frame) => settled_but(m.pop(), ast, s, frame),
            KontView::Superclass(s, frame) => settled_but(m.pop(), ast, s, frame),
            _ => settled(m.pop(), ast),
        },
{
    let p = m.pop();
    let n = m.stack.len() - 1;
    assert forall|j: int| 0 <= j < p.stack.len() implies kont_sound(
        ast,
        p.locals,
        p.env,
        #[trigger] p.stack[j],
    ) by {
        assert(p.stack[j] == m.stack[j]);
    }
    assert forall|j: int| 0 <= j < p.stack.len() - 1 implies #[trigger] progress(p, ast, j) by {
        assert(p.stack[j] == m.stack[j]);
        assert(p.stack[j + 1] == m.stack[j + 1]);
        assert(progress(m, ast, j));
    }
    if n > 0 {
        assert(p.stack[n - 1] == m.stack[n - 1]);
        assert(progress(m, ast, n - 1));
    }
}

/// The frame of every step: what was sound stays sound as the frames grow,
/// so a step has to answer only for what it changes.
pub proof fn lemma_rebuild(base: InterpreterView, ast: AstView, next: InterpreterView)
    requires
        sound_below(base, ast),
        next.locals == base.locals,
        grows(base.env, next.env),
        next.env.wf(),
        heap_ok(next, ast),
        next.stack.len() == base.stack.len() || next.stack.len() == base.stack.len() + 1,
        forall|j: int| 0 <= j < base.stack.len() ==> next.stack[j] == base.stack[j],
        next.stack.len() > base.stack.len() ==> kont_sound(
            ast,
            next.locals,
            next.env,
            next.stack[base.stack.len() as int],
        ) && progress(next, ast, base.stack.len() as int),
        base.stack.len() > 0 ==> progress(next, ast, base.stack.len() - 1),
        control_ok(next, ast),
    ensures
        sound(next, ast),
{
    assert forall|j: int| 0 <= j < next.stack.len() implies kont_sound(
        ast,
        next.locals,
        next.env,
        #[trigger] next.stack[j],
    ) by {
        if j < base.stack.len() {
            lemma_kont_grows(ast, base.locals, base.env, next.env, base.stack[j]);
        }
    }
    assert forall|j: int| 0 <= j < next.stack.len() implies #[trigger] progress(next, ast, j) by {
        if j < base.stack.len() - 1 {
            assert(progress(base, ast, j));
            assert(next.stack[j + 1] == base.stack[j + 1]);
            assert(under_way(next, ast, j) == under_way(base, ast, j));
            match under_way(base, ast, j) {
                Some((stmt, frame)) => {
                    if base.env.has(frame) {
                        assert(base.env.frames[frame as int].bindings.dom().subset_of(
                            next.env.frames[frame as int].bindings.dom(),
                        ));
                    }
                },
                None => {},
            }
        }
    }
}

/// Whatever the machine does next, a block whose statement has bound its
/// name stays in order.
pub proof fn lemma_settled_stays(base: InterpreterView, ast: AstView, next: InterpreterView)
    requires
        settled(base, ast),
        grows(base.env, next.env),
        base.stack.len() > 0,
        next.stack.len() >= base.stack.len(),
        next.stack[base.stack.len() - 1] == base.stack[base.stack.len() - 1],
    ensures
        progress(next, ast, base.stack.len() - 1),
{
    let j = base.stack.len() - 1;
    match under_way(base, ast, j) {
        Some((stmt, frame)) => {
            if base.env.has(frame) {
                assert(base.env.frames[frame as int].bindings.dom().subset_of(
                    next.env.frames[frame as int].bindings.dom(),
                ));
            }
        },
        None => {},
    }
}

/// In grown frames, what the heap held is still in order.
pub proof fn lemma_heap_kept(base: InterpreterView, ast: AstView, later: EnvView)
    requires
        heap_ok(base, ast),
        grows(base.env, later),
    ensures
        forall|f: int|
            0 <= f < base.env.frames.len() ==> values_ok(
                ast,
                base.locals,
                later,
                (#[trigger] base.env.frames[f]).bindings,
            ),
        forall|i: int|
            0 <= i < base.instances.len() ==> values_ok(
                ast,
                base.locals,
                later,
                (#[trigger] base.instances[i]).fields,
            ),
        forall|c: int|
            0 <= c < base.classes.len() ==> entries_ok(
                ast,
                base.locals,
                later,
                (#[trigger] base.classes[c]).methods,
            ),
{
    assert forall|f: int| 0 <= f < base.env.frames.len() implies values_ok(
        ast,
        base.locals,
        later,
        (#[trigger] base.env.frames[f]).bindings,
    ) by {
        lemma_values_grow(ast, base.locals, base.env, later, base.env.frames[f].bindings);
    }
    assert forall|i: int| 0 <= i < base.instances.len() implies values_ok(
        ast,
        base.locals,
        later,
        (#[trigger] base.instances[i]).fields,
    ) by {
        lemma_values_grow(ast, base.locals, base.env, later, base.instances[i].fields);
    }
    assert forall|c: int| 0 <= c < base.classes.len() implies entries_ok(
        ast,
        base.locals,
        later,
        (#[trigger] base.classes[c]).methods,
    ) by {
        lemma_entries_grow(ast, base.locals, base.env, later, base.classes[c].methods);
    }
}

/// Binding a value that is in order keeps the heap in order.
pub proof fn lemma_heap_define(
    base: InterpreterView,
    ast: AstView,
    frame: usize,
    name: Seq<char>,
    v: ObjectView,
)
    requires
        base.env.wf(),
        heap_ok(base, ast),
        base.env.has(frame),
        value_ok(ast, base.locals, base.env.define(frame, name, v), v),
    ensures
        heap_ok(InterpreterView { env: base.env.define(frame, name, v), ..base }, ast),
        grows(base.env, base.env.define(frame, name, v)),
        base.env.define(frame, name, v).wf(),
{
    let later = base.env.define(frame, name, v);
    let next = InterpreterView { env: later, ..base };
    lemma_define_grows(base.env, frame, name, v);
    lemma_heap_kept(base, ast, later);
    assert forall|f: int| 0 <= f < next.env.frames.len() implies values_ok(
        ast,
        next.locals,
        next.env,
        (#[trigger] next.env.frames[f]).bindings,
    ) by {
        assert(values_ok(ast, base.locals, later, base.env.frames[f].bindings));
        if f == frame {
            assert forall|n: Seq<char>| next.env.frames[f].bindings.contains_key(n) implies value_ok(
                ast,
                next.locals,
                next.env,
                #[trigger] next.env.frames[f].bindings[n],
            ) by {
                if n != name {
                    assert(base.env.frames[f].bindings.contains_key(n));
                    assert(next.env.frames[f].bindings[n] == base.env.frames[f].bindings[n]);
                }
            }
        } else {
            assert(next.env.frames[f] == base.env.frames[f]);
        }
    }
}

/// Making a frame keeps the heap in order.
pub proof fn lemma_heap_push(base: InterpreterView, ast: AstView, parent: usize)
    requires
        base.env.wf(),
        heap_ok(base, ast),
        base.env.has(parent),
        base.env.frames.len() < usize::MAX,
    ensures
        heap_ok(InterpreterView { env: base.env.push_frame(parent).0, ..base }, ast),
        grows(base.env, base.env.push_frame(parent).0),
        base.env.push_frame(parent).0.wf(),
{
    let later = base.env.push_frame(parent).0;
    let next = InterpreterView { env: later, ..base };
    lemma_push_grows(base.env, parent);
    lemma_heap_kept(base, ast, later);
    assert forall|f: int| 0 <= f < next.env.frames.len() implies values_ok(
        ast,
        next.locals,
        next.env,
        (#[trigger] next.env.frames[f]).bindings,
    ) by {
        if f < base.env.frames.len() {
            assert(values_ok(ast, base.locals, later, base.env.frames[f].bindings));
            assert(next.env.frames[f] == base.env.frames[f]);
        }
    }
}

/// The machine goes on to `control` with nothing else changed.
pub proof fn lemma_go(base: InterpreterView, ast: AstView, control: ControlView)
    requires
        sound_below(base, ast),
        control_ok(base.go(control).0, ast),
        settled(base, ast) || control is Raise,
    ensures
        sound(base.go(control).0, ast),
{
    let next = base.go(control).0;
    if base.stack.len() > 0 {
        if settled(base, ast) {
            lemma_settled_stays(base, ast, next);
        }
    }
    lemma_rebuild(base, ast, next);
}

/// The construct `k` is what the statement under way in the innermost
/// waiting block waits on to bind its name.
pub open spec fn takes_over(m: InterpreterView, ast: AstView, k: KontView) -> bool {
    m.stack.len() > 0 && match under_way(m, ast, m.stack.len() - 1) {
        Some((stmt, frame)) => k == KontView::VarInit(stmt, frame) || k == KontView::Superclass(
            stmt,
            frame,
        ),
        None => false,
    }
}

/// The machine goes on to `control` with `k` waiting for it.
pub proof fn lemma_push_go(base: InterpreterView, ast: AstView, k: KontView, control: ControlView)
    requires
        sound_below(base, ast),
        kont_sound(ast, base.locals, base.env, k),
        control_ok(base.push(k).go(control).0, ast),
        progress(base.push(k).go(control).0, ast, base.stack.len() as int),
        settled(base, ast) || takes_over(base, ast, k),
    ensures
        sound(base.push(k).go(control).0, ast),
{
    let next = base.push(k).go(control).0;
    if base.stack.len() > 0 {
        if settled(base, ast) {
            lemma_settled_stays(base, ast, next);
        } else {
            assert(under_way(next, ast, base.stack.len() - 1) == under_way(
                base,
                ast,
                base.stack.len() - 1,
            ));
        }
    }
    lemma_rebuild(base, ast, next);
}

} // verus!
