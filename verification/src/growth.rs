//! Soundness outlasts the growth of the syntax store.
//!
//! Between two statements the parser stores new nodes and the resolver
//! writes to the side table. Nothing that is stored changes by that, so a
//! machine that was sound stays sound if the table is left alone at the
//! nodes that were stored before.

use vstd::prelude::*;
use crate::ast::AstView;
use crate::env::EnvView;
use crate::error::ErrorView;
use crate::expr::ExprView;
use crate::footprint::{agree_on, same_at};
use crate::functions::Callable;
use crate::machine::{ControlView, KontView};
use crate::object::ObjectView;
use crate::scoping::{
    add_name, after, param_names, scopes_of, sound_expr, sound_exprs, sound_method, sound_methods,
    sound_opt, sound_stmt, sound_stmts, Scopes,
};
use crate::semantics::InterpreterView;
use crate::soundness::{entries_ok, entry_ok, kont_sound, progress, sound, value_ok, values_ok};
use crate::stmt::StmtView;

verus! {

/// The expression nodes that are in the store.
pub open spec fn stored(ast: AstView) -> Set<usize> {
    Set::new(|k: usize| k < ast.exprs.len())
}

pub proof fn lemma_sound_expr_extends(
    ast: AstView,
    more: AstView,
    a: Map<usize, usize>,
    b: Map<usize, usize>,
    e: usize,
    scopes: Scopes,
)
    requires
        more.extends(ast),
        agree_on(a, b, stored(ast)),
        sound_expr(ast, a, e, scopes),
    ensures
        sound_expr(more, b, e, scopes),
        e < ast.exprs.len(),
    decreases e, 1nat, 0nat,
{
    reveal(sound_expr);
    reveal(sound_exprs);
    assert(stored(ast).contains(e));
    assert(same_at(a, b, e));
    assert(more.exprs[e as int] == ast.exprs[e as int]);
    match ast.exprs[e as int] {
        ExprView::Identifier(_) => {},
        ExprView::This(_) => {},
        ExprView::Super(_, _) => {},
        _ => lemma_sound_exprs_extends(ast, more, a, b, e, ast.exprs[e as int].children(), 0, scopes),
    }
}

pub proof fn lemma_sound_exprs_extends(
    ast: AstView,
    more: AstView,
    a: Map<usize, usize>,
    b: Map<usize, usize>,
    parent: usize,
    list: Seq<usize>,
    i: nat,
    scopes: Scopes,
)
    requires
        more.extends(ast),
        agree_on(a, b, stored(ast)),
        sound_exprs(ast, a, parent, list, i, scopes),
    ensures
        sound_exprs(more, b, parent, list, i, scopes),
    decreases parent, 0nat, list.len() - i,
{
    reveal(sound_expr);
    reveal(sound_exprs);
    if i < list.len() {
        lemma_sound_expr_extends(ast, more, a, b, list[i as int], scopes);
        lemma_sound_exprs_extends(ast, more, a, b, parent, list, i + 1, scopes);
    }
}

pub proof fn lemma_sound_opt_extends(
    ast: AstView,
    more: AstView,
    a: Map<usize, usize>,
    b: Map<usize, usize>,
    e: Option<usize>,
    scopes: Scopes,
)
    requires
        more.extends(ast),
        agree_on(a, b, stored(ast)),
        sound_opt(ast, a, e, scopes),
    ensures
        sound_opt(more, b, e, scopes),
{
    match e {
        Some(e) => lemma_sound_expr_extends(ast, more, a, b, e, scopes),
        None => {},
    }
}

pub proof fn lemma_sound_stmt_extends(
    ast: AstView,
    more: AstView,
    a: Map<usize, usize>,
    b: Map<usize, usize>,
    s: usize,
    scopes: Scopes,
)
    requires
        more.extends(ast),
        agree_on(a, b, stored(ast)),
        sound_stmt(ast, a, s, scopes),
    ensures
        sound_stmt(more, b, s, scopes),
        s < ast.stmts.len(),
    decreases s, 1nat, 0nat,
{
    reveal(sound_stmt);
    reveal(sound_stmts);
    reveal(sound_methods);
    assert(more.stmts[s as int] == ast.stmts[s as int]);
    match ast.stmts[s as int] {
        StmtView::Expression(e) => lemma_sound_expr_extends(ast, more, a, b, e, scopes),
        StmtView::Print(e) => lemma_sound_expr_extends(ast, more, a, b, e, scopes),
        StmtView::Declaration(_, init) => lemma_sound_opt_extends(ast, more, a, b, init, scopes),
        StmtView::Block(body) => lemma_sound_stmts_extends(
            ast,
            more,
            a,
            b,
            s,
            body,
            0,
            scopes.push(Set::empty()),
        ),
        StmtView::If(cond, then_stmt, else_stmt) => {
            lemma_sound_expr_extends(ast, more, a, b, cond, scopes);
            lemma_sound_stmt_extends(ast, more, a, b, then_stmt, scopes);
            if let Some(else_stmt) = else_stmt {
                lemma_sound_stmt_extends(ast, more, a, b, else_stmt, scopes);
            }
        },
        StmtView::While(cond, body) => {
            lemma_sound_expr_extends(ast, more, a, b, cond, scopes);
            lemma_sound_stmt_extends(ast, more, a, b, body, scopes);
        },
        StmtView::Break(_) => {},
        StmtView::Function(name, params, body) => lemma_sound_stmt_extends(
            ast,
            more,
            a,
            b,
            body,
            add_name(scopes, name.lexeme).push(param_names(params)),
        ),
        StmtView::Return(_, val) => lemma_sound_opt_extends(ast, more, a, b, val, scopes),
        StmtView::Class(name, parent, methods) => {
            let outer = add_name(scopes, name.lexeme);
            match parent {
                Some(p) => {
                    lemma_sound_expr_extends(ast, more, a, b, p, scopes);
                    lemma_sound_methods_extends(
                        ast,
                        more,
                        a,
                        b,
                        s,
                        methods,
                        0,
                        outer.push(set!["super"@]).push(set!["this"@]),
                    );
                },
                None => lemma_sound_methods_extends(
                    ast,
                    more,
                    a,
                    b,
                    s,
                    methods,
                    0,
                    outer.push(set!["this"@]),
                ),
            }
        },
    }
}

pub proof fn lemma_sound_stmts_extends(
    ast: AstView,
    more: AstView,
    a: Map<usize, usize>,
    b: Map<usize, usize>,
    parent: usize,
    list: Seq<usize>,
    i: nat,
    scopes: Scopes,
)
    requires
        more.extends(ast),
        agree_on(a, b, stored(ast)),
        sound_stmts(ast, a, parent, list, i, scopes),
    ensures
        sound_stmts(more, b, parent, list, i, scopes),
    decreases parent, 0nat, list.len() - i,
{
    reveal(sound_stmt);
    reveal(sound_stmts);
    reveal(sound_methods);
    if i < list.len() {
        let c = list[i as int];
        lemma_sound_stmt_extends(ast, more, a, b, c, scopes);
        assert(more.stmts[c as int] == ast.stmts[c as int]);
        assert(after(more, scopes, c) == after(ast, scopes, c));
        lemma_sound_stmts_extends(ast, more, a, b, parent, list, i + 1, after(ast, scopes, c));
    }
}

pub proof fn lemma_sound_method_extends(
    ast: AstView,
    more: AstView,
    a: Map<usize, usize>,
    b: Map<usize, usize>,
    parent: usize,
    m: usize,
    scopes: Scopes,
)
    requires
        more.extends(ast),
        agree_on(a, b, stored(ast)),
        sound_method(ast, a, parent, m, scopes),
    ensures
        sound_method(more, b, parent, m, scopes),
    decreases parent, 0nat, 0nat,
{
    reveal(sound_stmt);
    reveal(sound_stmts);
    reveal(sound_methods);
    assert(m < ast.stmts.len());
    assert(more.stmts[m as int] == ast.stmts[m as int]);
    match ast.stmts[m as int] {
        StmtView::Function(_, params, body) => {
            lemma_sound_stmt_extends(ast, more, a, b, body, scopes.push(param_names(params)));
        },
        _ => {},
    }
}

pub proof fn lemma_sound_methods_extends(
    ast: AstView,
    more: AstView,
    a: Map<usize, usize>,
    b: Map<usize, usize>,
    parent: usize,
    list: Seq<usize>,
    i: nat,
    scopes: Scopes,
)
    requires
        more.extends(ast),
        agree_on(a, b, stored(ast)),
        sound_methods(ast, a, parent, list, i, scopes),
    ensures
        sound_methods(more, b, parent, list, i, scopes),
    decreases parent, 0nat, list.len() - i,
{
    reveal(sound_stmt);
    reveal(sound_stmts);
    reveal(sound_methods);
    if i < list.len() {
        lemma_sound_method_extends(ast, more, a, b, parent, list[i as int], scopes);
        lemma_sound_methods_extends(ast, more, a, b, parent, list, i + 1, scopes);
    }
}

pub proof fn lemma_value_extends(
    ast: AstView,
    more: AstView,
    a: Map<usize, usize>,
    b: Map<usize, usize>,
    env: EnvView,
    v: ObjectView,
)
    requires
        more.extends(ast),
        agree_on(a, b, stored(ast)),
        value_ok(ast, a, env, v),
    ensures
        value_ok(more, b, env, v),
{
    match v {
        ObjectView::Func(Callable::Runtime(f)) => {
            assert(more.stmts[f.decl as int] == ast.stmts[f.decl as int]);
            match ast.stmts[f.decl as int] {
                StmtView::Function(_, params, body) => lemma_sound_stmt_extends(
                    ast,
                    more,
                    a,
                    b,
                    body,
                    scopes_of(env, f.closure).push(param_names(params)),
                ),
                _ => {},
            }
        },
        _ => {},
    }
}

pub proof fn lemma_values_extend(
    ast: AstView,
    more: AstView,
    a: Map<usize, usize>,
    b: Map<usize, usize>,
    env: EnvView,
    table: Map<Seq<char>, ObjectView>,
)
    requires
        more.extends(ast),
        agree_on(a, b, stored(ast)),
        values_ok(ast, a, env, table),
    ensures
        values_ok(more, b, env, table),
{
    assert forall|n: Seq<char>| table.contains_key(n) implies value_ok(
        more,
        b,
        env,
        #[trigger] table[n],
    ) by {
        lemma_value_extends(ast, more, a, b, env, table[n]);
    }
}

pub proof fn lemma_entries_extend(
    ast: AstView,
    more: AstView,
    a: Map<usize, usize>,
    b: Map<usize, usize>,
    env: EnvView,
    table: Map<Seq<char>, ObjectView>,
)
    requires
        more.extends(ast),
        agree_on(a, b, stored(ast)),
        entries_ok(ast, a, env, table),
    ensures
        entries_ok(more, b, env, table),
{
    assert forall|n: Seq<char>| table.contains_key(n) implies entry_ok(
        more,
        b,
        env,
        #[trigger] table[n],
    ) by {
        match table[n] {
            ObjectView::Func(Callable::Runtime(f)) => {
                assert(more.stmts[f.decl as int] == ast.stmts[f.decl as int]);
                match ast.stmts[f.decl as int] {
                    StmtView::Function(_, params, body) => lemma_sound_stmt_extends(
                        ast,
                        more,
                        a,
                        b,
                        body,
                        scopes_of(env, f.closure).push(set!["this"@]).push(param_names(params)),
                    ),
                    _ => {},
                }
            },
            _ => {},
        }
    }
}

pub proof fn lemma_kont_extends(
    ast: AstView,
    more: AstView,
    a: Map<usize, usize>,
    b: Map<usize, usize>,
    env: EnvView,
    k: KontView,
)
    requires
        more.extends(ast),
        agree_on(a, b, stored(ast)),
        kont_sound(ast, a, env, k),
    ensures
        kont_sound(more, b, env, k),
{
    reveal(sound_stmt);
    reveal(sound_expr);
    match k {
        KontView::BinaryLeft(e, frame) => lemma_sound_expr_extends(ast, more, a, b, e, scopes_of(env, frame)),
        KontView::Logical(e, frame) => lemma_sound_expr_extends(ast, more, a, b, e, scopes_of(env, frame)),
        KontView::Assign(e, frame) => lemma_sound_expr_extends(ast, more, a, b, e, scopes_of(env, frame)),
        KontView::Callee(e, frame) => lemma_sound_expr_extends(ast, more, a, b, e, scopes_of(env, frame)),
        KontView::SetObject(e, frame) => lemma_sound_expr_extends(ast, more, a, b, e, scopes_of(env, frame)),
        KontView::Args(e, frame, callee, done) => {
            lemma_sound_expr_extends(ast, more, a, b, e, scopes_of(env, frame));
            lemma_value_extends(ast, more, a, b, env, callee);
            assert forall|j: int| 0 <= j < done.len() implies value_ok(more, b, env, #[trigger] done[j]) by {
                lemma_value_extends(ast, more, a, b, env, done[j]);
            }
        },
        KontView::BinaryRight(_, lhs) => lemma_value_extends(ast, more, a, b, env, lhs),
        KontView::IfCond(s, frame) => lemma_sound_stmt_extends(ast, more, a, b, s, scopes_of(env, frame)),
        KontView::WhileCond(s, frame) => lemma_sound_stmt_extends(ast, more, a, b, s, scopes_of(env, frame)),
        KontView::WhileBody(s, frame) => lemma_sound_stmt_extends(ast, more, a, b, s, scopes_of(env, frame)),
        KontView::Superclass(s, frame) => {
            lemma_sound_stmt_extends(ast, more, a, b, s, scopes_of(env, frame));
            assert(more.stmts[s as int] == ast.stmts[s as int]);
        },
        KontView::Block(s, next, frame) => {
            assert(more.stmts[s as int] == ast.stmts[s as int]);
            match ast.stmts[s as int] {
                StmtView::Block(body) => {
                    if next == 0 {
                        lemma_sound_stmts_extends(ast, more, a, b, s, body, 0, scopes_of(env, frame));
                    } else if next - 1 < body.len() {
                        let c = body[next - 1];
                        assert(more.stmts[c as int] == ast.stmts[c as int]);
                        assert(after(more, scopes_of(env, frame), c) == after(
                            ast,
                            scopes_of(env, frame),
                            c,
                        ));
                        lemma_sound_stmts_extends(
                            ast,
                            more,
                            a,
                            b,
                            s,
                            body,
                            next as nat,
                            after(ast, scopes_of(env, frame), c),
                        );
                    }
                },
                _ => {},
            }
        },
        _ => {},
    }
}

/// A sound machine stays sound when nodes are added to the syntax store
/// and the side table is changed at none of the nodes that were stored
/// before.
pub proof fn law_sound_with_more_syntax(
    m: InterpreterView,
    ast: AstView,
    more: AstView,
    locals: Map<usize, usize>,
)
    requires
        sound(m, ast),
        more.extends(ast),
        agree_on(m.locals, locals, stored(ast)),
    ensures
        sound(InterpreterView { locals, ..m }, more),
{
    let next = InterpreterView { locals, ..m };
    assert forall|f: int| 0 <= f < next.env.frames.len() implies values_ok(
        more,
        next.locals,
        next.env,
        (#[trigger] next.env.frames[f]).bindings,
    ) by {
        assert(values_ok(ast, m.locals, m.env, m.env.frames[f].bindings));
        lemma_values_extend(ast, more, m.locals, locals, m.env, m.env.frames[f].bindings);
    }
    assert forall|i: int| 0 <= i < next.instances.len() implies values_ok(
        more,
        next.locals,
        next.env,
        (#[trigger] next.instances[i]).fields,
    ) by {
        assert(values_ok(ast, m.locals, m.env, m.instances[i].fields));
        lemma_values_extend(ast, more, m.locals, locals, m.env, m.instances[i].fields);
    }
    assert forall|c: int| 0 <= c < next.classes.len() implies entries_ok(
        more,
        next.locals,
        next.env,
        (#[trigger] next.classes[c]).methods,
    ) by {
        assert(entries_ok(ast, m.locals, m.env, m.classes[c].methods));
        lemma_entries_extend(ast, more, m.locals, locals, m.env, m.classes[c].methods);
    }
    assert forall|j: int| 0 <= j < next.stack.len() implies kont_sound(
        more,
        next.locals,
        next.env,
        #[trigger] next.stack[j],
    ) by {
        lemma_kont_extends(ast, more, m.locals, locals, m.env, m.stack[j]);
    }
    assert forall|j: int| 0 <= j < next.stack.len() implies #[trigger] progress(next, more, j) by {
        assert(progress(m, ast, j));
        assert(kont_sound(ast, m.locals, m.env, m.stack[j]));
        match m.stack[j] {
            KontView::Block(s, n, frame) => {
                assert(more.stmts[s as int] == ast.stmts[s as int]);
                match ast.stmts[s as int] {
                    StmtView::Block(body) => {
                        if n >= 1 && n - 1 < body.len() {
                            let c = body[n - 1];
                            assert(more.stmts[c as int] == ast.stmts[c as int]);
                        }
                    },
                    _ => {},
                }
            },
            _ => {},
        }
    }
    match m.control {
        ControlView::Eval(e, frame) => lemma_sound_expr_extends(
            ast,
            more,
            m.locals,
            locals,
            e,
            scopes_of(m.env, frame),
        ),
        ControlView::Exec(s, frame) => lemma_sound_stmt_extends(
            ast,
            more,
            m.locals,
            locals,
            s,
            scopes_of(m.env, frame),
        ),
        ControlView::Value(v) => lemma_value_extends(ast, more, m.locals, locals, m.env, v),
        ControlView::Raise(ErrorView::Return(_, v)) => lemma_value_extends(
            ast,
            more,
            m.locals,
            locals,
            m.env,
            v,
        ),
        _ => {},
    }
}

} // verus!
