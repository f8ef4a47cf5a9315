//! A step keeps a sound machine sound: the proof, one kind of step at a
//! time.

use vstd::prelude::*;
use crate::ast::AstView;
use crate::class::{find_method, InstanceView};
use crate::env::{lemma_ancestor, lemma_root, EnvView};
use crate::error::ErrorView;
use crate::expr::ExprView;
use crate::functions::{Callable, ClassInit, LoxFunction};
use crate::machine::{ControlView, KontView};
use crate::object::ObjectView;
use crate::scoping::{
    add_name, after, covers, declared, grows, lemma_covers_add, lemma_covers_push,
    lemma_covers_refl, lemma_covers_trans, lemma_scopes_grow, lemma_sound_stmt_mono,
    lemma_sound_stmts_mono, param_names, scopes_of, sound_expr, sound_exprs, sound_method,
    sound_methods, sound_stmt, sound_stmts, Scopes,
};
use crate::semantics::{
    binary_op, bind_params, method_of, method_table, this_token, unary_op, InterpreterView, GLOBAL,
};
use crate::soundness::{
    control_ok, entries_ok, entry_ok, fits, fun_ok, heap_ok, kont_sound,
    lemma_bound_name_is_in_scope, lemma_define_adds, lemma_define_grows, lemma_fun_grows, lemma_go,
    lemma_grows_trans, lemma_heap_define, lemma_heap_push, lemma_kont_grows, lemma_method_grows,
    lemma_pop_is_ready, lemma_push_go, lemma_push_grows, lemma_rebuild, lemma_scopes_unfold,
    lemma_settled_stays, lemma_value_grows, method_ok, node_sound, progress, settled, settled_but,
    sound, sound_below, stmt_sound, under_way, value_ok, values_ok,
};
use crate::stmt::StmtView;
use crate::tokens::TokenView;

verus! {

/// A table that is sound for operands from the `i`-th on is sound for each
/// of them.
pub proof fn lemma_operand_sound(
    ast: AstView,
    locals: Map<usize, usize>,
    parent: usize,
    list: Seq<usize>,
    i: nat,
    k: int,
    scopes: Scopes,
)
    requires
        sound_exprs(ast, locals, parent, list, i, scopes),
        i <= k < list.len(),
    ensures
        sound_expr(ast, locals, list[k], scopes),
    decreases list.len() - i,
{
    reveal(sound_expr);
    reveal(sound_exprs);
    if i < k {
        lemma_operand_sound(ast, locals, parent, list, i + 1, k, scopes);
    }
}

/// A table that is sound for an expression is sound for each of its
/// operands.
pub proof fn lemma_child_sound(
    ast: AstView,
    locals: Map<usize, usize>,
    env: EnvView,
    e: usize,
    frame: usize,
    k: int,
)
    requires
        node_sound(ast, locals, env, e, frame),
        e < ast.exprs.len(),
        0 <= k < ast.exprs[e as int].children().len(),
    ensures
        node_sound(ast, locals, env, ast.exprs[e as int].children()[k], frame),
{
    reveal(sound_expr);
    reveal(sound_exprs);
    lemma_operand_sound(
        ast,
        locals,
        e,
        ast.exprs[e as int].children(),
        0,
        k,
        scopes_of(env, frame),
    );
}

/// What is read from a frame of a sound machine is in order.
pub proof fn lemma_get_at_ok(
    base: InterpreterView,
    ast: AstView,
    frame: usize,
    id: TokenView,
    dist: Option<usize>,
)
    requires
        base.env.wf(),
        heap_ok(base, ast),
        base.env.has(frame),
    ensures
        base.env.get_at(frame, id, dist) matches Ok(v) ==> value_ok(ast, base.locals, base.env, v),
        base.env.target(frame, dist) matches Some(f) ==> base.env.has(f),
{
    match dist {
        None => lemma_root(base.env, frame),
        Some(d) => lemma_ancestor(base.env, frame, d as nat),
    }
    match base.env.target(frame, dist) {
        Some(f) => {
            assert(values_ok(ast, base.locals, base.env, base.env.frames[f as int].bindings));
        },
        None => {},
    }
}

pub proof fn lemma_lookup_var(
    base: InterpreterView,
    ast: AstView,
    expr: usize,
    id: TokenView,
    frame: usize,
)
    requires
        sound_below(base, ast),
        settled(base, ast),
        base.env.has(frame),
    ensures
        sound(base.lookup_var(expr, id, frame).0, ast),
{
    lemma_get_at_ok(base, ast, frame, id, base.depth(expr));
    match base.env.get_at(frame, id, base.depth(expr)) {
        Ok(v) => lemma_go(base, ast, ControlView::Value(v)),
        Err(e) => lemma_go(base, ast, ControlView::Raise(e)),
    }
}

pub proof fn lemma_visit_literal(base: InterpreterView, ast: AstView, lit: TokenView)
    requires
        sound_below(base, ast),
        settled(base, ast),
    ensures
        sound(base.visit_literal(lit).0, ast),
{
    lemma_go(base, ast, base.visit_literal(lit).0.control);
}

pub proof fn lemma_visit_logical(
    base: InterpreterView,
    ast: AstView,
    e: usize,
    frame: usize,
    lhs: ObjectView,
)
    requires
        sound_below(base, ast),
        settled(base, ast),
        e < ast.exprs.len(),
        node_sound(ast, base.locals, base.env, e, frame),
        value_ok(ast, base.locals, base.env, lhs),
    ensures
        sound(base.visit_logical(ast, e, frame, lhs).0, ast),
{
    match ast.exprs[e as int] {
        ExprView::Logical(_, op, rhs) => {
            lemma_child_sound(ast, base.locals, base.env, e, frame, 1);
        },
        _ => {},
    }
    lemma_go(base, ast, base.visit_logical(ast, e, frame, lhs).0.control);
}

pub proof fn lemma_visit_assignment(
    base: InterpreterView,
    ast: AstView,
    e: usize,
    frame: usize,
    v: ObjectView,
)
    requires
        sound_below(base, ast),
        settled(base, ast),
        e < ast.exprs.len(),
        base.env.has(frame),
        value_ok(ast, base.locals, base.env, v),
    ensures
        sound(base.visit_assignment(ast, e, frame, v).0, ast),
{
    match ast.exprs[e as int] {
        ExprView::Assignment(id, _) => {
            let (env2, res) = base.env.assign_at(frame, id, v, base.depth(e));
            lemma_get_at_ok(base, ast, frame, id, base.depth(e));
            match res {
                Ok(_) => {
                    let f = base.env.target(frame, base.depth(e))->0;
                    lemma_define_grows(base.env, f, id.lexeme, v);
                    lemma_value_grows(ast, base.locals, base.env, env2, v);
                    lemma_heap_define(base, ast, f, id.lexeme, v);
                    let mid = InterpreterView { env: env2, ..base };
                    let next = mid.deliver(v).0;
                    if base.stack.len() > 0 {
                        lemma_settled_stays(base, ast, next);
                    }
                    lemma_rebuild(base, ast, next);
                },
                Err(err) => lemma_go(base, ast, ControlView::Raise(err)),
            }
        },
        _ => lemma_go(base, ast, base.fault().0.control),
    }
}

pub proof fn lemma_operators(op: TokenView, lhs: ObjectView, rhs: ObjectView, base: InterpreterView, ast: AstView)
    ensures
        control_ok(InterpreterView { control: unary_op(op, rhs), ..base }, ast),
        control_ok(InterpreterView { control: binary_op(op, lhs, rhs).0, ..base }, ast),
{
}

/// The first step of evaluating an expression.
pub proof fn lemma_eval(base: InterpreterView, ast: AstView, e: usize, frame: usize)
    requires
        sound_below(base, ast),
        settled(base, ast),
        node_sound(ast, base.locals, base.env, e, frame),
        fits(base),
    ensures
        sound(base.eval(ast, e, frame).0, ast),
{
    if e >= ast.exprs.len() || !base.env.has(frame) {
        lemma_go(base, ast, base.fault().0.control);
    } else {
        let node = ast.exprs[e as int];
        match node {
            ExprView::Literal(lit) => lemma_visit_literal(base, ast, lit),
            ExprView::Identifier(id) => lemma_lookup_var(base, ast, e, id, frame),
            ExprView::This(token) => lemma_lookup_var(base, ast, e, token, frame),
            ExprView::Grouping(inner) => {
                lemma_child_sound(ast, base.locals, base.env, e, frame, 0);
                lemma_go(base, ast, ControlView::Eval(inner, frame));
            },
            ExprView::Unary(_, rhs) => {
                lemma_child_sound(ast, base.locals, base.env, e, frame, 0);
                lemma_push_go(base, ast, KontView::Unary(e), ControlView::Eval(rhs, frame));
            },
            ExprView::Binary(lhs, _, _) => {
                lemma_child_sound(ast, base.locals, base.env, e, frame, 0);
                lemma_push_go(base, ast, KontView::BinaryLeft(e, frame), ControlView::Eval(lhs, frame));
            },
            ExprView::Logical(lhs, _, _) => {
                lemma_child_sound(ast, base.locals, base.env, e, frame, 0);
                lemma_push_go(base, ast, KontView::Logical(e, frame), ControlView::Eval(lhs, frame));
            },
            ExprView::Assignment(_, val) => {
                lemma_child_sound(ast, base.locals, base.env, e, frame, 0);
                lemma_push_go(base, ast, KontView::Assign(e, frame), ControlView::Eval(val, frame));
            },
            ExprView::Call(callee, _, _) => {
                lemma_child_sound(ast, base.locals, base.env, e, frame, 0);
                lemma_push_go(base, ast, KontView::Callee(e, frame), ControlView::Eval(callee, frame));
            },
            ExprView::Get(object, _) => {
                lemma_child_sound(ast, base.locals, base.env, e, frame, 0);
                lemma_push_go(base, ast, KontView::Get(e), ControlView::Eval(object, frame));
            },
            ExprView::SetField(object, _, _) => {
                lemma_child_sound(ast, base.locals, base.env, e, frame, 0);
                lemma_push_go(
                    base,
                    ast,
                    KontView::SetObject(e, frame),
                    ControlView::Eval(object, frame),
                );
            },
            ExprView::Super(keyword, method) => lemma_visit_super(
                base,
                ast,
                e,
                keyword,
                method,
                frame,
            ),
        }
    }
}

/// A method that a class offers is in order.
pub proof fn lemma_find_method_ok(base: InterpreterView, ast: AstView, class: usize, name: Seq<char>)
    requires
        heap_ok(base, ast),
    ensures
        find_method(base.classes, class, name) matches Some(f) ==> method_ok(
            ast,
            base.locals,
            base.env,
            f,
        ),
    decreases class,
{
    if class < base.classes.len() {
        let c = base.classes[class as int];
        assert(entries_ok(ast, base.locals, base.env, c.methods));
        if c.methods.contains_key(name) {
            assert(entry_ok(ast, base.locals, base.env, c.methods[name]));
        } else {
            match c.parent {
                Some(p) => {
                    if p < class {
                        lemma_find_method_ok(base, ast, p, name);
                    }
                },
                None => {},
            }
        }
    }
}

/// Binding a method that is in order to an instance gives a function that
/// is in order, and keeps the machine in order.
pub proof fn lemma_bind(base: InterpreterView, ast: AstView, f: LoxFunction, instance: usize)
    requires
        sound_below(base, ast),
        method_ok(ast, base.locals, base.env, f),
        base.env.frames.len() < usize::MAX,
    ensures
        sound_below(base.bind(f, instance).0, ast),
        grows(base.env, base.bind(f, instance).0.env),
        base.bind(f, instance).0.env.frames.len() == base.env.frames.len() + 1,
        fun_ok(ast, base.locals, base.bind(f, instance).0.env, base.bind(f, instance).1),
        base.bind(f, instance).0 == (InterpreterView { env: base.bind(f, instance).0.env, ..base }),
        base.bind(f, instance).1.decl == f.decl,
        base.bind(f, instance).1.is_initializer == f.is_initializer,
        base.bind(f, instance).1.closure == base.env.frames.len(),
        base.bind(f, instance).0.env.frames[base.env.frames.len() as int].bindings.contains_key(
            "this"@,
        ),
        base.bind(f, instance).0.env.frames[base.env.frames.len() as int].bindings["this"@]
            == ObjectView::Instance(instance),
{
    let (env1, frame) = base.env.push_frame(f.closure);
    let mid = InterpreterView { env: env1, ..base };
    lemma_heap_push(base, ast, f.closure);
    lemma_push_grows(base.env, f.closure);
    let env2 = env1.define(frame, "this"@, ObjectView::Instance(instance));
    lemma_heap_define(mid, ast, frame, "this"@, ObjectView::Instance(instance));
    lemma_define_grows(env1, frame, "this"@, ObjectView::Instance(instance));
    lemma_grows_trans(base.env, env1, env2);
    let next = base.bind(f, instance).0;
    let bound = base.bind(f, instance).1;
    assert forall|j: int| 0 <= j < next.stack.len() implies kont_sound(
        ast,
        next.locals,
        next.env,
        #[trigger] next.stack[j],
    ) by {
        lemma_kont_grows(ast, base.locals, base.env, next.env, base.stack[j]);
    }
    assert forall|j: int| 0 <= j < next.stack.len() - 1 implies #[trigger] progress(next, ast, j) by {
        assert(progress(base, ast, j));
        match under_way(base, ast, j) {
            Some((stmt, fr)) => {
                if base.env.has(fr) {
                    assert(base.env.frames[fr as int].bindings.dom().subset_of(
                        next.env.frames[fr as int].bindings.dom(),
                    ));
                }
            },
            None => {},
        }
    }
    // the bound function
    lemma_method_grows(ast, base.locals, base.env, env2, f);
    lemma_scopes_unfold(env2, frame);
    if f.decl < ast.stmts.len() {
        match ast.stmts[f.decl as int] {
            StmtView::Function(_, params, body) => {
                let outer = scopes_of(env2, f.closure);
                lemma_covers_refl(outer);
                lemma_covers_push(outer, outer, env2.frames[frame as int].bindings.dom(), set!["this"@]);
                lemma_covers_push(
                    outer.push(env2.frames[frame as int].bindings.dom()),
                    outer.push(set!["this"@]),
                    param_names(params),
                    param_names(params),
                );
                lemma_sound_stmt_mono(
                    ast,
                    base.locals,
                    body,
                    outer.push(set!["this"@]).push(param_names(params)),
                    scopes_of(env2, frame).push(param_names(params)),
                );
            },
            _ => {},
        }
    }
}

pub proof fn lemma_visit_super(
    base: InterpreterView,
    ast: AstView,
    expr: usize,
    keyword: TokenView,
    method: TokenView,
    frame: usize,
)
    requires
        sound_below(base, ast),
        settled(base, ast),
        base.env.has(frame),
        fits(base),
    ensures
        sound(base.visit_super(expr, keyword, method, frame).0, ast),
{
    let depth = base.depth(expr);
    let result = base.visit_super(expr, keyword, method, frame).0;
    match base.env.get_at(frame, keyword, depth) {
        Ok(ObjectView::Class(class)) => match depth {
            Some(d) => {
                if d != 0 {
                    match base.env.get_at(frame, this_token(keyword), Some((d - 1) as usize)) {
                        Ok(ObjectView::Instance(instance)) => {
                            lemma_find_method_ok(base, ast, class, method.lexeme);
                            match find_method(base.classes, class, method.lexeme) {
                                Some(f) => {
                                    if base.env.has(f.closure) {
                                        lemma_delivers_bound(base, ast, f, instance);
                                    } else {
                                        lemma_go(base, ast, result.control);
                                    }
                                },
                                None => lemma_go(base, ast, result.control),
                            }
                        },
                        _ => lemma_go(base, ast, result.control),
                    }
                } else {
                    lemma_go(base, ast, result.control);
                }
            },
            None => lemma_go(base, ast, result.control),
        },
        _ => lemma_go(base, ast, result.control),
    }
}

/// Handing on a method bound to an instance.
pub proof fn lemma_delivers_bound(base: InterpreterView, ast: AstView, f: LoxFunction, instance: usize)
    requires
        sound_below(base, ast),
        settled(base, ast),
        method_ok(ast, base.locals, base.env, f),
        base.env.frames.len() < usize::MAX,
    ensures
        sound(
            base.bind(f, instance).0.deliver(
                ObjectView::Func(Callable::Runtime(base.bind(f, instance).1)),
            ).0,
            ast,
        ),
{
    lemma_bind(base, ast, f, instance);
    let (mid, bound) = base.bind(f, instance);
    let next = mid.deliver(ObjectView::Func(Callable::Runtime(bound))).0;
    if base.stack.len() > 0 {
        lemma_settled_stays(base, ast, next);
    }
    lemma_rebuild(base, ast, next);
}


/// As the frames grow, a block whose statement has bound its name stays so.
pub proof fn lemma_settled_grows(base: InterpreterView, ast: AstView, later: InterpreterView)
    requires
        settled(base, ast),
        grows(base.env, later.env),
        later.stack == base.stack,
    ensures
        settled(later, ast),
{
    if base.stack.len() > 0 {
        match under_way(base, ast, base.stack.len() - 1) {
            Some((stmt, frame)) => {
                if base.env.has(frame) {
                    assert(base.env.frames[frame as int].bindings.dom().subset_of(
                        later.env.frames[frame as int].bindings.dom(),
                    ));
                }
            },
            None => {},
        }
    }
}

/// Binding the parameters keeps the heap in order and binds every
/// parameter that has an argument.
pub proof fn lemma_bind_params_ok(
    base: InterpreterView,
    ast: AstView,
    frame: usize,
    params: Seq<TokenView>,
    args: Seq<ObjectView>,
    i: nat,
)
    requires
        base.env.wf(),
        heap_ok(base, ast),
        base.env.has(frame),
        params.len() == args.len(),
        forall|k: int| 0 <= k < args.len() ==> value_ok(ast, base.locals, base.env, #[trigger] args[k]),
    ensures
        ({
            let later = bind_params(base.env, frame, params, args, i);
            &&& grows(base.env, later)
            &&& later.wf()
            &&& later.frames.len() == base.env.frames.len()
            &&& heap_ok(InterpreterView { env: later, ..base }, ast)
            &&& forall|k: int|
                i <= k < params.len() ==> later.frames[frame as int].bindings.contains_key(
                    #[trigger] params[k].lexeme,
                )
        }),
    decreases params.len() - i,
{
    if i < params.len() {
        let name = params[i as int].lexeme;
        let v = args[i as int];
        let env1 = base.env.define(frame, name, v);
        let mid = InterpreterView { env: env1, ..base };
        lemma_define_grows(base.env, frame, name, v);
        lemma_value_grows(ast, base.locals, base.env, env1, v);
        lemma_heap_define(base, ast, frame, name, v);
        assert forall|k: int| 0 <= k < args.len() implies value_ok(
            ast,
            mid.locals,
            mid.env,
            #[trigger] args[k],
        ) by {
            lemma_value_grows(ast, base.locals, base.env, env1, args[k]);
        }
        lemma_bind_params_ok(mid, ast, frame, params, args, i + 1);
        let later = bind_params(base.env, frame, params, args, i);
        lemma_grows_trans(base.env, env1, later);
        assert(env1.frames[frame as int].bindings.dom().subset_of(
            later.frames[frame as int].bindings.dom(),
        ));
    }
}

pub proof fn lemma_call_function(
    base: InterpreterView,
    ast: AstView,
    f: LoxFunction,
    paren: TokenView,
    args: Seq<ObjectView>,
)
    requires
        sound_below(base, ast),
        settled(base, ast),
        fun_ok(ast, base.locals, base.env, f),
        forall|k: int| 0 <= k < args.len() ==> value_ok(ast, base.locals, base.env, #[trigger] args[k]),
        base.env.frames.len() < usize::MAX,
    ensures
        sound(base.call_function(ast, f, paren, args).0, ast),
{
    let result = base.call_function(ast, f, paren, args).0;
    if f.decl >= ast.stmts.len() || !base.env.has(f.closure) {
        lemma_go(base, ast, result.control);
    } else {
        match ast.stmts[f.decl as int] {
            StmtView::Function(_, params, body) => {
                if params.len() != args.len() {
                    lemma_go(base, ast, result.control);
                } else {
                    let (env1, frame) = base.env.push_frame(f.closure);
                    let mid = InterpreterView { env: env1, ..base };
                    lemma_heap_push(base, ast, f.closure);
                    lemma_push_grows(base.env, f.closure);
                    assert forall|k: int| 0 <= k < args.len() implies value_ok(
                        ast,
                        mid.locals,
                        mid.env,
                        #[trigger] args[k],
                    ) by {
                        lemma_value_grows(ast, base.locals, base.env, env1, args[k]);
                    }
                    lemma_bind_params_ok(mid, ast, frame, params, args, 0);
                    let env2 = bind_params(env1, frame, params, args, 0);
                    lemma_grows_trans(base.env, env1, env2);
                    // the body in its frame
                    lemma_fun_grows(ast, base.locals, base.env, env2, f);
                    lemma_scopes_unfold(env2, frame);
                    assert(env2.frames[frame as int].parent == env1.frames[frame as int].parent);
                    let outer = scopes_of(env2, f.closure);
                    assert(param_names(params).subset_of(env2.frames[frame as int].bindings.dom())) by {
                        assert forall|n: Seq<char>| param_names(params).contains(n) implies env2.frames[frame as int].bindings.dom().contains(
                            n,
                        ) by {
                            let k = choose|k: int| 0 <= k < params.len() && #[trigger] params[k].lexeme == n;
                            assert(env2.frames[frame as int].bindings.contains_key(params[k].lexeme));
                        }
                    }
                    lemma_covers_refl(outer);
                    lemma_covers_push(
                        outer,
                        outer,
                        env2.frames[frame as int].bindings.dom(),
                        param_names(params),
                    );
                    lemma_sound_stmt_mono(
                        ast,
                        base.locals,
                        body,
                        outer.push(param_names(params)),
                        scopes_of(env2, frame),
                    );
                    if base.stack.len() > 0 {
                        lemma_settled_stays(base, ast, result);
                    }
                    lemma_rebuild(base, ast, result);
                }
            },
            _ => lemma_go(base, ast, result.control),
        }
    }
}

pub proof fn lemma_instantiate(
    base: InterpreterView,
    ast: AstView,
    class: usize,
    paren: TokenView,
    args: Seq<ObjectView>,
)
    requires
        sound_below(base, ast),
        settled(base, ast),
        forall|k: int| 0 <= k < args.len() ==> value_ok(ast, base.locals, base.env, #[trigger] args[k]),
        fits(base),
    ensures
        sound(base.instantiate(ast, class, paren, args).0, ast),
{
    let result = base.instantiate(ast, class, paren, args).0;
    if class >= base.classes.len() || base.class_arity(ast, class) != args.len() {
        lemma_go(base, ast, result.control);
    } else {
        let instance = base.instances.len() as usize;
        let made = InterpreterView {
            instances: base.instances.push(InstanceView { class, fields: Map::empty() }),
            ..base
        };
        assert(heap_ok(made, ast)) by {
            assert forall|i: int| 0 <= i < made.instances.len() implies values_ok(
                ast,
                made.locals,
                made.env,
                (#[trigger] made.instances[i]).fields,
            ) by {
                if i < base.instances.len() {
                    assert(made.instances[i] == base.instances[i]);
                }
            }
        }
        assert(sound_below(made, ast)) by {
            assert forall|j: int| 0 <= j < made.stack.len() - 1 implies #[trigger] progress(
                made,
                ast,
                j,
            ) by {
                assert(progress(base, ast, j));
            }
        }
        lemma_find_method_ok(base, ast, class, "init"@);
        match find_method(base.classes, class, "init"@) {
            Some(f) => {
                if base.env.has(f.closure) {
                    lemma_bind(made, ast, f, instance);
                    let (bound, g) = made.bind(f, instance);
                    lemma_settled_grows(base, ast, bound);
                    assert forall|k: int| 0 <= k < args.len() implies value_ok(
                        ast,
                        bound.locals,
                        bound.env,
                        #[trigger] args[k],
                    ) by {
                        lemma_value_grows(ast, base.locals, base.env, bound.env, args[k]);
                    }
                    lemma_call_function(bound, ast, g, paren, args);
                } else {
                    lemma_go(base, ast, result.control);
                }
            },
            None => {
                lemma_settled_grows(base, ast, made);
                lemma_go(made, ast, ControlView::Value(ObjectView::Instance(instance)));
            },
        }
    }
}

pub proof fn lemma_call_dispatch(
    base: InterpreterView,
    ast: AstView,
    callee: ObjectView,
    paren: TokenView,
    args: Seq<ObjectView>,
)
    requires
        sound_below(base, ast),
        settled(base, ast),
        value_ok(ast, base.locals, base.env, callee),
        forall|k: int| 0 <= k < args.len() ==> value_ok(ast, base.locals, base.env, #[trigger] args[k]),
        fits(base),
    ensures
        sound(base.call_dispatch(ast, callee, paren, args).0, ast),
{
    let result = base.call_dispatch(ast, callee, paren, args).0;
    match base.arity(ast, callee) {
        None => lemma_go(base, ast, result.control),
        Some(n) => {
            if n != args.len() {
                lemma_go(base, ast, result.control);
            } else {
                match callee {
                    ObjectView::Func(Callable::Runtime(f)) => lemma_call_function(base, ast, f, paren, args),
                    ObjectView::Func(Callable::Clock) => lemma_go(base, ast, result.control),
                    ObjectView::Func(Callable::Init(ClassInit(c))) => lemma_instantiate(
                        base,
                        ast,
                        c,
                        paren,
                        args,
                    ),
                    ObjectView::Class(c) => lemma_instantiate(base, ast, c, paren, args),
                    _ => lemma_go(base, ast, result.control),
                }
            }
        },
    }
}

pub proof fn lemma_visit_args(
    base: InterpreterView,
    ast: AstView,
    e: usize,
    frame: usize,
    callee: ObjectView,
    done: Seq<ObjectView>,
)
    requires
        sound_below(base, ast),
        settled(base, ast),
        e < ast.exprs.len(),
        node_sound(ast, base.locals, base.env, e, frame),
        value_ok(ast, base.locals, base.env, callee),
        forall|k: int| 0 <= k < done.len() ==> value_ok(ast, base.locals, base.env, #[trigger] done[k]),
        fits(base),
    ensures
        sound(base.visit_args(ast, e, frame, callee, done).0, ast),
{
    let result = base.visit_args(ast, e, frame, callee, done).0;
    match ast.exprs[e as int] {
        ExprView::Call(_, paren, args) => {
            if done.len() < args.len() {
                lemma_child_sound(ast, base.locals, base.env, e, frame, done.len() as int + 1);
                lemma_push_go(
                    base,
                    ast,
                    KontView::Args(e, frame, callee, done),
                    ControlView::Eval(args[done.len() as int], frame),
                );
            } else {
                lemma_call_dispatch(base, ast, callee, paren, done);
            }
        },
        _ => lemma_go(base, ast, result.control),
    }
}

pub proof fn lemma_visit_call(
    base: InterpreterView,
    ast: AstView,
    e: usize,
    frame: usize,
    callee: ObjectView,
)
    requires
        sound_below(base, ast),
        settled(base, ast),
        e < ast.exprs.len(),
        node_sound(ast, base.locals, base.env, e, frame),
        value_ok(ast, base.locals, base.env, callee),
        fits(base),
    ensures
        sound(base.visit_call(ast, e, frame, callee).0, ast),
{
    let result = base.visit_call(ast, e, frame, callee).0;
    match ast.exprs[e as int] {
        ExprView::Call(_, paren, args) => match base.arity(ast, callee) {
            None => lemma_go(base, ast, result.control),
            Some(n) => {
                if n != args.len() {
                    lemma_go(base, ast, result.control);
                } else {
                    lemma_visit_args(base, ast, e, frame, callee, seq![]);
                }
            },
        },
        _ => lemma_go(base, ast, result.control),
    }
}

pub proof fn lemma_visit_get(base: InterpreterView, ast: AstView, e: usize, object: ObjectView)
    requires
        sound_below(base, ast),
        settled(base, ast),
        e < ast.exprs.len(),
        fits(base),
    ensures
        sound(base.visit_get(ast, e, object).0, ast),
{
    let result = base.visit_get(ast, e, object).0;
    match ast.exprs[e as int] {
        ExprView::Get(_, prop) => match object {
            ObjectView::Instance(i) => {
                if i >= base.instances.len() {
                    lemma_go(base, ast, result.control);
                } else if base.instances[i as int].fields.contains_key(prop.lexeme) {
                    assert(values_ok(ast, base.locals, base.env, base.instances[i as int].fields));
                    lemma_go(base, ast, result.control);
                } else {
                    lemma_find_method_ok(base, ast, base.instances[i as int].class, prop.lexeme);
                    match find_method(base.classes, base.instances[i as int].class, prop.lexeme) {
                        Some(f) => {
                            if base.env.has(f.closure) {
                                lemma_delivers_bound(base, ast, f, i);
                            } else {
                                lemma_go(base, ast, result.control);
                            }
                        },
                        None => lemma_go(base, ast, result.control),
                    }
                }
            },
            _ => lemma_go(base, ast, result.control),
        },
        _ => lemma_go(base, ast, result.control),
    }
}

pub proof fn lemma_visit_set(
    base: InterpreterView,
    ast: AstView,
    e: usize,
    frame: usize,
    object: ObjectView,
)
    requires
        sound_below(base, ast),
        settled(base, ast),
        e < ast.exprs.len(),
        node_sound(ast, base.locals, base.env, e, frame),
    ensures
        sound(base.visit_set(ast, e, frame, object).0, ast),
{
    let result = base.visit_set(ast, e, frame, object).0;
    match ast.exprs[e as int] {
        ExprView::SetField(_, prop, val) => match object {
            ObjectView::Instance(i) => {
                lemma_child_sound(ast, base.locals, base.env, e, frame, 1);
                lemma_push_go(base, ast, KontView::SetValue(e, i), ControlView::Eval(val, frame));
            },
            _ => lemma_go(base, ast, result.control),
        },
        _ => lemma_go(base, ast, result.control),
    }
}

pub proof fn lemma_set_field(
    base: InterpreterView,
    ast: AstView,
    e: usize,
    instance: usize,
    v: ObjectView,
)
    requires
        sound_below(base, ast),
        settled(base, ast),
        e < ast.exprs.len(),
        value_ok(ast, base.locals, base.env, v),
    ensures
        sound(base.set_field(ast, e, instance, v).0, ast),
{
    let result = base.set_field(ast, e, instance, v).0;
    match ast.exprs[e as int] {
        ExprView::SetField(_, prop, _) => {
            if instance >= base.instances.len() {
                lemma_go(base, ast, result.control);
            } else {
                assert(heap_ok(result, ast)) by {
                    assert forall|i: int| 0 <= i < result.instances.len() implies values_ok(
                        ast,
                        result.locals,
                        result.env,
                        (#[trigger] result.instances[i]).fields,
                    ) by {
                        assert(values_ok(ast, base.locals, base.env, base.instances[i].fields));
                        if i == instance {
                            assert forall|n: Seq<char>|
                                result.instances[i].fields.contains_key(n) implies value_ok(
                                ast,
                                result.locals,
                                result.env,
                                #[trigger] result.instances[i].fields[n],
                            ) by {
                                if n != prop.lexeme {
                                    assert(base.instances[i].fields.contains_key(n));
                                }
                            }
                        }
                    }
                }
                if base.stack.len() > 0 {
                    lemma_settled_stays(base, ast, result);
                }
                lemma_rebuild(base, ast, result);
            }
        },
        _ => lemma_go(base, ast, result.control),
    }
}


pub proof fn lemma_visit_if(
    base: InterpreterView,
    ast: AstView,
    s: usize,
    frame: usize,
    cond: ObjectView,
)
    requires
        sound_below(base, ast),
        settled(base, ast),
        s < ast.stmts.len(),
        stmt_sound(ast, base.locals, base.env, s, frame),
    ensures
        sound(base.visit_if(ast, s, frame, cond).0, ast),
{
    reveal(sound_stmt);
    reveal(sound_stmts);
    reveal(sound_methods);
    lemma_go(base, ast, base.visit_if(ast, s, frame, cond).0.control);
}

pub proof fn lemma_visit_while(
    base: InterpreterView,
    ast: AstView,
    s: usize,
    frame: usize,
    cond: ObjectView,
)
    requires
        sound_below(base, ast),
        settled(base, ast),
        s < ast.stmts.len(),
        stmt_sound(ast, base.locals, base.env, s, frame),
    ensures
        sound(base.visit_while(ast, s, frame, cond).0, ast),
{
    reveal(sound_stmt);
    reveal(sound_stmts);
    reveal(sound_methods);
    match ast.stmts[s as int] {
        StmtView::While(_, body) => {
            if cond.is_truthy() {
                lemma_push_go(base, ast, KontView::WhileBody(s, frame), ControlView::Exec(body, frame));
            } else {
                lemma_go(base, ast, ControlView::Normal);
            }
        },
        _ => lemma_go(base, ast, base.fault().0.control),
    }
}

/// Every method in the table of a class was made from one of its
/// declarations.
pub proof fn lemma_method_table(
    ast: AstView,
    methods: Seq<usize>,
    frame: usize,
    n: nat,
    name: Seq<char>,
)
    requires
        method_table(ast, methods, frame, n).contains_key(name),
    ensures
        exists|k: int|
            0 <= k < methods.len() && #[trigger] method_of(ast, methods[k], frame) == Some(
                (name, method_table(ast, methods, frame, n)[name]),
            ),
    decreases n,
{
    if n == 0 || n > methods.len() {
    } else {
        let before = method_table(ast, methods, frame, (n - 1) as nat);
        match method_of(ast, methods[n - 1], frame) {
            Some((mname, method)) => {
                if mname == name {
                    assert(method_of(ast, methods[n - 1], frame) == Some(
                        (name, method_table(ast, methods, frame, n)[name]),
                    ));
                } else {
                    lemma_method_table(ast, methods, frame, (n - 1) as nat, name);
                }
            },
            None => {
                lemma_method_table(ast, methods, frame, (n - 1) as nat, name);
            },
        }
    }
}

/// A table that is sound for the methods of a class from the `i`-th on is
/// sound for each of them.
pub proof fn lemma_method_sound(
    ast: AstView,
    locals: Map<usize, usize>,
    parent: usize,
    list: Seq<usize>,
    i: nat,
    k: int,
    scopes: Scopes,
)
    requires
        sound_methods(ast, locals, parent, list, i, scopes),
        i <= k < list.len(),
    ensures
        sound_method(ast, locals, parent, list[k], scopes),
    decreases list.len() - i,
{
    reveal(sound_stmt);
    reveal(sound_stmts);
    reveal(sound_methods);
    if i < k {
        lemma_method_sound(ast, locals, parent, list, i + 1, k, scopes);
    }
}

/// The methods of a new class are in order, given that the table is sound
/// for them in the scopes `inner`, which the scopes seen from their closure
/// cover.
pub proof fn lemma_new_methods_ok(
    ast: AstView,
    locals: Map<usize, usize>,
    env: EnvView,
    s: usize,
    methods: Seq<usize>,
    frame: usize,
    inner: Scopes,
)
    requires
        env.has(frame),
        sound_methods(ast, locals, s, methods, 0, inner.push(set!["this"@])),
        covers(scopes_of(env, frame), inner),
    ensures
        entries_ok(ast, locals, env, method_table(ast, methods, frame, methods.len())),
{
    reveal(sound_stmt);
    reveal(sound_stmts);
    reveal(sound_methods);
    let table = method_table(ast, methods, frame, methods.len());
    assert forall|n: Seq<char>| table.contains_key(n) implies entry_ok(
        ast,
        locals,
        env,
        #[trigger] table[n],
    ) by {
        lemma_method_table(ast, methods, frame, methods.len(), n);
        let k = choose|k: int|
            0 <= k < methods.len() && #[trigger] method_of(ast, methods[k], frame) == Some(
                (n, table[n]),
            );
        lemma_method_sound(ast, locals, s, methods, 0, k, inner.push(set!["this"@]));
        let m = methods[k];
        match ast.stmts[m as int] {
            StmtView::Function(_, params, body) => {
                lemma_covers_push(scopes_of(env, frame), inner, set!["this"@], set!["this"@]);
                lemma_covers_push(
                    scopes_of(env, frame).push(set!["this"@]),
                    inner.push(set!["this"@]),
                    param_names(params),
                    param_names(params),
                );
                lemma_sound_stmt_mono(
                    ast,
                    locals,
                    body,
                    inner.push(set!["this"@]).push(param_names(params)),
                    scopes_of(env, frame).push(set!["this"@]).push(param_names(params)),
                );
            },
            _ => {},
        }
    }
}

pub proof fn lemma_visit_class(
    base: InterpreterView,
    ast: AstView,
    s: usize,
    frame: usize,
    parent: Option<ObjectView>,
)
    requires
        sound_below(base, ast),
        settled_but(base, ast, s, frame),
        s < ast.stmts.len(),
        stmt_sound(ast, base.locals, base.env, s, frame),
        ast.stmts[s as int] matches StmtView::Class(_, declared_parent, _) ==> (parent is Some
            <==> declared_parent is Some),
        fits(base),
    ensures
        sound(base.visit_class(ast, s, frame, parent).0, ast),
{
    reveal(sound_stmt);
    reveal(sound_stmts);
    reveal(sound_methods);
    let result = base.visit_class(ast, s, frame, parent).0;
    match ast.stmts[s as int] {
        StmtView::Class(name, _, methods) => {
            let id = base.classes.len() as usize;
            let outer = add_name(scopes_of(base.env, frame), name.lexeme);
            match parent {
                Some(ObjectView::Class(p)) => {
                    if p >= base.classes.len() {
                        lemma_go(base, ast, result.control);
                    } else {
                        let (env1, mf) = base.env.push_frame(frame);
                        let env2 = env1.define(mf, "super"@, ObjectView::Class(p));
                        let env3 = env2.define(frame, name.lexeme, ObjectView::Class(id));
                        let m1 = InterpreterView { env: env1, ..base };
                        let m2 = InterpreterView { env: env2, ..base };
                        let m3 = InterpreterView { env: env3, ..base };
                        lemma_heap_push(base, ast, frame);
                        lemma_push_grows(base.env, frame);
                        lemma_heap_define(m1, ast, mf, "super"@, ObjectView::Class(p));
                        lemma_define_grows(env1, mf, "super"@, ObjectView::Class(p));
                        lemma_heap_define(m2, ast, frame, name.lexeme, ObjectView::Class(id));
                        lemma_define_grows(env2, frame, name.lexeme, ObjectView::Class(id));
                        lemma_grows_trans(base.env, env1, env2);
                        lemma_grows_trans(base.env, env2, env3);
                        // the scopes seen from the frame that holds `super`
                        lemma_define_adds(env2, frame, name.lexeme, ObjectView::Class(id));
                        lemma_scopes_grow(base.env, env2, frame);
                        lemma_covers_add(
                            scopes_of(env2, frame),
                            scopes_of(base.env, frame),
                            name.lexeme,
                        );
                        lemma_covers_trans(
                            scopes_of(env3, frame),
                            add_name(scopes_of(env2, frame), name.lexeme),
                            outer,
                        );
                        lemma_scopes_unfold(env3, mf);
                        assert(env3.frames[mf as int].bindings.contains_key("super"@));
                        lemma_covers_push(
                            scopes_of(env3, frame),
                            outer,
                            env3.frames[mf as int].bindings.dom(),
                            set!["super"@],
                        );
                        lemma_new_methods_ok(
                            ast,
                            base.locals,
                            env3,
                            s,
                            methods,
                            mf,
                            outer.push(set!["super"@]),
                        );
                        assert(heap_ok(m3, ast));
                        assert(result.env == env3);
                        assert(result.instances == m3.instances);
                        assert(result.locals == m3.locals);
                        assert forall|c: int| 0 <= c < result.classes.len() implies entries_ok(
                            ast,
                            result.locals,
                            result.env,
                            (#[trigger] result.classes[c]).methods,
                        ) by {
                            if c < base.classes.len() {
                                assert(result.classes[c] == m3.classes[c]);
                                assert(entries_ok(ast, m3.locals, m3.env, m3.classes[c].methods));
                            } else {
                                assert(result.classes[c].methods == method_table(
                                    ast,
                                    methods,
                                    mf,
                                    methods.len(),
                                ));
                            }
                        }
                        assert forall|f: int| 0 <= f < result.env.frames.len() implies values_ok(
                            ast,
                            result.locals,
                            result.env,
                            (#[trigger] result.env.frames[f]).bindings,
                        ) by {
                            assert(values_ok(ast, m3.locals, m3.env, m3.env.frames[f].bindings));
                        }
                        assert forall|i: int| 0 <= i < result.instances.len() implies values_ok(
                            ast,
                            result.locals,
                            result.env,
                            (#[trigger] result.instances[i]).fields,
                        ) by {
                            assert(values_ok(ast, m3.locals, m3.env, m3.instances[i].fields));
                        }
                        assert(heap_ok(result, ast));
                        if base.stack.len() > 0 {
                            if settled(base, ast) {
                                lemma_settled_stays(base, ast, result);
                            }
                        }
                        lemma_rebuild(base, ast, result);
                    }
                },
                Some(_) => lemma_go(base, ast, result.control),
                None => {
                    let env3 = base.env.define(frame, name.lexeme, ObjectView::Class(id));
                    let m3 = InterpreterView { env: env3, ..base };
                    lemma_heap_define(base, ast, frame, name.lexeme, ObjectView::Class(id));
                    lemma_define_grows(base.env, frame, name.lexeme, ObjectView::Class(id));
                    lemma_define_adds(base.env, frame, name.lexeme, ObjectView::Class(id));
                    lemma_new_methods_ok(ast, base.locals, env3, s, methods, frame, outer);
                    assert(heap_ok(m3, ast));
                    assert(result.env == env3);
                    assert(result.instances == m3.instances);
                    assert(result.locals == m3.locals);
                    assert forall|c: int| 0 <= c < result.classes.len() implies entries_ok(
                        ast,
                        result.locals,
                        result.env,
                        (#[trigger] result.classes[c]).methods,
                    ) by {
                        if c < base.classes.len() {
                            assert(result.classes[c] == m3.classes[c]);
                            assert(entries_ok(ast, m3.locals, m3.env, m3.classes[c].methods));
                        } else {
                            assert(result.classes[c].methods == method_table(
                                ast,
                                methods,
                                frame,
                                methods.len(),
                            ));
                        }
                    }
                    assert forall|f: int| 0 <= f < result.env.frames.len() implies values_ok(
                        ast,
                        result.locals,
                        result.env,
                        (#[trigger] result.env.frames[f]).bindings,
                    ) by {
                        assert(values_ok(ast, m3.locals, m3.env, m3.env.frames[f].bindings));
                    }
                    assert forall|i: int| 0 <= i < result.instances.len() implies values_ok(
                        ast,
                        result.locals,
                        result.env,
                        (#[trigger] result.instances[i]).fields,
                    ) by {
                        assert(values_ok(ast, m3.locals, m3.env, m3.instances[i].fields));
                    }
                    assert(heap_ok(result, ast));
                    if base.stack.len() > 0 {
                        if settled(base, ast) {
                            lemma_settled_stays(base, ast, result);
                        }
                    }
                    lemma_rebuild(base, ast, result);
                },
            }
        },
        _ => lemma_go(base, ast, result.control),
    }
}

/// A statement that binds no name leaves nothing for the block around it
/// to wait for.
pub proof fn lemma_nothing_declared(base: InterpreterView, ast: AstView, s: usize, frame: usize)
    requires
        settled_but(base, ast, s, frame),
        declared(ast, s) is None,
    ensures
        settled(base, ast),
{
}

/// The first step of running a statement.
pub proof fn lemma_exec(base: InterpreterView, ast: AstView, s: usize, frame: usize)
    requires
        sound_below(base, ast),
        settled_but(base, ast, s, frame),
        stmt_sound(ast, base.locals, base.env, s, frame),
        fits(base),
    ensures
        sound(base.exec(ast, s, frame).0, ast),
{
    reveal(sound_stmt);
    reveal(sound_stmts);
    reveal(sound_methods);
    let result = base.exec(ast, s, frame).0;
    if s >= ast.stmts.len() || !base.env.has(frame) {
        lemma_go(base, ast, result.control);
    } else {
        match ast.stmts[s as int] {
            StmtView::Expression(e) => {
                lemma_nothing_declared(base, ast, s, frame);
                lemma_push_go(
                    base,
                    ast,
                    KontView::ExprStmt(base.repl && frame == GLOBAL),
                    ControlView::Eval(e, frame),
                );
            },
            StmtView::Print(e) => {
                lemma_nothing_declared(base, ast, s, frame);
                lemma_push_go(base, ast, KontView::Print, ControlView::Eval(e, frame));
            },
            StmtView::Declaration(id, init) => match init {
                Some(init) => {
                    lemma_push_go(base, ast, KontView::VarInit(s, frame), ControlView::Eval(init, frame));
                },
                None => {
                    lemma_heap_define(base, ast, frame, id.lexeme, ObjectView::Nil);
                    lemma_define_grows(base.env, frame, id.lexeme, ObjectView::Nil);
                    if base.stack.len() > 0 {
                        if settled(base, ast) {
                            lemma_settled_stays(base, ast, result);
                        }
                    }
                    lemma_rebuild(base, ast, result);
                },
            },
            StmtView::Block(body) => {
                lemma_nothing_declared(base, ast, s, frame);
                let (env1, inner) = base.env.push_frame(frame);
                lemma_heap_push(base, ast, frame);
                lemma_push_grows(base.env, frame);
                lemma_scopes_grow(base.env, env1, frame);
                lemma_covers_push(
                    scopes_of(env1, frame),
                    scopes_of(base.env, frame),
                    Set::empty(),
                    Set::empty(),
                );
                lemma_sound_stmts_mono(
                    ast,
                    base.locals,
                    s,
                    body,
                    0,
                    scopes_of(base.env, frame).push(Set::empty()),
                    scopes_of(env1, inner),
                );
                if base.stack.len() > 0 {
                    lemma_settled_stays(base, ast, result);
                }
                lemma_rebuild(base, ast, result);
            },
            StmtView::If(cond, _, _) => {
                lemma_nothing_declared(base, ast, s, frame);
                lemma_push_go(base, ast, KontView::IfCond(s, frame), ControlView::Eval(cond, frame));
            },
            StmtView::While(cond, _) => {
                lemma_nothing_declared(base, ast, s, frame);
                lemma_push_go(base, ast, KontView::WhileCond(s, frame), ControlView::Eval(cond, frame));
            },
            StmtView::Break(_) => lemma_go(base, ast, result.control),
            StmtView::Function(name, params, body) => {
                let f = LoxFunction { decl: s, closure: frame, is_initializer: false };
                let v = ObjectView::Func(Callable::Runtime(f));
                let env2 = base.env.define(frame, name.lexeme, v);
                lemma_define_grows(base.env, frame, name.lexeme, v);
                lemma_define_adds(base.env, frame, name.lexeme, v);
                lemma_covers_push(
                    scopes_of(env2, frame),
                    add_name(scopes_of(base.env, frame), name.lexeme),
                    param_names(params),
                    param_names(params),
                );
                lemma_sound_stmt_mono(
                    ast,
                    base.locals,
                    body,
                    add_name(scopes_of(base.env, frame), name.lexeme).push(param_names(params)),
                    scopes_of(env2, frame).push(param_names(params)),
                );
                lemma_heap_define(base, ast, frame, name.lexeme, v);
                if base.stack.len() > 0 {
                    if settled(base, ast) {
                        lemma_settled_stays(base, ast, result);
                    }
                }
                lemma_rebuild(base, ast, result);
            },
            StmtView::Return(keyword, val) => {
                lemma_nothing_declared(base, ast, s, frame);
                match val {
                    Some(val) => lemma_push_go(
                        base,
                        ast,
                        KontView::ReturnValue(s),
                        ControlView::Eval(val, frame),
                    ),
                    None => lemma_go(base, ast, result.control),
                }
            },
            StmtView::Class(_, parent, _) => match parent {
                Some(parent) => {
                    lemma_push_go(
                        base,
                        ast,
                        KontView::Superclass(s, frame),
                        ControlView::Eval(parent, frame),
                    );
                },
                None => lemma_visit_class(base, ast, s, frame, None),
            },
        }
    }
}


/// No block has more statements than can be counted.
pub open spec fn blocks_fit(ast: AstView) -> bool {
    forall|s: int| 0 <= s < ast.stmts.len() ==> (#[trigger] ast.stmts[s]).stmts().len() <= usize::MAX
}

/// The step that hands a value to the innermost waiting construct.
pub proof fn lemma_resume(m: InterpreterView, ast: AstView, v: ObjectView)
    requires
        sound(m, ast),
        m.control == ControlView::Value(v),
        m.stack.len() > 0,
        fits(m),
    ensures
        sound(m.pop().resume(ast, m.stack.last(), v).0, ast),
{
    reveal(sound_stmt);
    reveal(sound_stmts);
    reveal(sound_methods);
    let base = m.pop();
    let k = m.stack.last();
    let result = base.resume(ast, k, v).0;
    lemma_pop_is_ready(m, ast);
    if !base.kont_ok(ast, k) {
        lemma_go(base, ast, result.control);
    } else {
        match k {
            KontView::Unary(e) => {
                match ast.exprs[e as int] {
                    ExprView::Unary(op, _) => lemma_operators(op, v, v, base, ast),
                    _ => {},
                }
                lemma_go(base, ast, result.control);
            },
            KontView::BinaryLeft(e, frame) => match ast.exprs[e as int] {
                ExprView::Binary(_, _, rhs) => {
                    lemma_child_sound(ast, base.locals, base.env, e, frame, 1);
                    lemma_push_go(base, ast, KontView::BinaryRight(e, v), ControlView::Eval(rhs, frame));
                },
                _ => lemma_go(base, ast, result.control),
            },
            KontView::BinaryRight(e, lhs) => {
                match ast.exprs[e as int] {
                    ExprView::Binary(_, op, _) => lemma_operators(op, lhs, v, base, ast),
                    _ => {},
                }
                lemma_go(base, ast, result.control);
            },
            KontView::Logical(e, frame) => lemma_visit_logical(base, ast, e, frame, v),
            KontView::Assign(e, frame) => lemma_visit_assignment(base, ast, e, frame, v),
            KontView::Callee(e, frame) => lemma_visit_call(base, ast, e, frame, v),
            KontView::Args(e, frame, callee, done) => {
                assert forall|j: int| 0 <= j < done.push(v).len() implies value_ok(
                    ast,
                    base.locals,
                    base.env,
                    #[trigger] done.push(v)[j],
                ) by {
                    if j < done.len() {
                        assert(done.push(v)[j] == done[j]);
                    }
                }
                lemma_visit_args(base, ast, e, frame, callee, done.push(v));
            },
            KontView::Get(e) => lemma_visit_get(base, ast, e, v),
            KontView::SetObject(e, frame) => lemma_visit_set(base, ast, e, frame, v),
            KontView::SetValue(e, instance) => lemma_set_field(base, ast, e, instance, v),
            KontView::ExprStmt(_) => lemma_go(base, ast, result.control),
            KontView::Print => lemma_go(base, ast, result.control),
            KontView::VarInit(s, frame) => match ast.stmts[s as int] {
                StmtView::Declaration(id, _) => {
                    lemma_define_grows(base.env, frame, id.lexeme, v);
                    lemma_value_grows(ast, base.locals, base.env, result.env, v);
                    lemma_heap_define(base, ast, frame, id.lexeme, v);
                    if base.stack.len() > 0 {
                        if settled(base, ast) {
                            lemma_settled_stays(base, ast, result);
                        }
                    }
                    lemma_rebuild(base, ast, result);
                },
                _ => lemma_go(base, ast, result.control),
            },
            KontView::IfCond(s, frame) => lemma_visit_if(base, ast, s, frame, v),
            KontView::WhileCond(s, frame) => lemma_visit_while(base, ast, s, frame, v),
            KontView::ReturnValue(s) => lemma_go(base, ast, result.control),
            KontView::Superclass(s, frame) => lemma_visit_class(base, ast, s, frame, Some(v)),
            _ => lemma_go(base, ast, result.control),
        }
    }
}

/// The step that tells the innermost waiting construct that a statement
/// has run to its end.
pub proof fn lemma_complete(m: InterpreterView, ast: AstView)
    requires
        sound(m, ast),
        m.control == ControlView::Normal,
        m.stack.len() > 0,
        blocks_fit(ast),
    ensures
        sound(m.pop().complete(ast, m.stack.last()).0, ast),
{
    reveal(sound_stmt);
    reveal(sound_stmts);
    reveal(sound_methods);
    let base = m.pop();
    let k = m.stack.last();
    let top = m.stack.len() - 1;
    let result = base.complete(ast, k).0;
    lemma_pop_is_ready(m, ast);
    assert(progress(m, ast, top));
    if !base.kont_ok(ast, k) {
        lemma_go(base, ast, result.control);
    } else {
        match k {
            KontView::Block(s, next, frame) => match ast.stmts[s as int] {
                StmtView::Block(body) => {
                    assert(ast.stmts[s as int].stmts() == body);
                    if next < body.len() {
                        let scopes = scopes_of(base.env, frame);
                        if next >= 1 {
                            match declared(ast, body[next - 1]) {
                                Some(name) => {
                                    lemma_bound_name_is_in_scope(base.env, frame, name);
                                },
                                None => lemma_covers_refl(scopes),
                            }
                            lemma_sound_stmts_mono(
                                ast,
                                base.locals,
                                s,
                                body,
                                next as nat,
                                after(ast, scopes, body[next - 1]),
                                scopes,
                            );
                        }
                        assert(sound_stmts(ast, base.locals, s, body, next as nat, scopes));
                        let pushed = KontView::Block(s, (next + 1) as usize, frame);
                        assert(under_way(result, ast, base.stack.len() as int) == Some(
                            (body[next as int], frame),
                        ));
                        lemma_push_go(base, ast, pushed, ControlView::Exec(body[next as int], frame));
                    } else {
                        lemma_go(base, ast, result.control);
                    }
                },
                _ => lemma_go(base, ast, result.control),
            },
            KontView::WhileBody(s, frame) => match ast.stmts[s as int] {
                StmtView::While(cond, _) => {
                    lemma_push_go(base, ast, KontView::WhileCond(s, frame), ControlView::Eval(cond, frame));
                },
                _ => lemma_go(base, ast, result.control),
            },
            KontView::Call(_) => lemma_go(base, ast, result.control),
            _ => lemma_go(base, ast, result.control),
        }
    }
}

/// The step that passes a signal by the innermost waiting construct.
pub proof fn lemma_unwind(m: InterpreterView, ast: AstView, e: ErrorView)
    requires
        sound(m, ast),
        m.control == ControlView::Raise(e),
        m.stack.len() > 0,
    ensures
        sound(m.pop().unwind(m.stack.last(), e).0, ast),
{
    let base = m.pop();
    let result = base.unwind(m.stack.last(), e).0;
    lemma_pop_is_ready(m, ast);
    lemma_go(base, ast, result.control);
}

/// A step of the evaluator leaves the side table as it is.
pub proof fn lemma_step_frame(m: InterpreterView, ast: AstView)
    ensures
        m.step(ast).0.locals == m.locals,
{
    match m.control {
        ControlView::Value(v) => {
            if m.stack.len() > 0 {
                lemma_resume_frame(m.pop(), ast, m.stack.last(), v);
            }
        },
        ControlView::Eval(e, frame) => lemma_eval_frame(m, ast, e, frame),
        ControlView::Exec(s, frame) => lemma_exec_frame(m, ast, s, frame),
        _ => {},
    }
}

pub proof fn lemma_eval_frame(m: InterpreterView, ast: AstView, e: usize, frame: usize)
    ensures
        m.eval(ast, e, frame).0.locals == m.locals,
{
}

pub proof fn lemma_exec_frame(m: InterpreterView, ast: AstView, s: usize, frame: usize)
    ensures
        m.exec(ast, s, frame).0.locals == m.locals,
{
}

pub proof fn lemma_resume_frame(m: InterpreterView, ast: AstView, k: KontView, v: ObjectView)
    ensures
        m.resume(ast, k, v).0.locals == m.locals,
{
}

} // verus!
