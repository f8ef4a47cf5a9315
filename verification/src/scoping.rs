//! When a side table is sound for a piece of syntax.
//!
//! A side table is sound for an expression in some scopes if the
//! expression is all there, and every reference in it that has a depth
//! points, by that depth, at a scope that holds the reference's name. The scopes meant here hold the names that
//! are certain to be bound when the reference is evaluated: the names
//! declared by the statements that come before it in its block, the
//! parameters of its function, `this` and `super`.
//!
//! The frames of a running program, seen from any one of them outwards, are
//! such scopes: each holds the names it binds. `scopes_of` reads them off.

use vstd::prelude::*;
use crate::ast::AstView;
use crate::env::EnvView;
use crate::expr::ExprView;
use crate::stmt::StmtView;
use crate::tokens::TokenView;

verus! {

/// Scopes by the names they hold, innermost last. The global scope is not
/// among them.
pub type Scopes = Seq<Set<Seq<char>>>;

/// `big` has the scopes of `small`, each with at least the same names.
pub open spec fn covers(big: Scopes, small: Scopes) -> bool {
    &&& big.len() == small.len()
    &&& forall|i: int| 0 <= i < small.len() ==> (#[trigger] small[i]).subset_of(big[i])
}

/// The scopes with `name` added to the innermost one. At the top level,
/// where there is none, the name goes to the global scope.
pub open spec fn add_name(scopes: Scopes, name: Seq<char>) -> Scopes {
    if scopes.len() == 0 {
        scopes
    } else {
        scopes.update(scopes.len() - 1, scopes.last().insert(name))
    }
}

/// The name that running the statement `s` to its end binds in the frame it
/// runs in, if it binds one.
pub open spec fn declared(ast: AstView, s: usize) -> Option<Seq<char>> {
    if s < ast.stmts.len() {
        match ast.stmts[s as int] {
            StmtView::Declaration(id, _) => Some(id.lexeme),
            StmtView::Function(name, _, _) => Some(name.lexeme),
            StmtView::Class(name, _, _) => Some(name.lexeme),
            _ => None,
        }
    } else {
        None
    }
}

/// The scopes after the statement `s` has run to its end in them.
pub open spec fn after(ast: AstView, scopes: Scopes, s: usize) -> Scopes {
    match declared(ast, s) {
        Some(name) => add_name(scopes, name),
        None => scopes,
    }
}

/// The names of the parameters `params`.
pub open spec fn param_names(params: Seq<TokenView>) -> Set<Seq<char>> {
    Set::new(|n: Seq<char>| exists|i: int| 0 <= i < params.len() && #[trigger] params[i].lexeme == n)
}

/// If the table has a depth for `expr`, then that many scopes out there is
/// a scope, and it holds `name`.
pub open spec fn bound_at(
    locals: Map<usize, usize>,
    expr: usize,
    name: Seq<char>,
    scopes: Scopes,
) -> bool {
    locals.contains_key(expr) ==> locals[expr] < scopes.len() && scopes[scopes.len() - 1
        - locals[expr]].contains(name)
}

/// Whether `locals` is sound for the expression `e` in `scopes`.
#[verifier::opaque]
pub open spec fn sound_expr(
    ast: AstView,
    locals: Map<usize, usize>,
    e: usize,
    scopes: Scopes,
) -> bool
    decreases e, 1nat, 0nat,
{
    if e >= ast.exprs.len() {
        false
    } else {
        match ast.exprs[e as int] {
            ExprView::Identifier(id) => bound_at(locals, e, id.lexeme, scopes),
            ExprView::This(token) => bound_at(locals, e, token.lexeme, scopes),
            ExprView::Super(keyword, _) => bound_at(locals, e, keyword.lexeme, scopes) && (
            locals.contains_key(e) ==> locals[e] >= 1 && bound_at(
                map![e => (locals[e] - 1) as usize],
                e,
                "this"@,
                scopes,
            )),
            ExprView::Assignment(id, _) => bound_at(locals, e, id.lexeme, scopes) && sound_exprs(
                ast,
                locals,
                e,
                ast.exprs[e as int].children(),
                0,
                scopes,
            ),
            _ => sound_exprs(ast, locals, e, ast.exprs[e as int].children(), 0, scopes),
        }
    }
}

/// Whether `locals` is sound for the expressions `list[i..]`, operands of
/// the node `parent`, in `scopes`.
#[verifier::opaque]
pub open spec fn sound_exprs(
    ast: AstView,
    locals: Map<usize, usize>,
    parent: usize,
    list: Seq<usize>,
    i: nat,
    scopes: Scopes,
) -> bool
    decreases parent, 0nat, list.len() - i,
{
    if i >= list.len() {
        true
    } else {
        &&& list[i as int] < parent
        &&& sound_expr(ast, locals, list[i as int], scopes)
        &&& sound_exprs(ast, locals, parent, list, i + 1, scopes)
    }
}

/// Whether `locals` is sound for an expression that may be absent.
pub open spec fn sound_opt(
    ast: AstView,
    locals: Map<usize, usize>,
    e: Option<usize>,
    scopes: Scopes,
) -> bool {
    match e {
        Some(e) => sound_expr(ast, locals, e, scopes),
        None => true,
    }
}

/// Whether `locals` is sound for the statement `s` run in `scopes`.
#[verifier::opaque]
pub open spec fn sound_stmt(
    ast: AstView,
    locals: Map<usize, usize>,
    s: usize,
    scopes: Scopes,
) -> bool
    decreases s, 1nat, 0nat,
{
    if s >= ast.stmts.len() {
        false
    } else {
        match ast.stmts[s as int] {
            StmtView::Expression(e) => sound_expr(ast, locals, e, scopes),
            StmtView::Print(e) => sound_expr(ast, locals, e, scopes),
            StmtView::Declaration(_, init) => sound_opt(ast, locals, init, scopes),
            StmtView::Block(body) => sound_stmts(ast, locals, s, body, 0, scopes.push(Set::empty())),
            StmtView::If(cond, then_stmt, else_stmt) => {
                &&& sound_expr(ast, locals, cond, scopes)
                &&& then_stmt < s
                &&& sound_stmt(ast, locals, then_stmt, scopes)
                &&& else_stmt matches Some(else_stmt) ==> else_stmt < s && sound_stmt(
                    ast,
                    locals,
                    else_stmt,
                    scopes,
                )
            },
            StmtView::While(cond, body) => {
                &&& sound_expr(ast, locals, cond, scopes)
                &&& body < s
                &&& sound_stmt(ast, locals, body, scopes)
            },
            StmtView::Break(_) => true,
            StmtView::Function(name, params, body) => {
                &&& body < s
                &&& sound_stmt(
                    ast,
                    locals,
                    body,
                    add_name(scopes, name.lexeme).push(param_names(params)),
                )
            },
            StmtView::Return(_, val) => sound_opt(ast, locals, val, scopes),
            StmtView::Class(name, parent, methods) => match parent {
                Some(p) => {
                    &&& sound_expr(ast, locals, p, scopes)
                    &&& sound_methods(
                        ast,
                        locals,
                        s,
                        methods,
                        0,
                        add_name(scopes, name.lexeme).push(set!["super"@]).push(set!["this"@]),
                    )
                },
                None => sound_methods(
                    ast,
                    locals,
                    s,
                    methods,
                    0,
                    add_name(scopes, name.lexeme).push(set!["this"@]),
                ),
            },
        }
    }
}

/// Whether `locals` is sound for the statements `list[i..]` of the block
/// `parent`, run one after the other from `scopes` on.
#[verifier::opaque]
pub open spec fn sound_stmts(
    ast: AstView,
    locals: Map<usize, usize>,
    parent: usize,
    list: Seq<usize>,
    i: nat,
    scopes: Scopes,
) -> bool
    decreases parent, 0nat, list.len() - i,
{
    if i >= list.len() {
        true
    } else {
        &&& list[i as int] < parent
        &&& sound_stmt(ast, locals, list[i as int], scopes)
        &&& sound_stmts(ast, locals, parent, list, i + 1, after(ast, scopes, list[i as int]))
    }
}

/// Whether `locals` is sound for the body of the method declared at node
/// `m`, run with its parameters in `scopes`.
pub open spec fn sound_method(
    ast: AstView,
    locals: Map<usize, usize>,
    parent: usize,
    m: usize,
    scopes: Scopes,
) -> bool
    decreases parent, 0nat, 0nat,
{
    if m < ast.stmts.len() {
        match ast.stmts[m as int] {
            StmtView::Function(_, params, body) => body < parent && sound_stmt(
                ast,
                locals,
                body,
                scopes.push(param_names(params)),
            ),
            _ => true,
        }
    } else {
        false
    }
}

/// Whether `locals` is sound for the bodies of the methods `list[i..]` of
/// the class `parent`, each run with its parameters in `scopes`.
#[verifier::opaque]
pub open spec fn sound_methods(
    ast: AstView,
    locals: Map<usize, usize>,
    parent: usize,
    list: Seq<usize>,
    i: nat,
    scopes: Scopes,
) -> bool
    decreases parent, 0nat, list.len() - i,
{
    if i >= list.len() {
        true
    } else {
        &&& list[i as int] < parent
        &&& sound_method(ast, locals, parent, list[i as int], scopes)
        &&& sound_methods(ast, locals, parent, list, i + 1, scopes)
    }
}

/// A side table that holds nothing is sound for every expression in any
/// scopes: it sends every reference to the global frame.
pub proof fn lemma_blank_expr(ast: AstView, e: usize, scopes: Scopes)
    requires
        ast.wf(),
        e < ast.exprs.len(),
    ensures
        sound_expr(ast, Map::empty(), e, scopes),
    decreases e, 1nat, 0nat,
{
    reveal(sound_expr);
    reveal(sound_exprs);
    assert(ast.exprs[e as int].wf(e as int));
    lemma_blank_exprs(ast, e, ast.exprs[e as int].children(), 0, scopes);
}

pub proof fn lemma_blank_exprs(ast: AstView, parent: usize, list: Seq<usize>, i: nat, scopes: Scopes)
    requires
        ast.wf(),
        parent <= ast.exprs.len(),
        forall|k: int| 0 <= k < list.len() ==> #[trigger] list[k] < parent,
    ensures
        sound_exprs(ast, Map::empty(), parent, list, i, scopes),
    decreases parent, 0nat, list.len() - i,
{
    reveal(sound_expr);
    reveal(sound_exprs);
    if i < list.len() {
        lemma_blank_expr(ast, list[i as int], scopes);
        lemma_blank_exprs(ast, parent, list, i + 1, scopes);
    }
}

/// A side table that holds nothing is sound for every statement in any
/// scopes.
pub proof fn lemma_blank_stmt(ast: AstView, s: usize, scopes: Scopes)
    requires
        ast.wf(),
        s < ast.stmts.len(),
    ensures
        sound_stmt(ast, Map::empty(), s, scopes),
    decreases s, 1nat, 0nat,
{
    reveal(sound_stmt);
    reveal(sound_stmts);
    reveal(sound_methods);
    let node = ast.stmts[s as int];
    assert(node.wf(s as int, ast.exprs.len() as int));
    match node {
        StmtView::Expression(e) => {
            assert(node.exprs()[0] == e);
            lemma_blank_expr(ast, e, scopes);
        },
        StmtView::Print(e) => {
            assert(node.exprs()[0] == e);
            lemma_blank_expr(ast, e, scopes);
        },
        StmtView::Declaration(_, init) => {
            if let Some(e) = init {
                assert(node.exprs()[0] == e);
                lemma_blank_expr(ast, e, scopes);
            }
        },
        StmtView::Block(body) => {
            assert(node.stmts() == body);
            lemma_blank_stmts(ast, s, body, 0, scopes.push(Set::empty()));
        },
        StmtView::If(cond, then_stmt, else_stmt) => {
            assert(node.exprs()[0] == cond);
            assert(node.stmts()[0] == then_stmt);
            lemma_blank_expr(ast, cond, scopes);
            lemma_blank_stmt(ast, then_stmt, scopes);
            if let Some(other) = else_stmt {
                assert(node.stmts()[1] == other);
                lemma_blank_stmt(ast, other, scopes);
            }
        },
        StmtView::While(cond, body) => {
            assert(node.exprs()[0] == cond);
            assert(node.stmts()[0] == body);
            lemma_blank_expr(ast, cond, scopes);
            lemma_blank_stmt(ast, body, scopes);
        },
        StmtView::Break(_) => {},
        StmtView::Function(name, params, body) => {
            assert(node.stmts()[0] == body);
            lemma_blank_stmt(ast, body, add_name(scopes, name.lexeme).push(param_names(params)));
        },
        StmtView::Return(_, val) => {
            if let Some(e) = val {
                assert(node.exprs()[0] == e);
                lemma_blank_expr(ast, e, scopes);
            }
        },
        StmtView::Class(name, parent, methods) => {
            assert(node.stmts() == methods);
            match parent {
                Some(p) => {
                    assert(node.exprs()[0] == p);
                    lemma_blank_expr(ast, p, scopes);
                    lemma_blank_methods(
                        ast,
                        s,
                        methods,
                        0,
                        add_name(scopes, name.lexeme).push(set!["super"@]).push(set!["this"@]),
                    );
                },
                None => {
                    lemma_blank_methods(ast, s, methods, 0, add_name(scopes, name.lexeme).push(set!["this"@]));
                },
            }
        },
    }
}

pub proof fn lemma_blank_stmts(ast: AstView, parent: usize, list: Seq<usize>, i: nat, scopes: Scopes)
    requires
        ast.wf(),
        parent <= ast.stmts.len(),
        forall|k: int| 0 <= k < list.len() ==> #[trigger] list[k] < parent,
    ensures
        sound_stmts(ast, Map::empty(), parent, list, i, scopes),
    decreases parent, 0nat, list.len() - i,
{
    reveal(sound_stmt);
    reveal(sound_stmts);
    reveal(sound_methods);
    if i < list.len() {
        lemma_blank_stmt(ast, list[i as int], scopes);
        lemma_blank_stmts(ast, parent, list, i + 1, after(ast, scopes, list[i as int]));
    }
}

pub proof fn lemma_blank_methods(ast: AstView, parent: usize, list: Seq<usize>, i: nat, scopes: Scopes)
    requires
        ast.wf(),
        parent <= ast.stmts.len(),
        forall|k: int| 0 <= k < list.len() ==> #[trigger] list[k] < parent,
    ensures
        sound_methods(ast, Map::empty(), parent, list, i, scopes),
    decreases parent, 0nat, list.len() - i,
{
    reveal(sound_stmt);
    reveal(sound_stmts);
    reveal(sound_methods);
    if i < list.len() {
        lemma_blank_method(ast, parent, list[i as int], scopes);
        lemma_blank_methods(ast, parent, list, i + 1, scopes);
    }
}

pub proof fn lemma_blank_method(ast: AstView, parent: usize, m: usize, scopes: Scopes)
    requires
        ast.wf(),
        parent <= ast.stmts.len(),
        m < parent,
    ensures
        sound_method(ast, Map::empty(), parent, m, scopes),
    decreases parent, 0nat, 0nat,
{
    reveal(sound_stmt);
    reveal(sound_stmts);
    reveal(sound_methods);
    let node = ast.stmts[m as int];
    assert(node.wf(m as int, ast.exprs.len() as int));
    match node {
        StmtView::Function(_, params, body) => {
            assert(node.stmts()[0] == body);
            lemma_blank_stmt(ast, body, scopes.push(param_names(params)));
        },
        _ => {},
    }
}

/// The scopes that the frames make, seen from `frame` outwards: for each
/// frame up to the global one, which is left out, the names it binds.
pub open spec fn scopes_of(env: EnvView, frame: usize) -> Scopes
    decreases frame,
{
    if frame == 0 || !env.has(frame) {
        seq![]
    } else {
        match env.frames[frame as int].parent {
            Some(p) => if p < frame {
                scopes_of(env, p).push(env.frames[frame as int].bindings.dom())
            } else {
                seq![]
            },
            None => seq![],
        }
    }
}

/// `later` has every frame of `env`, under the same parent and binding at
/// least the same names.
pub open spec fn grows(env: EnvView, later: EnvView) -> bool {
    &&& env.frames.len() <= later.frames.len()
    &&& forall|f: int|
        0 <= f < env.frames.len() ==> (#[trigger] later.frames[f]).parent == env.frames[f].parent
            && env.frames[f].bindings.dom().subset_of(later.frames[f].bindings.dom())
}

pub proof fn lemma_covers_refl(s: Scopes)
    ensures
        covers(s, s),
{
}

pub proof fn lemma_covers_trans(a: Scopes, b: Scopes, c: Scopes)
    requires
        covers(a, b),
        covers(b, c),
    ensures
        covers(a, c),
{
    assert forall|i: int| 0 <= i < c.len() implies (#[trigger] c[i]).subset_of(a[i]) by {
        assert(c[i].subset_of(b[i]));
        assert(b[i].subset_of(a[i]));
    }
}

pub proof fn lemma_covers_push(big: Scopes, small: Scopes, x: Set<Seq<char>>, y: Set<Seq<char>>)
    requires
        covers(big, small),
        y.subset_of(x),
    ensures
        covers(big.push(x), small.push(y)),
{
    assert forall|i: int| 0 <= i < small.push(y).len() implies (#[trigger] small.push(y)[i]).subset_of(
        big.push(x)[i],
    ) by {
        if i < small.len() {
            assert(small[i].subset_of(big[i]));
        }
    }
}

pub proof fn lemma_covers_add(big: Scopes, small: Scopes, name: Seq<char>)
    requires
        covers(big, small),
    ensures
        covers(add_name(big, name), add_name(small, name)),
{
    assert forall|i: int| 0 <= i < small.len() implies (#[trigger] add_name(small, name)[i]).subset_of(
        add_name(big, name)[i],
    ) by {
        assert(small[i].subset_of(big[i]));
    }
}

pub proof fn lemma_covers_after(ast: AstView, big: Scopes, small: Scopes, s: usize)
    requires
        covers(big, small),
    ensures
        covers(after(ast, big, s), after(ast, small, s)),
{
    match declared(ast, s) {
        Some(name) => lemma_covers_add(big, small, name),
        None => {},
    }
}

/// As frames gain names and new frames are made, the scopes seen from a
/// frame keep what they held.
pub proof fn lemma_scopes_grow(env: EnvView, later: EnvView, frame: usize)
    requires
        grows(env, later),
        env.has(frame),
    ensures
        covers(scopes_of(later, frame), scopes_of(env, frame)),
    decreases frame,
{
    if frame != 0 {
        assert(later.frames[frame as int].parent == env.frames[frame as int].parent);
        match env.frames[frame as int].parent {
            Some(p) => {
                if p < frame {
                    lemma_scopes_grow(env, later, p);
                    lemma_covers_push(
                        scopes_of(later, p),
                        scopes_of(env, p),
                        later.frames[frame as int].bindings.dom(),
                        env.frames[frame as int].bindings.dom(),
                    );
                }
            },
            None => {},
        }
    }
}

/// A table that is sound for an expression in some scopes is sound for it
/// in scopes that hold more names.
pub proof fn lemma_sound_expr_mono(
    ast: AstView,
    locals: Map<usize, usize>,
    e: usize,
    small: Scopes,
    big: Scopes,
)
    requires
        covers(big, small),
        sound_expr(ast, locals, e, small),
    ensures
        sound_expr(ast, locals, e, big),
    decreases e, 1nat, 0nat,
{
    reveal(sound_expr);
    reveal(sound_exprs);
    if e < ast.exprs.len() {
        let node = ast.exprs[e as int];
        if locals.contains_key(e) && locals[e] < small.len() {
            assert(small[small.len() - 1 - locals[e]].subset_of(big[big.len() - 1 - locals[e]]));
        }
        match node {
            ExprView::Identifier(id) => {},
            ExprView::This(token) => {},
            ExprView::Super(keyword, _) => {
                if locals.contains_key(e) && locals[e] >= 1 {
                    let m = map![e => (locals[e] - 1) as usize];
                    assert(m[e] == (locals[e] - 1) as usize);
                    assert(small[small.len() - 1 - m[e]].subset_of(big[big.len() - 1 - m[e]]));
                }
            },
            _ => {
                lemma_sound_exprs_mono(ast, locals, e, node.children(), 0, small, big);
            },
        }
    }
}

pub proof fn lemma_sound_exprs_mono(
    ast: AstView,
    locals: Map<usize, usize>,
    parent: usize,
    list: Seq<usize>,
    i: nat,
    small: Scopes,
    big: Scopes,
)
    requires
        covers(big, small),
        sound_exprs(ast, locals, parent, list, i, small),
    ensures
        sound_exprs(ast, locals, parent, list, i, big),
    decreases parent, 0nat, list.len() - i,
{
    reveal(sound_expr);
    reveal(sound_exprs);
    if i < list.len() {
        lemma_sound_expr_mono(ast, locals, list[i as int], small, big);
        lemma_sound_exprs_mono(ast, locals, parent, list, i + 1, small, big);
    }
}

/// A table that is sound for a statement in some scopes is sound for it in
/// scopes that hold more names.
pub proof fn lemma_sound_stmt_mono(
    ast: AstView,
    locals: Map<usize, usize>,
    s: usize,
    small: Scopes,
    big: Scopes,
)
    requires
        covers(big, small),
        sound_stmt(ast, locals, s, small),
    ensures
        sound_stmt(ast, locals, s, big),
    decreases s, 1nat, 0nat,
{
    reveal(sound_stmt);
    reveal(sound_stmts);
    reveal(sound_methods);
    if s < ast.stmts.len() {
        match ast.stmts[s as int] {
            StmtView::Expression(e) => lemma_sound_expr_mono(ast, locals, e, small, big),
            StmtView::Print(e) => lemma_sound_expr_mono(ast, locals, e, small, big),
            StmtView::Declaration(_, init) => {
                if let Some(init) = init {
                    lemma_sound_expr_mono(ast, locals, init, small, big);
                }
            },
            StmtView::Block(body) => {
                lemma_covers_push(big, small, Set::empty(), Set::empty());
                lemma_sound_stmts_mono(
                    ast,
                    locals,
                    s,
                    body,
                    0,
                    small.push(Set::empty()),
                    big.push(Set::empty()),
                );
            },
            StmtView::If(cond, then_stmt, else_stmt) => {
                lemma_sound_expr_mono(ast, locals, cond, small, big);
                lemma_sound_stmt_mono(ast, locals, then_stmt, small, big);
                if let Some(else_stmt) = else_stmt {
                    lemma_sound_stmt_mono(ast, locals, else_stmt, small, big);
                }
            },
            StmtView::While(cond, body) => {
                lemma_sound_expr_mono(ast, locals, cond, small, big);
                lemma_sound_stmt_mono(ast, locals, body, small, big);
            },
            StmtView::Break(_) => {},
            StmtView::Function(name, params, body) => {
                lemma_covers_add(big, small, name.lexeme);
                lemma_covers_push(
                    add_name(big, name.lexeme),
                    add_name(small, name.lexeme),
                    param_names(params),
                    param_names(params),
                );
                lemma_sound_stmt_mono(
                    ast,
                    locals,
                    body,
                    add_name(small, name.lexeme).push(param_names(params)),
                    add_name(big, name.lexeme).push(param_names(params)),
                );
            },
            StmtView::Return(_, val) => {
                if let Some(val) = val {
                    lemma_sound_expr_mono(ast, locals, val, small, big);
                }
            },
            StmtView::Class(name, parent, methods) => {
                lemma_covers_add(big, small, name.lexeme);
                let b0 = add_name(big, name.lexeme);
                let s0 = add_name(small, name.lexeme);
                match parent {
                    Some(p) => {
                        lemma_sound_expr_mono(ast, locals, p, small, big);
                        lemma_covers_push(b0, s0, set!["super"@], set!["super"@]);
                        lemma_covers_push(
                            b0.push(set!["super"@]),
                            s0.push(set!["super"@]),
                            set!["this"@],
                            set!["this"@],
                        );
                        lemma_sound_methods_mono(
                            ast,
                            locals,
                            s,
                            methods,
                            0,
                            s0.push(set!["super"@]).push(set!["this"@]),
                            b0.push(set!["super"@]).push(set!["this"@]),
                        );
                    },
                    None => {
                        lemma_covers_push(b0, s0, set!["this"@], set!["this"@]);
                        lemma_sound_methods_mono(
                            ast,
                            locals,
                            s,
                            methods,
                            0,
                            s0.push(set!["this"@]),
                            b0.push(set!["this"@]),
                        );
                    },
                }
            },
        }
    }
}

pub proof fn lemma_sound_stmts_mono(
    ast: AstView,
    locals: Map<usize, usize>,
    parent: usize,
    list: Seq<usize>,
    i: nat,
    small: Scopes,
    big: Scopes,
)
    requires
        covers(big, small),
        sound_stmts(ast, locals, parent, list, i, small),
    ensures
        sound_stmts(ast, locals, parent, list, i, big),
    decreases parent, 0nat, list.len() - i,
{
    reveal(sound_stmt);
    reveal(sound_stmts);
    reveal(sound_methods);
    if i < list.len() {
        lemma_sound_stmt_mono(ast, locals, list[i as int], small, big);
        lemma_covers_after(ast, big, small, list[i as int]);
        lemma_sound_stmts_mono(
            ast,
            locals,
            parent,
            list,
            i + 1,
            after(ast, small, list[i as int]),
            after(ast, big, list[i as int]),
        );
    }
}

pub proof fn lemma_sound_method_mono(
    ast: AstView,
    locals: Map<usize, usize>,
    parent: usize,
    m: usize,
    small: Scopes,
    big: Scopes,
)
    requires
        covers(big, small),
        sound_method(ast, locals, parent, m, small),
    ensures
        sound_method(ast, locals, parent, m, big),
    decreases parent, 0nat, 0nat,
{
    reveal(sound_stmt);
    reveal(sound_stmts);
    reveal(sound_methods);
    if m < ast.stmts.len() {
        match ast.stmts[m as int] {
            StmtView::Function(_, params, body) => {
                lemma_covers_push(big, small, param_names(params), param_names(params));
                lemma_sound_stmt_mono(
                    ast,
                    locals,
                    body,
                    small.push(param_names(params)),
                    big.push(param_names(params)),
                );
            },
            _ => {},
        }
    }
}

pub proof fn lemma_sound_methods_mono(
    ast: AstView,
    locals: Map<usize, usize>,
    parent: usize,
    list: Seq<usize>,
    i: nat,
    small: Scopes,
    big: Scopes,
)
    requires
        covers(big, small),
        sound_methods(ast, locals, parent, list, i, small),
    ensures
        sound_methods(ast, locals, parent, list, i, big),
    decreases parent, 0nat, list.len() - i,
{
    reveal(sound_stmt);
    reveal(sound_stmts);
    reveal(sound_methods);
    if i < list.len() {
        lemma_sound_method_mono(ast, locals, parent, list[i as int], small, big);
        lemma_sound_methods_mono(ast, locals, parent, list, i + 1, small, big);
    }
}

/// The scope at depth `d` seen from a frame is the names of the frame `d`
/// parents up, and that frame is not the global one.
pub proof fn lemma_scope_at_depth(env: EnvView, frame: usize, d: nat)
    requires
        env.wf(),
        env.has(frame),
        d < scopes_of(env, frame).len(),
    ensures
        env.ancestor(frame, d) matches Some(f) && env.has(f) && f != 0 && scopes_of(
            env,
            frame,
        )[scopes_of(env, frame).len() - 1 - d] == env.frames[f as int].bindings.dom(),
    decreases d,
{
    assert(frame != 0);
    let p = env.frames[frame as int].parent->0;
    if d > 0 {
        lemma_scope_at_depth(env, p, (d - 1) as nat);
    }
}

} // verus!
