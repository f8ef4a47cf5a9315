//! Which nodes a piece of syntax is made of, and that resolving it writes
//! to the side table at those nodes only.

use vstd::prelude::*;
use crate::ast::AstView;
use crate::expr::ExprView;
use crate::resolver::ResolverView;
use crate::scoping::{
    sound_expr, sound_exprs, sound_method, sound_methods, sound_opt, sound_stmt, sound_stmts,
    Scopes,
};
use crate::stmt::StmtView;

verus! {

/// The nodes that the expression `e` is made of.
#[verifier::opaque]
pub open spec fn expr_nodes(ast: AstView, e: usize) -> Set<usize>
    decreases e, 1nat, 0nat,
{
    if e >= ast.exprs.len() {
        Set::empty()
    } else {
        list_nodes(ast, e, ast.exprs[e as int].children(), 0).insert(e)
    }
}

/// The nodes that the expressions `list[i..]`, operands of `parent`, are
/// made of.
#[verifier::opaque]
pub open spec fn list_nodes(ast: AstView, parent: usize, list: Seq<usize>, i: nat) -> Set<usize>
    decreases parent, 0nat, list.len() - i,
{
    if i >= list.len() {
        Set::empty()
    } else if list[i as int] >= parent {
        list_nodes(ast, parent, list, i + 1)
    } else {
        expr_nodes(ast, list[i as int]).union(list_nodes(ast, parent, list, i + 1))
    }
}

/// The expression nodes that the expressions `list[i..]` are made of.
pub open spec fn exprs_nodes(ast: AstView, list: Seq<usize>, i: nat) -> Set<usize>
    decreases list.len() - i,
{
    if i >= list.len() {
        Set::empty()
    } else {
        expr_nodes(ast, list[i as int]).union(exprs_nodes(ast, list, i + 1))
    }
}

/// The expression nodes that the statement `s` is made of.
#[verifier::opaque]
pub open spec fn stmt_nodes(ast: AstView, s: usize) -> Set<usize>
    decreases s, 1nat, 0nat,
{
    if s >= ast.stmts.len() {
        Set::empty()
    } else {
        exprs_nodes(ast, ast.stmts[s as int].exprs(), 0).union(
            stmts_nodes(ast, s, ast.stmts[s as int].stmts(), 0),
        )
    }
}

/// The expression nodes that the statements `list[i..]`, parts of
/// `parent`, are made of.
#[verifier::opaque]
pub open spec fn stmts_nodes(ast: AstView, parent: usize, list: Seq<usize>, i: nat) -> Set<usize>
    decreases parent, 0nat, list.len() - i,
{
    if i >= list.len() {
        Set::empty()
    } else if list[i as int] >= parent {
        stmts_nodes(ast, parent, list, i + 1)
    } else {
        stmt_nodes(ast, list[i as int]).union(stmts_nodes(ast, parent, list, i + 1))
    }
}

/// Two tables say the same of the node `k`.
pub open spec fn same_at(a: Map<usize, usize>, b: Map<usize, usize>, k: usize) -> bool {
    a.contains_key(k) == b.contains_key(k) && (a.contains_key(k) ==> a[k] == b[k])
}

/// Two tables say the same of every node in `nodes`.
pub open spec fn agree_on(a: Map<usize, usize>, b: Map<usize, usize>, nodes: Set<usize>) -> bool {
    forall|k: usize| nodes.contains(k) ==> #[trigger] same_at(a, b, k)
}

/// Two tables say the same of every node that is not in `nodes`.
pub open spec fn agree_off(a: Map<usize, usize>, b: Map<usize, usize>, nodes: Set<usize>) -> bool {
    forall|k: usize| !nodes.contains(k) ==> #[trigger] same_at(a, b, k)
}

/// An operand's nodes are among the nodes of the list it stands in.
pub proof fn lemma_list_member(ast: AstView, parent: usize, list: Seq<usize>, i: nat, k: int)
    requires
        i <= k < list.len(),
        list[k] < parent,
    ensures
        expr_nodes(ast, list[k]).subset_of(list_nodes(ast, parent, list, i)),
    decreases list.len() - i,
{
    reveal(expr_nodes);
    reveal(list_nodes);
    if i < k {
        lemma_list_member(ast, parent, list, i + 1, k);
    }
}

/// A node of a list of operands is a node of one of them.
pub proof fn lemma_list_nodes(ast: AstView, parent: usize, list: Seq<usize>, i: nat, n: usize)
    requires
        list_nodes(ast, parent, list, i).contains(n),
    ensures
        exists|k: int| i <= k < list.len() && list[k] < parent && #[trigger] expr_nodes(ast, list[k]).contains(n),
    decreases list.len() - i,
{
    reveal(expr_nodes);
    reveal(list_nodes);
    if i < list.len() {
        if list[i as int] < parent && expr_nodes(ast, list[i as int]).contains(n) {
            assert(expr_nodes(ast, list[i as int]).contains(n));
        } else {
            lemma_list_nodes(ast, parent, list, i + 1, n);
        }
    }
}

/// An expression's nodes are in the store, none comes after it, and it is
/// one of them.
pub proof fn lemma_expr_nodes(ast: AstView, e: usize)
    ensures
        forall|n: usize| #[trigger] expr_nodes(ast, e).contains(n) ==> n <= e && n < ast.exprs.len(),
        e < ast.exprs.len() ==> expr_nodes(ast, e).contains(e),
    decreases e, 1nat, 0nat,
{
    reveal(expr_nodes);
    reveal(list_nodes);
    if e < ast.exprs.len() {
        let list = ast.exprs[e as int].children();
        assert forall|n: usize| #[trigger] expr_nodes(ast, e).contains(n) implies n <= e && n
            < ast.exprs.len() by {
            if n != e {
                lemma_list_nodes(ast, e, list, 0, n);
                let k = choose|k: int|
                    0 <= k < list.len() && list[k] < e && #[trigger] expr_nodes(ast, list[k]).contains(n);
                lemma_expr_nodes(ast, list[k]);
            }
        }
    }
}

/// One of several expressions has its nodes among theirs.
pub proof fn lemma_exprs_member(ast: AstView, list: Seq<usize>, i: nat, k: int)
    requires
        i <= k < list.len(),
    ensures
        expr_nodes(ast, list[k]).subset_of(exprs_nodes(ast, list, i)),
    decreases list.len() - i,
{
    if i < k {
        lemma_exprs_member(ast, list, i + 1, k);
    }
}

/// A part's nodes are among the nodes of the list of parts it stands in.
pub proof fn lemma_stmts_member(ast: AstView, parent: usize, list: Seq<usize>, i: nat, k: int)
    requires
        i <= k < list.len(),
        list[k] < parent,
    ensures
        stmt_nodes(ast, list[k]).subset_of(stmts_nodes(ast, parent, list, i)),
    decreases list.len() - i,
{
    reveal(stmt_nodes);
    reveal(stmts_nodes);
    if i < k {
        lemma_stmts_member(ast, parent, list, i + 1, k);
    }
}

/// An expression that a statement holds directly has its nodes among the
/// statement's.
pub proof fn lemma_stmt_holds_expr(ast: AstView, s: usize, k: int)
    requires
        s < ast.stmts.len(),
        0 <= k < ast.stmts[s as int].exprs().len(),
    ensures
        expr_nodes(ast, ast.stmts[s as int].exprs()[k]).subset_of(stmt_nodes(ast, s)),
{
    reveal(stmt_nodes);
    lemma_exprs_member(ast, ast.stmts[s as int].exprs(), 0, k);
}

/// A statement that a statement holds directly has its nodes among the
/// statement's.
pub proof fn lemma_stmt_holds_stmt(ast: AstView, s: usize, k: int)
    requires
        s < ast.stmts.len(),
        0 <= k < ast.stmts[s as int].stmts().len(),
        ast.stmts[s as int].stmts()[k] < s,
    ensures
        stmt_nodes(ast, ast.stmts[s as int].stmts()[k]).subset_of(stmt_nodes(ast, s)),
{
    reveal(stmt_nodes);
    reveal(stmts_nodes);
    lemma_stmts_member(ast, s, ast.stmts[s as int].stmts(), 0, k);
}

/// Whether a table is sound for an expression hangs on what it says of the
/// expression's nodes, and on nothing else.
pub proof fn lemma_sound_expr_local(
    ast: AstView,
    a: Map<usize, usize>,
    b: Map<usize, usize>,
    e: usize,
    scopes: Scopes,
)
    requires
        agree_on(a, b, expr_nodes(ast, e)),
        sound_expr(ast, a, e, scopes),
    ensures
        sound_expr(ast, b, e, scopes),
    decreases e, 1nat, 0nat,
{
    reveal(sound_expr);
    reveal(sound_exprs);
    reveal(expr_nodes);
    reveal(list_nodes);
    lemma_expr_nodes(ast, e);
    assert(same_at(a, b, e));
    match ast.exprs[e as int] {
        ExprView::Identifier(_) => {},
        ExprView::This(_) => {},
        ExprView::Super(_, _) => {},
        _ => {
            lemma_sound_exprs_local(ast, a, b, e, ast.exprs[e as int].children(), 0, scopes);
        },
    }
}

pub proof fn lemma_sound_exprs_local(
    ast: AstView,
    a: Map<usize, usize>,
    b: Map<usize, usize>,
    parent: usize,
    list: Seq<usize>,
    i: nat,
    scopes: Scopes,
)
    requires
        agree_on(a, b, list_nodes(ast, parent, list, i)),
        sound_exprs(ast, a, parent, list, i, scopes),
    ensures
        sound_exprs(ast, b, parent, list, i, scopes),
    decreases parent, 0nat, list.len() - i,
{
    reveal(sound_expr);
    reveal(sound_exprs);
    reveal(expr_nodes);
    reveal(list_nodes);
    if i < list.len() {
        lemma_sound_expr_local(ast, a, b, list[i as int], scopes);
        lemma_sound_exprs_local(ast, a, b, parent, list, i + 1, scopes);
    }
}


pub proof fn lemma_agree_on_part(
    a: Map<usize, usize>,
    b: Map<usize, usize>,
    whole: Set<usize>,
    part: Set<usize>,
)
    requires
        agree_on(a, b, whole),
        part.subset_of(whole),
    ensures
        agree_on(a, b, part),
{
    assert forall|k: usize| part.contains(k) implies #[trigger] same_at(a, b, k) by {
        assert(whole.contains(k));
    }
}

pub proof fn lemma_agree_off_more(
    a: Map<usize, usize>,
    b: Map<usize, usize>,
    part: Set<usize>,
    whole: Set<usize>,
)
    requires
        agree_off(a, b, part),
        part.subset_of(whole),
    ensures
        agree_off(a, b, whole),
{
    assert forall|k: usize| !whole.contains(k) implies #[trigger] same_at(a, b, k) by {
        assert(!part.contains(k));
    }
}

pub proof fn lemma_agree_off_trans(
    a: Map<usize, usize>,
    b: Map<usize, usize>,
    c: Map<usize, usize>,
    nodes: Set<usize>,
)
    requires
        agree_off(a, b, nodes),
        agree_off(b, c, nodes),
    ensures
        agree_off(a, c, nodes),
{
    assert forall|k: usize| !nodes.contains(k) implies #[trigger] same_at(a, c, k) by {
        assert(same_at(a, b, k));
        assert(same_at(b, c, k));
    }
}

/// Tables that differ only at some nodes agree on any nodes apart from
/// those.
pub proof fn lemma_agree_apart(
    a: Map<usize, usize>,
    b: Map<usize, usize>,
    written: Set<usize>,
    read: Set<usize>,
)
    requires
        agree_off(a, b, written),
        written.disjoint(read),
    ensures
        agree_on(a, b, read),
{
    assert forall|k: usize| read.contains(k) implies #[trigger] same_at(a, b, k) by {
        assert(!written.contains(k));
    }
}

/// The nodes of a statement's parts are among the statement's nodes.
pub proof fn lemma_stmt_parts(ast: AstView, s: usize)
    requires
        s < ast.stmts.len(),
    ensures
        exprs_nodes(ast, ast.stmts[s as int].exprs(), 0).subset_of(stmt_nodes(ast, s)),
        stmts_nodes(ast, s, ast.stmts[s as int].stmts(), 0).subset_of(stmt_nodes(ast, s)),
{
    reveal(stmt_nodes);
    reveal(stmts_nodes);
}

pub proof fn lemma_sound_opt_local(
    ast: AstView,
    a: Map<usize, usize>,
    b: Map<usize, usize>,
    s: usize,
    e: Option<usize>,
    scopes: Scopes,
)
    requires
        agree_on(a, b, stmt_nodes(ast, s)),
        s < ast.stmts.len(),
        e matches Some(x) ==> ast.stmts[s as int].exprs().len() > 0 && ast.stmts[s as int].exprs()[0]
            == x,
        sound_opt(ast, a, e, scopes),
    ensures
        sound_opt(ast, b, e, scopes),
{
    match e {
        Some(x) => {
            lemma_stmt_holds_expr(ast, s, 0);
            lemma_agree_on_part(a, b, stmt_nodes(ast, s), expr_nodes(ast, x));
            lemma_sound_expr_local(ast, a, b, x, scopes);
        },
        None => {},
    }
}

/// Whether a table is sound for a statement hangs on what it says of the
/// statement's nodes, and on nothing else.
pub proof fn lemma_sound_stmt_local(
    ast: AstView,
    a: Map<usize, usize>,
    b: Map<usize, usize>,
    s: usize,
    scopes: Scopes,
)
    requires
        ast.wf(),
        agree_on(a, b, stmt_nodes(ast, s)),
        sound_stmt(ast, a, s, scopes),
    ensures
        sound_stmt(ast, b, s, scopes),
    decreases s, 1nat, 0nat,
{
    reveal(sound_stmt);
    reveal(sound_stmts);
    reveal(sound_methods);
    let node = ast.stmts[s as int];
    assert(node.wf(s as int, ast.exprs.len() as int));
    match node {
        StmtView::Expression(e) => lemma_sound_opt_local(ast, a, b, s, Some(e), scopes),
        StmtView::Print(e) => lemma_sound_opt_local(ast, a, b, s, Some(e), scopes),
        StmtView::Declaration(_, init) => lemma_sound_opt_local(ast, a, b, s, init, scopes),
        StmtView::Block(body) => {
            lemma_stmt_parts(ast, s);
            lemma_agree_on_part(a, b, stmt_nodes(ast, s), stmts_nodes(ast, s, body, 0));
            lemma_sound_stmts_local(ast, a, b, s, body, 0, scopes.push(Set::empty()));
        },
        StmtView::If(cond, then_stmt, else_stmt) => {
            lemma_sound_opt_local(ast, a, b, s, Some(cond), scopes);
            assert(node.stmts()[0] == then_stmt);
            lemma_stmt_holds_stmt(ast, s, 0);
            lemma_agree_on_part(a, b, stmt_nodes(ast, s), stmt_nodes(ast, then_stmt));
            lemma_sound_stmt_local(ast, a, b, then_stmt, scopes);
            if let Some(else_stmt) = else_stmt {
                assert(node.stmts()[1] == else_stmt);
                lemma_stmt_holds_stmt(ast, s, 1);
                lemma_agree_on_part(a, b, stmt_nodes(ast, s), stmt_nodes(ast, else_stmt));
                lemma_sound_stmt_local(ast, a, b, else_stmt, scopes);
            }
        },
        StmtView::While(cond, body) => {
            lemma_sound_opt_local(ast, a, b, s, Some(cond), scopes);
            assert(node.stmts()[0] == body);
            lemma_stmt_holds_stmt(ast, s, 0);
            lemma_agree_on_part(a, b, stmt_nodes(ast, s), stmt_nodes(ast, body));
            lemma_sound_stmt_local(ast, a, b, body, scopes);
        },
        StmtView::Break(_) => {},
        StmtView::Function(name, params, body) => {
            assert(node.stmts()[0] == body);
            lemma_stmt_holds_stmt(ast, s, 0);
            lemma_agree_on_part(a, b, stmt_nodes(ast, s), stmt_nodes(ast, body));
            lemma_sound_stmt_local(
                ast,
                a,
                b,
                body,
                crate::scoping::add_name(scopes, name.lexeme).push(
                    crate::scoping::param_names(params),
                ),
            );
        },
        StmtView::Return(_, val) => lemma_sound_opt_local(ast, a, b, s, val, scopes),
        StmtView::Class(name, parent, methods) => {
            let outer = crate::scoping::add_name(scopes, name.lexeme);
            lemma_stmt_parts(ast, s);
            lemma_agree_on_part(a, b, stmt_nodes(ast, s), stmts_nodes(ast, s, methods, 0));
            match parent {
                Some(p) => {
                    lemma_sound_opt_local(ast, a, b, s, Some(p), scopes);
                    lemma_sound_methods_local(
                        ast,
                        a,
                        b,
                        s,
                        methods,
                        0,
                        outer.push(set!["super"@]).push(set!["this"@]),
                    );
                },
                None => {
                    lemma_sound_methods_local(ast, a, b, s, methods, 0, outer.push(set!["this"@]));
                },
            }
        },
    }
}

pub proof fn lemma_sound_stmts_local(
    ast: AstView,
    a: Map<usize, usize>,
    b: Map<usize, usize>,
    parent: usize,
    list: Seq<usize>,
    i: nat,
    scopes: Scopes,
)
    requires
        ast.wf(),
        agree_on(a, b, stmts_nodes(ast, parent, list, i)),
        sound_stmts(ast, a, parent, list, i, scopes),
    ensures
        sound_stmts(ast, b, parent, list, i, scopes),
    decreases parent, 0nat, list.len() - i,
{
    reveal(sound_stmt);
    reveal(sound_stmts);
    reveal(sound_methods);
    reveal(stmt_nodes);
    reveal(stmts_nodes);
    if i < list.len() {
        lemma_agree_on_part(
            a,
            b,
            stmts_nodes(ast, parent, list, i),
            stmt_nodes(ast, list[i as int]),
        );
        lemma_agree_on_part(
            a,
            b,
            stmts_nodes(ast, parent, list, i),
            stmts_nodes(ast, parent, list, i + 1),
        );
        lemma_sound_stmt_local(ast, a, b, list[i as int], scopes);
        lemma_sound_stmts_local(
            ast,
            a,
            b,
            parent,
            list,
            i + 1,
            crate::scoping::after(ast, scopes, list[i as int]),
        );
    }
}

pub proof fn lemma_sound_method_local(
    ast: AstView,
    a: Map<usize, usize>,
    b: Map<usize, usize>,
    parent: usize,
    m: usize,
    scopes: Scopes,
)
    requires
        ast.wf(),
        m < parent,
        agree_on(a, b, stmt_nodes(ast, m)),
        sound_method(ast, a, parent, m, scopes),
    ensures
        sound_method(ast, b, parent, m, scopes),
    decreases parent, 0nat, 0nat,
{
    reveal(sound_stmt);
    reveal(sound_stmts);
    reveal(sound_methods);
    if m < ast.stmts.len() {
        assert(ast.stmts[m as int].wf(m as int, ast.exprs.len() as int));
        match ast.stmts[m as int] {
            StmtView::Function(_, params, body) => {
                assert(ast.stmts[m as int].stmts()[0] == body);
                lemma_stmt_holds_stmt(ast, m, 0);
                lemma_agree_on_part(a, b, stmt_nodes(ast, m), stmt_nodes(ast, body));
                assert(sound_stmt(ast, a, body, scopes.push(crate::scoping::param_names(params))));
                lemma_sound_stmt_local(
                    ast,
                    a,
                    b,
                    body,
                    scopes.push(crate::scoping::param_names(params)),
                );
            },
            _ => {},
        }
    }
}

pub proof fn lemma_sound_methods_local(
    ast: AstView,
    a: Map<usize, usize>,
    b: Map<usize, usize>,
    parent: usize,
    list: Seq<usize>,
    i: nat,
    scopes: Scopes,
)
    requires
        ast.wf(),
        agree_on(a, b, stmts_nodes(ast, parent, list, i)),
        sound_methods(ast, a, parent, list, i, scopes),
    ensures
        sound_methods(ast, b, parent, list, i, scopes),
    decreases parent, 0nat, list.len() - i,
{
    reveal(sound_stmt);
    reveal(sound_stmts);
    reveal(sound_methods);
    reveal(stmt_nodes);
    reveal(stmts_nodes);
    if i < list.len() {
        let m = list[i as int];
        lemma_agree_on_part(a, b, stmts_nodes(ast, parent, list, i), stmt_nodes(ast, m));
        lemma_agree_on_part(
            a,
            b,
            stmts_nodes(ast, parent, list, i),
            stmts_nodes(ast, parent, list, i + 1),
        );
        lemma_sound_method_local(ast, a, b, parent, m, scopes);
        lemma_sound_methods_local(ast, a, b, parent, list, i + 1, scopes);
    }
}

/// Resolving an expression changes nothing of the resolver but the side
/// table, and that at the nodes of the expression only.
pub proof fn lemma_expr_frame(ast: AstView, r: ResolverView, e: usize)
    ensures
        r.expr(ast, e).0 == (ResolverView { locals: r.expr(ast, e).0.locals, ..r }),
        agree_off(r.locals, r.expr(ast, e).0.locals, expr_nodes(ast, e)),
    decreases e, 1nat, 0nat,
{
    reveal(ResolverView::expr);
    reveal(ResolverView::exprs);
    reveal(expr_nodes);
    reveal(list_nodes);
    if e < ast.exprs.len() {
        let node = ast.exprs[e as int];
        lemma_expr_nodes(ast, e);
        let after = r.expr(ast, e).0.locals;
        match node {
            ExprView::Identifier(_) => {},
            ExprView::Literal(_) => {},
            ExprView::This(_) => {},
            ExprView::Super(_, _) => {},
            ExprView::Logical(lhs, _, rhs) => {
                assert(seq![lhs, rhs] =~= node.children());
                lemma_exprs_frame(ast, r, e, node.children(), 0);
            },
            ExprView::Binary(lhs, _, rhs) => {
                assert(seq![lhs, rhs] =~= node.children());
                lemma_exprs_frame(ast, r, e, node.children(), 0);
            },
            ExprView::Grouping(inner) => {
                assert(seq![inner] =~= node.children());
                lemma_exprs_frame(ast, r, e, node.children(), 0);
            },
            ExprView::Unary(_, rhs) => {
                assert(seq![rhs] =~= node.children());
                lemma_exprs_frame(ast, r, e, node.children(), 0);
            },
            ExprView::Assignment(_, val) => {
                assert(seq![val] =~= node.children());
                lemma_exprs_frame(ast, r, e, node.children(), 0);
            },
            ExprView::Call(callee, _, args) => {
                lemma_exprs_frame(ast, r, e, node.children(), 0);
            },
            ExprView::Get(object, _) => {
                assert(seq![object] =~= node.children());
                lemma_exprs_frame(ast, r, e, node.children(), 0);
            },
            ExprView::SetField(object, _, val) => {
                let list = seq![val, object];
                lemma_exprs_frame(ast, r, e, list, 0);
                assert(list_nodes(ast, e, list, 0).subset_of(expr_nodes(ast, e))) by {
                    assert forall|n: usize| list_nodes(ast, e, list, 0).contains(n) implies expr_nodes(
                        ast,
                        e,
                    ).contains(n) by {
                        lemma_list_nodes(ast, e, list, 0, n);
                        let k = choose|k: int|
                            0 <= k < list.len() && list[k] < e && #[trigger] expr_nodes(
                                ast,
                                list[k],
                            ).contains(n);
                        let j = if k == 0 {
                            1int
                        } else {
                            0int
                        };
                        assert(node.children()[j] == list[k]);
                        lemma_list_member(ast, e, node.children(), 0, j);
                    }
                }
                lemma_agree_off_more(
                    r.locals,
                    after,
                    list_nodes(ast, e, list, 0),
                    expr_nodes(ast, e),
                );
            },
        }
        let mid = r.exprs(ast, e, node.children(), 0).0.locals;
        assert forall|k: usize| !expr_nodes(ast, e).contains(k) implies #[trigger] same_at(
            r.locals,
            after,
            k,
        ) by {
            assert(k != e);
            assert(!list_nodes(ast, e, node.children(), 0).contains(k));
            match node {
                ExprView::Identifier(_) => {},
                ExprView::Literal(_) => {},
                ExprView::This(_) => {},
                ExprView::Super(_, _) => {},
                ExprView::SetField(_, _, _) => {},
                _ => {
                    assert(same_at(r.locals, mid, k));
                },
            }
        }
    }
}

pub proof fn lemma_exprs_frame(ast: AstView, r: ResolverView, parent: usize, list: Seq<usize>, i: nat)
    ensures
        r.exprs(ast, parent, list, i).0 == (ResolverView {
            locals: r.exprs(ast, parent, list, i).0.locals,
            ..r
        }),
        agree_off(r.locals, r.exprs(ast, parent, list, i).0.locals, list_nodes(ast, parent, list, i)),
    decreases parent, 0nat, list.len() - i,
{
    reveal(ResolverView::expr);
    reveal(ResolverView::exprs);
    reveal(expr_nodes);
    reveal(list_nodes);
    if i < list.len() && list[i as int] < parent {
        let (r1, res) = r.expr(ast, list[i as int]);
        lemma_expr_frame(ast, r, list[i as int]);
        lemma_agree_off_more(
            r.locals,
            r1.locals,
            expr_nodes(ast, list[i as int]),
            list_nodes(ast, parent, list, i),
        );
        if res is Ok {
            lemma_exprs_frame(ast, r1, parent, list, i + 1);
            let r2 = r1.exprs(ast, parent, list, i + 1).0;
            lemma_agree_off_more(
                r1.locals,
                r2.locals,
                list_nodes(ast, parent, list, i + 1),
                list_nodes(ast, parent, list, i),
            );
            lemma_agree_off_trans(r.locals, r1.locals, r2.locals, list_nodes(ast, parent, list, i));
        }
    }
}


/// Declaring parameters leaves the side table as it is.
pub proof fn lemma_params_frame(r: ResolverView, list: Seq<crate::tokens::TokenView>, i: nat)
    ensures
        r.params(list, i).0.locals == r.locals,
    decreases list.len() - i,
{
    if i < list.len() {
        let (r1, res) = r.declare(list[i as int]);
        if res is Ok {
            lemma_params_frame(r1.define(list[i as int]), list, i + 1);
        }
    }
}

/// A node of a list of parts is a node of one of them.
pub proof fn lemma_stmts_nodes(ast: AstView, parent: usize, list: Seq<usize>, i: nat, n: usize)
    requires
        stmts_nodes(ast, parent, list, i).contains(n),
    ensures
        exists|k: int|
            i <= k < list.len() && list[k] < parent && #[trigger] stmt_nodes(ast, list[k]).contains(n),
    decreases list.len() - i,
{
    reveal(stmt_nodes);
    reveal(stmts_nodes);
    if i < list.len() {
        if list[i as int] < parent && stmt_nodes(ast, list[i as int]).contains(n) {
            assert(stmt_nodes(ast, list[i as int]).contains(n));
        } else {
            lemma_stmts_nodes(ast, parent, list, i + 1, n);
        }
    }
}

/// Resolving a statement writes to the side table at the nodes of the
/// statement only.
pub proof fn lemma_stmt_frame(ast: AstView, r: ResolverView, s: usize)
    requires
        ast.wf(),
    ensures
        agree_off(r.locals, r.stmt(ast, s).0.locals, stmt_nodes(ast, s)),
    decreases s, 1nat, 0nat,
{
    reveal(ResolverView::stmt);
    reveal(ResolverView::stmts);
    reveal(ResolverView::function);
    reveal(ResolverView::methods);
    reveal(ResolverView::visit_class);
    if s < ast.stmts.len() {
        let node = ast.stmts[s as int];
        let whole = stmt_nodes(ast, s);
        let after = r.stmt(ast, s).0.locals;
        assert(node.wf(s as int, ast.exprs.len() as int));
        lemma_stmt_parts(ast, s);
        match node {
            StmtView::Expression(e) => {
                lemma_stmt_holds_expr(ast, s, 0);
                lemma_expr_frame(ast, r, e);
                lemma_agree_off_more(r.locals, after, expr_nodes(ast, e), whole);
            },
            StmtView::Print(e) => {
                lemma_stmt_holds_expr(ast, s, 0);
                lemma_expr_frame(ast, r, e);
                lemma_agree_off_more(r.locals, after, expr_nodes(ast, e), whole);
            },
            StmtView::Declaration(id, init) => {
                let r1 = r.declare(id).0;
                match init {
                    Some(e) => {
                        lemma_stmt_holds_expr(ast, s, 0);
                        lemma_expr_frame(ast, r1, e);
                        lemma_agree_off_more(
                            r1.locals,
                            r1.expr(ast, e).0.locals,
                            expr_nodes(ast, e),
                            whole,
                        );
                    },
                    None => {},
                }
            },
            StmtView::Block(body) => {
                lemma_stmts_frame(ast, r.begin_scope(), s, body, 0);
                lemma_agree_off_more(r.locals, after, stmts_nodes(ast, s, body, 0), whole);
            },
            StmtView::If(cond, then_stmt, else_stmt) => {
                lemma_stmt_holds_expr(ast, s, 0);
                lemma_expr_frame(ast, r, cond);
                let r1 = r.expr(ast, cond).0;
                lemma_agree_off_more(r.locals, r1.locals, expr_nodes(ast, cond), whole);
                let branches = match else_stmt {
                    Some(else_stmt) => seq![then_stmt, else_stmt],
                    None => seq![then_stmt],
                };
                assert(branches =~= node.stmts());
                lemma_stmts_frame(ast, r1, s, branches, 0);
                let r2 = r1.stmts(ast, s, branches, 0).0;
                lemma_agree_off_more(r1.locals, r2.locals, stmts_nodes(ast, s, branches, 0), whole);
                lemma_agree_off_trans(r.locals, r1.locals, r2.locals, whole);
            },
            StmtView::While(cond, body) => {
                let inside = ResolverView { loop_depth: r.loop_depth + 1, ..r };
                lemma_stmt_holds_expr(ast, s, 0);
                lemma_expr_frame(ast, inside, cond);
                let r1 = inside.expr(ast, cond).0;
                lemma_agree_off_more(r.locals, r1.locals, expr_nodes(ast, cond), whole);
                assert(seq![body] =~= node.stmts());
                lemma_stmts_frame(ast, r1, s, seq![body], 0);
                let r2 = r1.stmts(ast, s, seq![body], 0).0;
                lemma_agree_off_more(r1.locals, r2.locals, stmts_nodes(ast, s, seq![body], 0), whole);
                lemma_agree_off_trans(r.locals, r1.locals, r2.locals, whole);
            },
            StmtView::Break(_) => {},
            StmtView::Function(name, params, body) => {
                let r1 = r.declare(name).0;
                assert(node.stmts()[0] == body);
                lemma_stmt_holds_stmt(ast, s, 0);
                lemma_function_frame(ast, r1.define(name), s, params, body, crate::functions::FunctionType::Function);
                lemma_agree_off_more(
                    r.locals,
                    r1.define(name).function(
                        ast,
                        s,
                        params,
                        body,
                        crate::functions::FunctionType::Function,
                    ).0.locals,
                    stmt_nodes(ast, body),
                    whole,
                );
            },
            StmtView::Return(_, val) => {
                match val {
                    Some(e) => {
                        lemma_stmt_holds_expr(ast, s, 0);
                        lemma_expr_frame(ast, r, e);
                        lemma_agree_off_more(r.locals, after, expr_nodes(ast, e), whole);
                    },
                    None => {},
                }
            },
            StmtView::Class(name, parent, methods) => {
                lemma_class_frame(ast, r, s, name, parent, methods);
            },
        }
    }
}

pub proof fn lemma_stmts_frame(ast: AstView, r: ResolverView, parent: usize, list: Seq<usize>, i: nat)
    requires
        ast.wf(),
    ensures
        agree_off(r.locals, r.stmts(ast, parent, list, i).0.locals, stmts_nodes(ast, parent, list, i)),
    decreases parent, 0nat, list.len() - i,
{
    reveal(ResolverView::stmt);
    reveal(ResolverView::stmts);
    reveal(ResolverView::function);
    reveal(ResolverView::methods);
    reveal(ResolverView::visit_class);
    reveal(stmt_nodes);
    reveal(stmts_nodes);
    if i < list.len() && list[i as int] < parent {
        let whole = stmts_nodes(ast, parent, list, i);
        let (r1, res) = r.stmt(ast, list[i as int]);
        lemma_stmt_frame(ast, r, list[i as int]);
        lemma_agree_off_more(r.locals, r1.locals, stmt_nodes(ast, list[i as int]), whole);
        if res is Ok {
            lemma_stmts_frame(ast, r1, parent, list, i + 1);
            let r2 = r1.stmts(ast, parent, list, i + 1).0;
            lemma_agree_off_more(r1.locals, r2.locals, stmts_nodes(ast, parent, list, i + 1), whole);
            lemma_agree_off_trans(r.locals, r1.locals, r2.locals, whole);
        }
    }
}

pub proof fn lemma_function_frame(
    ast: AstView,
    r: ResolverView,
    parent: usize,
    params: Seq<crate::tokens::TokenView>,
    body: usize,
    kind: crate::functions::FunctionType,
)
    requires
        ast.wf(),
    ensures
        agree_off(
            r.locals,
            r.function(ast, parent, params, body, kind).0.locals,
            stmt_nodes(ast, body),
        ),
    decreases parent, 0nat, 0nat,
{
    reveal(ResolverView::stmt);
    reveal(ResolverView::stmts);
    reveal(ResolverView::function);
    reveal(ResolverView::methods);
    reveal(ResolverView::visit_class);
    let inside = ResolverView { current_func: kind, ..r }.begin_scope();
    lemma_params_frame(inside, params, 0);
    let (r1, declared) = inside.params(params, 0);
    if declared is Ok && body < parent {
        lemma_stmt_frame(ast, r1, body);
    }
}

pub proof fn lemma_methods_frame(ast: AstView, r: ResolverView, parent: usize, list: Seq<usize>, i: nat)
    requires
        ast.wf(),
    ensures
        agree_off(r.locals, r.methods(ast, parent, list, i).0.locals, stmts_nodes(ast, parent, list, i)),
    decreases parent, 0nat, list.len() - i,
{
    reveal(ResolverView::stmt);
    reveal(ResolverView::stmts);
    reveal(ResolverView::function);
    reveal(ResolverView::methods);
    reveal(ResolverView::visit_class);
    reveal(stmt_nodes);
    reveal(stmts_nodes);
    if i < list.len() && list[i as int] < parent && list[i as int] < ast.stmts.len() {
        let m = list[i as int];
        let whole = stmts_nodes(ast, parent, list, i);
        assert(ast.stmts[m as int].wf(m as int, ast.exprs.len() as int));
        match ast.stmts[m as int] {
            StmtView::Function(name, params, body) => {
                let kind = if name.lexeme == "init"@ {
                    crate::functions::FunctionType::Initializer
                } else {
                    crate::functions::FunctionType::Method
                };
                let (r1, res) = r.function(ast, parent, params, body, kind);
                lemma_function_frame(ast, r, parent, params, body, kind);
                assert(ast.stmts[m as int].stmts()[0] == body);
                lemma_stmt_holds_stmt(ast, m, 0);
                lemma_agree_off_more(r.locals, r1.locals, stmt_nodes(ast, body), stmt_nodes(ast, m));
                lemma_agree_off_more(r.locals, r1.locals, stmt_nodes(ast, m), whole);
                if res is Ok {
                    lemma_methods_frame(ast, r1, parent, list, i + 1);
                    let r2 = r1.methods(ast, parent, list, i + 1).0;
                    lemma_agree_off_more(
                        r1.locals,
                        r2.locals,
                        stmts_nodes(ast, parent, list, i + 1),
                        whole,
                    );
                    lemma_agree_off_trans(r.locals, r1.locals, r2.locals, whole);
                }
            },
            _ => {},
        }
    }
}

pub proof fn lemma_class_frame(
    ast: AstView,
    r: ResolverView,
    s: usize,
    name: crate::tokens::TokenView,
    parent: Option<usize>,
    methods: Seq<usize>,
)
    requires
        ast.wf(),
        s < ast.stmts.len(),
        ast.stmts[s as int] == StmtView::Class(name, parent, methods),
    ensures
        agree_off(
            r.locals,
            r.visit_class(ast, s, name, parent, methods).0.locals,
            stmt_nodes(ast, s),
        ),
    decreases s, 0nat, methods.len() + 1,
{
    reveal(ResolverView::stmt);
    reveal(ResolverView::stmts);
    reveal(ResolverView::function);
    reveal(ResolverView::methods);
    reveal(ResolverView::visit_class);
    let whole = stmt_nodes(ast, s);
    let node = ast.stmts[s as int];
    lemma_stmt_parts(ast, s);
    let (r1, declared) = r.declare(name);
    let r2 = r1.define(name);
    if declared is Ok {
        match parent {
            Some(p) => {
                let r3 = ResolverView { current_class: crate::class::ClassType::Subclass, ..r2 };
                let (r4, res) = r3.expr(ast, p);
                let r5 = r4.begin_scope().put("super"@, true).begin_scope().put("this"@, true);
                let (r6, done) = r5.methods(ast, s, methods, 0);
                assert(node.exprs()[0] == p);
                lemma_stmt_holds_expr(ast, s, 0);
                lemma_expr_frame(ast, r3, p);
                lemma_agree_off_more(r.locals, r4.locals, expr_nodes(ast, p), whole);
                lemma_methods_frame(ast, r5, s, methods, 0);
                lemma_agree_off_more(r4.locals, r6.locals, stmts_nodes(ast, s, methods, 0), whole);
                lemma_agree_off_trans(r.locals, r4.locals, r6.locals, whole);
            },
            None => {
                let r3 = ResolverView { current_class: crate::class::ClassType::Class, ..r2 };
                let r5 = r3.begin_scope().put("this"@, true);
                lemma_methods_frame(ast, r5, s, methods, 0);
                lemma_agree_off_more(
                    r.locals,
                    r5.methods(ast, s, methods, 0).0.locals,
                    stmts_nodes(ast, s, methods, 0),
                    whole,
                );
            },
        }
    }
}


/// The nodes of several expressions are in the store.
pub proof fn lemma_exprs_nodes_stored(ast: AstView, list: Seq<usize>, i: nat)
    ensures
        forall|n: usize| #[trigger] exprs_nodes(ast, list, i).contains(n) ==> n < ast.exprs.len(),
    decreases list.len() - i,
{
    if i < list.len() {
        lemma_expr_nodes(ast, list[i as int]);
        lemma_exprs_nodes_stored(ast, list, i + 1);
        assert forall|n: usize| #[trigger] exprs_nodes(ast, list, i).contains(n) implies n
            < ast.exprs.len() by {
            if !expr_nodes(ast, list[i as int]).contains(n) {
                assert(exprs_nodes(ast, list, i + 1).contains(n));
            }
        }
    }
}

/// The nodes of a statement are in the store.
pub proof fn lemma_stmt_nodes_stored(ast: AstView, s: usize)
    ensures
        forall|n: usize| #[trigger] stmt_nodes(ast, s).contains(n) ==> n < ast.exprs.len(),
    decreases s, 1nat, 0nat,
{
    reveal(stmt_nodes);
    reveal(stmts_nodes);
    if s < ast.stmts.len() {
        let node = ast.stmts[s as int];
        lemma_exprs_nodes_stored(ast, node.exprs(), 0);
        assert forall|n: usize| #[trigger] stmt_nodes(ast, s).contains(n) implies n
            < ast.exprs.len() by {
            if !exprs_nodes(ast, node.exprs(), 0).contains(n) {
                lemma_stmts_nodes(ast, s, node.stmts(), 0, n);
                let k = choose|k: int|
                    0 <= k < node.stmts().len() && node.stmts()[k] < s && #[trigger] stmt_nodes(
                        ast,
                        node.stmts()[k],
                    ).contains(n);
                lemma_stmt_nodes_stored(ast, node.stmts()[k]);
            }
        }
    }
}

} // verus!
