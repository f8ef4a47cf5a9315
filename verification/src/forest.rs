//! The syntax store is a forest.
//!
//! The parser stores the nodes of a piece of syntax one after the other and
//! stores a node after its parts. So the nodes of one piece lie in a
//! stretch of the store that the nodes of no other piece lie in, and no
//! node is a part of two others. Here is what it takes to add a node to a
//! forest and have a forest still.

use vstd::prelude::*;
use crate::ast::AstView;
use crate::expr::ExprView;
use crate::footprint::{
    expr_nodes, exprs_nodes, lemma_expr_nodes, lemma_list_member, lemma_list_nodes,
    lemma_stmt_nodes_stored, lemma_stmts_nodes, list_nodes, stmt_nodes, stmts_nodes,
};
use crate::resolution::{
    named, named_expr, named_stmt, operands_apart, parts_apart, spelled, tree,
};
use crate::stmt::StmtView;

verus! {

/// The operands of the node `node` share no node.
pub open spec fn operands_apart_of(ast: AstView, node: ExprView) -> bool {
    forall|i: int, j: int|
        0 <= i < j < node.children().len() ==> #[trigger] expr_nodes(ast, node.children()[i]).disjoint(
            #[trigger] expr_nodes(ast, node.children()[j]),
        )
}

/// The parts of the node `node` share no node.
pub open spec fn parts_apart_of(ast: AstView, node: StmtView) -> bool {
    &&& forall|i: int, j: int|
        0 <= i < node.exprs().len() && 0 <= j < node.stmts().len() ==> #[trigger] expr_nodes(
            ast,
            node.exprs()[i],
        ).disjoint(#[trigger] stmt_nodes(ast, node.stmts()[j]))
    &&& forall|i: int, j: int|
        0 <= i < j < node.stmts().len() ==> #[trigger] stmt_nodes(ast, node.stmts()[i]).disjoint(
            #[trigger] stmt_nodes(ast, node.stmts()[j]),
        )
}

/// No node of the expression `e` comes before `lo`.
#[verifier::opaque]
pub open spec fn low(ast: AstView, e: usize, lo: int) -> bool {
    forall|n: usize| #[trigger] expr_nodes(ast, e).contains(n) ==> lo <= n
}

/// No node of the statement `s` comes before `lo`.
#[verifier::opaque]
pub open spec fn low_stmt(ast: AstView, s: usize, lo: int) -> bool {
    forall|n: usize| #[trigger] stmt_nodes(ast, s).contains(n) ==> lo <= n
}

/// Every node of the statement `s` comes before `hi`.
#[verifier::opaque]
pub open spec fn high_stmt(ast: AstView, s: usize, hi: int) -> bool {
    forall|n: usize| #[trigger] stmt_nodes(ast, s).contains(n) ==> n < hi
}

/// A stored expression is made of the same nodes however the store grows.
pub proof fn lemma_expr_nodes_extends(ast: AstView, more: AstView, e: usize)
    requires
        more.extends(ast),
        e < ast.exprs.len(),
    ensures
        expr_nodes(more, e) == expr_nodes(ast, e),
    decreases e, 1nat, 0nat,
{
    reveal(expr_nodes);
    reveal(list_nodes);
    assert(more.exprs[e as int] == ast.exprs[e as int]);
    lemma_list_nodes_extends(ast, more, e, ast.exprs[e as int].children(), 0);
}

pub proof fn lemma_list_nodes_extends(ast: AstView, more: AstView, parent: usize, list: Seq<usize>, i: nat)
    requires
        more.extends(ast),
        parent < ast.exprs.len(),
    ensures
        list_nodes(more, parent, list, i) == list_nodes(ast, parent, list, i),
    decreases parent, 0nat, list.len() - i,
{
    reveal(expr_nodes);
    reveal(list_nodes);
    if i < list.len() {
        lemma_list_nodes_extends(ast, more, parent, list, i + 1);
        if list[i as int] < parent {
            lemma_expr_nodes_extends(ast, more, list[i as int]);
        }
    }
}

pub proof fn lemma_exprs_nodes_extends(ast: AstView, more: AstView, list: Seq<usize>, i: nat)
    requires
        more.extends(ast),
        forall|k: int| 0 <= k < list.len() ==> #[trigger] list[k] < ast.exprs.len(),
    ensures
        exprs_nodes(more, list, i) == exprs_nodes(ast, list, i),
    decreases list.len() - i,
{
    if i < list.len() {
        lemma_expr_nodes_extends(ast, more, list[i as int]);
        lemma_exprs_nodes_extends(ast, more, list, i + 1);
    }
}

/// A stored statement is made of the same nodes however the store grows.
pub proof fn lemma_stmt_nodes_extends(ast: AstView, more: AstView, s: usize)
    requires
        more.extends(ast),
        ast.wf(),
        s < ast.stmts.len(),
    ensures
        stmt_nodes(more, s) == stmt_nodes(ast, s),
    decreases s, 1nat, 0nat,
{
    reveal(stmt_nodes);
    reveal(stmts_nodes);
    let node = ast.stmts[s as int];
    assert(more.stmts[s as int] == node);
    assert(node.wf(s as int, ast.exprs.len() as int));
    lemma_exprs_nodes_extends(ast, more, node.exprs(), 0);
    lemma_stmts_nodes_extends(ast, more, s, node.stmts(), 0);
}

pub proof fn lemma_stmts_nodes_extends(ast: AstView, more: AstView, parent: usize, list: Seq<usize>, i: nat)
    requires
        more.extends(ast),
        ast.wf(),
        parent < ast.stmts.len(),
    ensures
        stmts_nodes(more, parent, list, i) == stmts_nodes(ast, parent, list, i),
    decreases parent, 0nat, list.len() - i,
{
    reveal(stmt_nodes);
    reveal(stmts_nodes);
    if i < list.len() {
        lemma_stmts_nodes_extends(ast, more, parent, list, i + 1);
        if list[i as int] < parent {
            lemma_stmt_nodes_extends(ast, more, list[i as int]);
        }
    }
}

pub proof fn lemma_low_extends(ast: AstView, more: AstView, e: usize, lo: int)
    requires
        more.extends(ast),
        e < ast.exprs.len(),
        low(ast, e, lo),
    ensures
        low(more, e, lo),
{
    reveal(low);
    lemma_expr_nodes_extends(ast, more, e);
}

pub proof fn lemma_low_stmt_extends(ast: AstView, more: AstView, s: usize, lo: int)
    requires
        more.extends(ast),
        ast.wf(),
        s < ast.stmts.len(),
        low_stmt(ast, s, lo),
    ensures
        low_stmt(more, s, lo),
{
    reveal(low_stmt);
    lemma_stmt_nodes_extends(ast, more, s);
}

pub proof fn lemma_high_stmt_extends(ast: AstView, more: AstView, s: usize, hi: int)
    requires
        more.extends(ast),
        ast.wf(),
        s < ast.stmts.len(),
        high_stmt(ast, s, hi),
    ensures
        high_stmt(more, s, hi),
{
    reveal(high_stmt);
    lemma_stmt_nodes_extends(ast, more, s);
}

pub proof fn lemma_low_weaken(ast: AstView, e: usize, lo: int, lower: int)
    requires
        low(ast, e, lo),
        lower <= lo,
    ensures
        low(ast, e, lower),
{
    reveal(low);
}

pub proof fn lemma_low_stmt_weaken(ast: AstView, s: usize, lo: int, lower: int)
    requires
        low_stmt(ast, s, lo),
        lower <= lo,
    ensures
        low_stmt(ast, s, lower),
{
    reveal(low_stmt);
}

/// Every node of a statement is in the store.
pub proof fn lemma_high_stmt(ast: AstView, s: usize)
    ensures
        high_stmt(ast, s, ast.exprs.len() as int),
{
    reveal(high_stmt);
    lemma_stmt_nodes_stored(ast, s);
}

/// An expression shares no node with one that was stored wholly after it.
pub proof fn lemma_exprs_apart(ast: AstView, a: usize, b: usize, mid: int)
    requires
        a < mid,
        low(ast, b, mid),
    ensures
        expr_nodes(ast, a).disjoint(expr_nodes(ast, b)),
        expr_nodes(ast, b).disjoint(expr_nodes(ast, a)),
{
    reveal(low);
    lemma_expr_nodes(ast, a);
}

/// An expression shares no node with a statement that was stored wholly
/// after it.
pub proof fn lemma_expr_before_stmt(ast: AstView, e: usize, s: usize, mid: int)
    requires
        e < mid,
        low_stmt(ast, s, mid),
    ensures
        expr_nodes(ast, e).disjoint(stmt_nodes(ast, s)),
{
    reveal(low_stmt);
    lemma_expr_nodes(ast, e);
}

/// A statement shares no node with one that was stored wholly after it.
pub proof fn lemma_stmts_apart(ast: AstView, a: usize, b: usize, mid: int)
    requires
        high_stmt(ast, a, mid),
        low_stmt(ast, b, mid),
    ensures
        stmt_nodes(ast, a).disjoint(stmt_nodes(ast, b)),
        stmt_nodes(ast, b).disjoint(stmt_nodes(ast, a)),
{
    reveal(low_stmt);
    reveal(high_stmt);
}

/// An operand's nodes come no earlier than the expression's.
pub proof fn lemma_low_operand(ast: AstView, e: usize, k: int, lo: int)
    requires
        e < ast.exprs.len(),
        0 <= k < ast.exprs[e as int].children().len(),
        ast.exprs[e as int].children()[k] < e,
        low(ast, e, lo),
    ensures
        low(ast, ast.exprs[e as int].children()[k], lo),
{
    reveal(low);
    reveal(expr_nodes);
    reveal(list_nodes);
    let c = ast.exprs[e as int].children()[k];
    lemma_list_member(ast, e, ast.exprs[e as int].children(), 0, k);
    assert forall|n: usize| #[trigger] expr_nodes(ast, c).contains(n) implies lo <= n by {
        assert(list_nodes(ast, e, ast.exprs[e as int].children(), 0).contains(n));
        assert(expr_nodes(ast, e).contains(n));
    }
}

/// The nodes of a new expression are its own and those of its operands.
pub proof fn lemma_low_new_expr(ast: AstView, node: ExprView, id: usize, lo: int)
    requires
        node.wf(ast.exprs.len() as int),
        id == ast.exprs.len(),
        lo <= ast.exprs.len(),
        forall|k: int| 0 <= k < node.children().len() ==> low(ast, #[trigger] node.children()[k], lo),
    ensures
        low(ast.add_expr(node).0, id, lo),
{
    reveal(low);
    reveal(expr_nodes);
    reveal(list_nodes);
    let more = ast.add_expr(node).0;
    assert(more.extends(ast));
    assert(more.exprs[id as int] == node);
    assert forall|n: usize| #[trigger] expr_nodes(more, id).contains(n) implies lo <= n by {
        if n != id {
            assert(list_nodes(more, id, node.children(), 0).contains(n));
            lemma_list_nodes(more, id, node.children(), 0, n);
            let k = choose|k: int|
                0 <= k < node.children().len() && node.children()[k] < id && #[trigger] expr_nodes(
                    more,
                    node.children()[k],
                ).contains(n);
            lemma_expr_nodes_extends(ast, more, node.children()[k]);
            assert(low(ast, node.children()[k], lo));
        }
    }
}

/// The nodes of a new statement are those of its parts.
pub proof fn lemma_low_new_stmt(ast: AstView, node: StmtView, id: usize, lo: int)
    requires
        ast.wf(),
        node.wf(ast.stmts.len() as int, ast.exprs.len() as int),
        id == ast.stmts.len(),
        forall|k: int| 0 <= k < node.exprs().len() ==> low(ast, #[trigger] node.exprs()[k], lo),
        forall|k: int| 0 <= k < node.stmts().len() ==> low_stmt(ast, #[trigger] node.stmts()[k], lo),
    ensures
        low_stmt(ast.add_stmt(node).0, id, lo),
{
    reveal(low);
    reveal(low_stmt);
    reveal(stmt_nodes);
    reveal(stmts_nodes);
    let more = ast.add_stmt(node).0;
    assert(more.extends(ast));
    assert(more.stmts[id as int] == node);
    assert forall|n: usize| #[trigger] stmt_nodes(more, id).contains(n) implies lo <= n by {
        assert(exprs_nodes(more, node.exprs(), 0).contains(n) || stmts_nodes(
            more,
            id,
            node.stmts(),
            0,
        ).contains(n));
        if exprs_nodes(more, node.exprs(), 0).contains(n) {
            lemma_exprs_nodes_of(more, node.exprs(), 0, n);
            let k = choose|k: int|
                0 <= k < node.exprs().len() && #[trigger] expr_nodes(more, node.exprs()[k]).contains(n);
            lemma_expr_nodes_extends(ast, more, node.exprs()[k]);
            assert(low(ast, node.exprs()[k], lo));
        } else {
            lemma_stmts_nodes(more, id, node.stmts(), 0, n);
            let k = choose|k: int|
                0 <= k < node.stmts().len() && node.stmts()[k] < id && #[trigger] stmt_nodes(
                    more,
                    node.stmts()[k],
                ).contains(n);
            lemma_stmt_nodes_extends(ast, more, node.stmts()[k]);
            assert(low_stmt(ast, node.stmts()[k], lo));
        }
    }
}

/// A node of several expressions is a node of one of them.
pub proof fn lemma_exprs_nodes_of(ast: AstView, list: Seq<usize>, i: nat, n: usize)
    requires
        exprs_nodes(ast, list, i).contains(n),
    ensures
        exists|k: int| i <= k < list.len() && #[trigger] expr_nodes(ast, list[k]).contains(n),
    decreases list.len() - i,
{
    if i < list.len() {
        if expr_nodes(ast, list[i as int]).contains(n) {
        } else {
            lemma_exprs_nodes_of(ast, list, i + 1, n);
        }
    }
}


/// Adding an expression whose operands share no node to a forest leaves a
/// forest.
pub proof fn lemma_tree_add_expr(ast: AstView, node: ExprView)
    requires
        ast.wf(),
        tree(ast),
        node.wf(ast.exprs.len() as int),
        operands_apart_of(ast, node),
    ensures
        tree(ast.add_expr(node).0),
{
    let more = ast.add_expr(node).0;
    assert(more.extends(ast));
    assert forall|e: int| 0 <= e < more.exprs.len() implies #[trigger] operands_apart(more, e) by {
        let at = more.exprs[e];
        if e < ast.exprs.len() {
            assert(at == ast.exprs[e]);
            assert(operands_apart(ast, e));
            assert(ast.exprs[e].wf(e));
        }
        assert forall|i: int, j: int| 0 <= i < j < at.children().len() implies #[trigger] expr_nodes(
            more,
            at.children()[i],
        ).disjoint(#[trigger] expr_nodes(more, at.children()[j])) by {
            lemma_expr_nodes_extends(ast, more, at.children()[i]);
            lemma_expr_nodes_extends(ast, more, at.children()[j]);
            assert(expr_nodes(ast, at.children()[i]).disjoint(expr_nodes(ast, at.children()[j])));
        }
    }
    assert forall|s: int| 0 <= s < more.stmts.len() implies #[trigger] parts_apart(more, s) by {
        lemma_parts_kept(ast, more, s);
    }
}

/// The parts of a stored statement stay apart however the store grows.
pub proof fn lemma_parts_kept(ast: AstView, more: AstView, s: int)
    requires
        ast.wf(),
        more.extends(ast),
        0 <= s < ast.stmts.len(),
        parts_apart(ast, s),
    ensures
        parts_apart(more, s),
{
    let at = ast.stmts[s];
    assert(more.stmts[s] == at);
    assert(at.wf(s, ast.exprs.len() as int));
    assert forall|i: int, j: int|
        0 <= i < at.exprs().len() && 0 <= j < at.stmts().len() implies #[trigger] expr_nodes(
        more,
        at.exprs()[i],
    ).disjoint(#[trigger] stmt_nodes(more, at.stmts()[j])) by {
        lemma_expr_nodes_extends(ast, more, at.exprs()[i]);
        lemma_stmt_nodes_extends(ast, more, at.stmts()[j]);
        assert(expr_nodes(ast, at.exprs()[i]).disjoint(stmt_nodes(ast, at.stmts()[j])));
    }
    assert forall|i: int, j: int| 0 <= i < j < at.stmts().len() implies #[trigger] stmt_nodes(
        more,
        at.stmts()[i],
    ).disjoint(#[trigger] stmt_nodes(more, at.stmts()[j])) by {
        lemma_stmt_nodes_extends(ast, more, at.stmts()[i]);
        lemma_stmt_nodes_extends(ast, more, at.stmts()[j]);
        assert(stmt_nodes(ast, at.stmts()[i]).disjoint(stmt_nodes(ast, at.stmts()[j])));
    }
}

/// Adding a statement whose parts share no node to a forest leaves a
/// forest.
pub proof fn lemma_tree_add_stmt(ast: AstView, node: StmtView)
    requires
        ast.wf(),
        tree(ast),
        node.wf(ast.stmts.len() as int, ast.exprs.len() as int),
        parts_apart_of(ast, node),
    ensures
        tree(ast.add_stmt(node).0),
{
    let more = ast.add_stmt(node).0;
    assert(more.extends(ast));
    assert forall|e: int| 0 <= e < more.exprs.len() implies #[trigger] operands_apart(more, e) by {
        let at = more.exprs[e];
        assert(at == ast.exprs[e]);
        assert(operands_apart(ast, e));
        assert(ast.exprs[e].wf(e));
        assert forall|i: int, j: int| 0 <= i < j < at.children().len() implies #[trigger] expr_nodes(
            more,
            at.children()[i],
        ).disjoint(#[trigger] expr_nodes(more, at.children()[j])) by {
            lemma_expr_nodes_extends(ast, more, at.children()[i]);
            lemma_expr_nodes_extends(ast, more, at.children()[j]);
            assert(expr_nodes(ast, at.children()[i]).disjoint(expr_nodes(ast, at.children()[j])));
        }
    }
    assert forall|s: int| 0 <= s < more.stmts.len() implies #[trigger] parts_apart(more, s) by {
        if s < ast.stmts.len() {
            assert(parts_apart(ast, s));
            lemma_parts_kept(ast, more, s);
        } else {
            assert(more.stmts[s] == node);
            assert forall|i: int, j: int|
                0 <= i < node.exprs().len() && 0 <= j < node.stmts().len() implies #[trigger] expr_nodes(
                more,
                node.exprs()[i],
            ).disjoint(#[trigger] stmt_nodes(more, node.stmts()[j])) by {
                lemma_expr_nodes_extends(ast, more, node.exprs()[i]);
                lemma_stmt_nodes_extends(ast, more, node.stmts()[j]);
                assert(expr_nodes(ast, node.exprs()[i]).disjoint(stmt_nodes(ast, node.stmts()[j])));
            }
            assert forall|i: int, j: int|
                0 <= i < j < node.stmts().len() implies #[trigger] stmt_nodes(
                more,
                node.stmts()[i],
            ).disjoint(#[trigger] stmt_nodes(more, node.stmts()[j])) by {
                lemma_stmt_nodes_extends(ast, more, node.stmts()[i]);
                lemma_stmt_nodes_extends(ast, more, node.stmts()[j]);
                assert(stmt_nodes(ast, node.stmts()[i]).disjoint(stmt_nodes(ast, node.stmts()[j])));
            }
        }
    }
}

/// Adding a node keeps every `super` spelled `super`, if the node is not
/// a `super` that is spelled otherwise.
pub proof fn lemma_spelled_add_expr(ast: AstView, node: ExprView)
    requires
        spelled(ast),
        node matches ExprView::Super(keyword, _) ==> keyword.lexeme == "super"@,
    ensures
        spelled(ast.add_expr(node).0),
{
    let more = ast.add_expr(node).0;
    assert forall|e: int| 0 <= e < more.exprs.len() implies (
    #[trigger] more.exprs[e] matches ExprView::Super(keyword, _) ==> keyword.lexeme == "super"@) by {
        if e < ast.exprs.len() {
            assert(more.exprs[e] == ast.exprs[e]);
        }
    }
}

pub proof fn lemma_spelled_add_stmt(ast: AstView, node: StmtView)
    requires
        spelled(ast),
    ensures
        spelled(ast.add_stmt(node).0),
{
    let more = ast.add_stmt(node).0;
    assert forall|e: int| 0 <= e < more.exprs.len() implies (
    #[trigger] more.exprs[e] matches ExprView::Super(keyword, _) ==> keyword.lexeme == "super"@) by {
        assert(more.exprs[e] == ast.exprs[e]);
    }
}


/// An expression parsed first and one parsed after it: as the store has
/// grown, both still begin where the first began, and they share no node.
pub proof fn lemma_then(start: int, mid: AstView, post: AstView, x: usize, y: usize)
    requires
        post.extends(mid),
        x < mid.exprs.len(),
        start <= mid.exprs.len(),
        low(mid, x, start),
        low(post, y, mid.exprs.len() as int),
    ensures
        low(post, x, start),
        low(post, y, start),
        expr_nodes(post, x).disjoint(expr_nodes(post, y)),
        expr_nodes(post, y).disjoint(expr_nodes(post, x)),
{
    lemma_low_extends(mid, post, x, start);
    lemma_low_weaken(post, y, mid.exprs.len() as int, start);
    lemma_exprs_apart(post, x, y, mid.exprs.len() as int);
}

/// The expressions of a list, each apart from the others and beginning no
/// earlier than `start`.
#[verifier::opaque]
pub open spec fn lined_up(ast: AstView, list: Seq<usize>, start: int) -> bool {
    &&& forall|k: int| 0 <= k < list.len() ==> #[trigger] list[k] < ast.exprs.len() && low(
        ast,
        list[k],
        start,
    )
    &&& forall|a: int, b: int|
        0 <= a < b < list.len() ==> #[trigger] expr_nodes(ast, list[a]).disjoint(
            #[trigger] expr_nodes(ast, list[b]),
        )
}

pub proof fn lemma_lined_up_push(start: int, mid: AstView, post: AstView, list: Seq<usize>, y: usize)
    requires
        post.extends(mid),
        start <= mid.exprs.len(),
        lined_up(mid, list, start),
        y < post.exprs.len(),
        low(post, y, mid.exprs.len() as int),
    ensures
        lined_up(post, list.push(y), start),
{
    reveal(lined_up);
    let longer = list.push(y);
    assert forall|k: int| 0 <= k < longer.len() implies #[trigger] longer[k] < post.exprs.len() && low(
        post,
        longer[k],
        start,
    ) by {
        if k < list.len() {
            assert(list[k] < mid.exprs.len());
            lemma_low_extends(mid, post, list[k], start);
        } else {
            lemma_low_weaken(post, y, mid.exprs.len() as int, start);
        }
    }
    assert forall|a: int, b: int| 0 <= a < b < longer.len() implies #[trigger] expr_nodes(
        post,
        longer[a],
    ).disjoint(#[trigger] expr_nodes(post, longer[b])) by {
        assert(list[a] < mid.exprs.len());
        lemma_expr_nodes_extends(mid, post, list[a]);
        if b < list.len() {
            assert(list[b] < mid.exprs.len());
            lemma_expr_nodes_extends(mid, post, list[b]);
            assert(expr_nodes(mid, list[a]).disjoint(expr_nodes(mid, list[b])));
        } else {
            lemma_exprs_apart(post, list[a], y, mid.exprs.len() as int);
        }
    }
}

/// The statements of a list, each apart from the others and beginning no
/// earlier than `start`.
#[verifier::opaque]
pub open spec fn stmts_lined_up(ast: AstView, list: Seq<usize>, start: int) -> bool {
    &&& forall|k: int| 0 <= k < list.len() ==> #[trigger] list[k] < ast.stmts.len() && low_stmt(
        ast,
        list[k],
        start,
    )
    &&& forall|a: int, b: int|
        0 <= a < b < list.len() ==> #[trigger] stmt_nodes(ast, list[a]).disjoint(
            #[trigger] stmt_nodes(ast, list[b]),
        )
}

pub proof fn lemma_stmts_lined_up_push(start: int, mid: AstView, post: AstView, list: Seq<usize>, y: usize)
    requires
        mid.wf(),
        post.extends(mid),
        start <= mid.exprs.len(),
        stmts_lined_up(mid, list, start),
        y < post.stmts.len(),
        low_stmt(post, y, mid.exprs.len() as int),
    ensures
        stmts_lined_up(post, list.push(y), start),
{
    reveal(stmts_lined_up);
    let longer = list.push(y);
    assert forall|k: int| 0 <= k < longer.len() implies #[trigger] longer[k] < post.stmts.len()
        && low_stmt(post, longer[k], start) by {
        if k < list.len() {
            assert(list[k] < mid.stmts.len());
            lemma_low_stmt_extends(mid, post, list[k], start);
        } else {
            lemma_low_stmt_weaken(post, y, mid.exprs.len() as int, start);
        }
    }
    assert forall|a: int, b: int| 0 <= a < b < longer.len() implies #[trigger] stmt_nodes(
        post,
        longer[a],
    ).disjoint(#[trigger] stmt_nodes(post, longer[b])) by {
        assert(list[a] < mid.stmts.len());
        lemma_stmt_nodes_extends(mid, post, list[a]);
        if b < list.len() {
            assert(list[b] < mid.stmts.len());
            lemma_stmt_nodes_extends(mid, post, list[b]);
            assert(stmt_nodes(mid, list[a]).disjoint(stmt_nodes(mid, list[b])));
        } else {
            lemma_high_stmt(mid, list[a]);
            lemma_high_stmt_extends(mid, post, list[a], mid.exprs.len() as int);
            lemma_stmts_apart(post, list[a], y, mid.exprs.len() as int);
        }
    }
}

/// A statement parsed first and one parsed after it share no node.
pub proof fn lemma_stmt_then_stmt(mid: AstView, post: AstView, x: usize, y: usize)
    requires
        mid.wf(),
        post.extends(mid),
        x < mid.stmts.len(),
        low_stmt(post, y, mid.exprs.len() as int),
    ensures
        stmt_nodes(post, x).disjoint(stmt_nodes(post, y)),
        stmt_nodes(post, y).disjoint(stmt_nodes(post, x)),
{
    lemma_high_stmt(mid, x);
    lemma_high_stmt_extends(mid, post, x, mid.exprs.len() as int);
    lemma_stmts_apart(post, x, y, mid.exprs.len() as int);
}

/// An expression parsed first and a statement parsed after it share no
/// node.
pub proof fn lemma_expr_then_stmt(mid: AstView, post: AstView, e: usize, y: usize)
    requires
        e < mid.exprs.len(),
        low_stmt(post, y, mid.exprs.len() as int),
    ensures
        expr_nodes(post, e).disjoint(stmt_nodes(post, y)),
{
    lemma_expr_before_stmt(post, e, y, mid.exprs.len() as int);
}


/// The store is a forest in which every `super` is spelled `super` and
/// names and keywords are kept apart.
#[verifier::opaque]
pub open spec fn forest(ast: AstView) -> bool {
    tree(ast) && spelled(ast) && named(ast)
}

pub proof fn lemma_forest_empty()
    ensures
        forest(AstView::empty()),
{
    reveal(forest);
}

/// Adding an expression to a forest.
pub proof fn lemma_forest_add_expr(ast: AstView, node: ExprView)
    requires
        ast.wf(),
        forest(ast),
        node.wf(ast.exprs.len() as int),
        operands_apart_of(ast, node),
        node matches ExprView::Super(keyword, _) ==> keyword.lexeme == "super"@,
        named_expr(node),
    ensures
        forest(ast.add_expr(node).0),
{
    reveal(forest);
    lemma_tree_add_expr(ast, node);
    lemma_spelled_add_expr(ast, node);
    let more = ast.add_expr(node).0;
    assert forall|s: int| 0 <= s < more.stmts.len() implies named_stmt(more, #[trigger] more.stmts[s]) by {
        assert(named_stmt(ast, ast.stmts[s]));
    }
    assert forall|e: int| 0 <= e < more.exprs.len() implies named_expr(#[trigger] more.exprs[e]) by {
        if e < ast.exprs.len() {
            assert(named_expr(ast.exprs[e]));
        }
    }
}

/// Adding a statement to a forest.
pub proof fn lemma_forest_add_stmt(ast: AstView, node: StmtView)
    requires
        ast.wf(),
        forest(ast),
        node.wf(ast.stmts.len() as int, ast.exprs.len() as int),
        parts_apart_of(ast, node),
        named_stmt(ast, node),
    ensures
        forest(ast.add_stmt(node).0),
{
    reveal(forest);
    lemma_tree_add_stmt(ast, node);
    lemma_spelled_add_stmt(ast, node);
    let more = ast.add_stmt(node).0;
    assert forall|s: int| 0 <= s < more.stmts.len() implies named_stmt(more, #[trigger] more.stmts[s]) by {
        if s < ast.stmts.len() {
            assert(named_stmt(ast, ast.stmts[s]));
        }
    }
    assert forall|e: int| 0 <= e < more.exprs.len() implies named_expr(#[trigger] more.exprs[e]) by {
        assert(named_expr(ast.exprs[e]));
    }
}

pub proof fn lemma_lined_up_one(ast: AstView, x: usize, start: int)
    requires
        x < ast.exprs.len(),
        low(ast, x, start),
    ensures
        lined_up(ast, seq![x], start),
{
    reveal(lined_up);
}

pub proof fn lemma_stmts_lined_up_none(ast: AstView, start: int)
    ensures
        stmts_lined_up(ast, seq![], start),
{
    reveal(stmts_lined_up);
}

/// What a list of expressions that are lined up gives to the node that
/// holds them.
pub proof fn lemma_lined_up_use(ast: AstView, list: Seq<usize>, start: int)
    requires
        lined_up(ast, list, start),
    ensures
        forall|k: int| 0 <= k < list.len() ==> #[trigger] list[k] < ast.exprs.len() && low(
            ast,
            list[k],
            start,
        ),
        forall|a: int, b: int|
            0 <= a < b < list.len() ==> #[trigger] expr_nodes(ast, list[a]).disjoint(
                #[trigger] expr_nodes(ast, list[b]),
            ),
{
    reveal(lined_up);
}

/// What a list of statements that are lined up gives to the node that
/// holds them.
pub proof fn lemma_stmts_lined_up_use(ast: AstView, list: Seq<usize>, start: int)
    requires
        stmts_lined_up(ast, list, start),
    ensures
        forall|k: int| 0 <= k < list.len() ==> #[trigger] list[k] < ast.stmts.len() && low_stmt(
            ast,
            list[k],
            start,
        ),
        forall|a: int, b: int|
            0 <= a < b < list.len() ==> #[trigger] stmt_nodes(ast, list[a]).disjoint(
                #[trigger] stmt_nodes(ast, list[b]),
            ),
{
    reveal(stmts_lined_up);
}

/// An expression parsed before each of some statements shares no node with
/// any of them.
pub proof fn lemma_expr_before_all(ast: AstView, e: usize, list: Seq<usize>, mid: int)
    requires
        e < mid,
        stmts_lined_up(ast, list, mid),
    ensures
        forall|k: int|
            0 <= k < list.len() ==> expr_nodes(ast, e).disjoint(#[trigger] stmt_nodes(ast, list[k])),
{
    reveal(stmts_lined_up);
    assert forall|k: int| 0 <= k < list.len() implies expr_nodes(ast, e).disjoint(
        #[trigger] stmt_nodes(ast, list[k]),
    ) by {
        lemma_expr_before_stmt(ast, e, list[k], mid);
    }
}

pub proof fn lemma_stmts_lined_up_weaken(ast: AstView, list: Seq<usize>, start: int, lower: int)
    requires
        stmts_lined_up(ast, list, start),
        lower <= start,
    ensures
        stmts_lined_up(ast, list, lower),
{
    reveal(stmts_lined_up);
    assert forall|k: int| 0 <= k < list.len() implies #[trigger] list[k] < ast.stmts.len() && low_stmt(
        ast,
        list[k],
        lower,
    ) by {
        lemma_low_stmt_weaken(ast, list[k], start, lower);
    }
}

} // verus!
