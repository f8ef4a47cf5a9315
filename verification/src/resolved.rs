//! What the resolver finds is sound: statements.
//!
//! See `crate::resolution` for what is proved and under which conditions.
//! Here are the conditions on statements, and the proof for them.

use vstd::prelude::*;
use crate::ast::AstView;
use crate::class::ClassType;
use crate::expr::ExprView;
use crate::footprint::{
    agree_off, expr_nodes, lemma_agree_apart, lemma_expr_nodes, lemma_agree_off_more, lemma_expr_frame,
    lemma_function_frame, lemma_methods_frame, lemma_sound_expr_local, lemma_sound_method_local,
    lemma_sound_stmt_local, lemma_stmt_frame, lemma_stmt_holds_expr, lemma_stmt_holds_stmt,
    lemma_stmt_parts, lemma_stmts_frame, lemma_stmts_member, lemma_stmts_nodes, stmt_nodes,
    stmts_nodes,
};
use crate::functions::FunctionType;
use crate::resolution::{
    avoids, fresh, known, lemma_fresh_kept, lemma_fresh_part, lemma_resolve_expr, named,
    named_expr, named_stmt, named_well, parts_apart, spelled, targets, tree,
};
use crate::resolver::ResolverView;
use crate::scoping::{
    add_name, after, bound_at, declared, param_names, sound_expr, sound_exprs, sound_method,
    sound_methods, sound_stmt, sound_stmts, Scopes,
};
use crate::stmt::StmtView;
use crate::tokens::TokenView;

verus! {

/// The statement keeps to the rules of style. Inside a block or a function
/// (`nested`), a name is declared by a statement that stands in a block,
/// not by the lone statement under an `if` or a `while`, and an
/// initializer does not assign to the variable it initializes. Nothing is
/// named `super`, and what a class inherits from is given by a name.
#[verifier::opaque]
pub open spec fn plain(ast: AstView, s: usize, nested: bool) -> bool
    decreases s, 1nat, 0nat,
{
    s < ast.stmts.len() && match ast.stmts[s as int] {
        StmtView::Declaration(id, init) => id.lexeme != "super"@ && (nested ==> (init matches Some(
            e,
        ) ==> avoids(ast, e, id.lexeme))),
        StmtView::Block(body) => plain_list(ast, s, body, 0, true),
        StmtView::If(_, then_stmt, else_stmt) => {
            &&& then_stmt < s
            &&& plain(ast, then_stmt, nested)
            &&& nested ==> declared(ast, then_stmt) is None
            &&& else_stmt matches Some(else_stmt) ==> else_stmt < s && plain(ast, else_stmt, nested)
                && (nested ==> declared(ast, else_stmt) is None)
        },
        StmtView::While(_, body) => {
            &&& body < s
            &&& plain(ast, body, nested)
            &&& nested ==> declared(ast, body) is None
        },
        StmtView::Function(name, params, body) => {
            &&& name.lexeme != "super"@
            &&& named_well(params)
            &&& body < s
            &&& plain(ast, body, true)
        },
        StmtView::Class(name, parent, methods) => {
            &&& name.lexeme != "super"@
            &&& parent matches Some(p) ==> p < ast.exprs.len() && ast.exprs[p as int] is Identifier
            &&& plain_methods(ast, s, methods, 0)
        },
        _ => true,
    }
}

/// Each of the statements `list[i..]` keeps to the rules of style.
#[verifier::opaque]
pub open spec fn plain_list(ast: AstView, parent: usize, list: Seq<usize>, i: nat, nested: bool) -> bool
    decreases parent, 0nat, list.len() - i,
{
    if i >= list.len() {
        true
    } else {
        &&& list[i as int] < parent
        &&& plain(ast, list[i as int], nested)
        &&& plain_list(ast, parent, list, i + 1, nested)
    }
}

/// Each of the methods `list[i..]` keeps to the rules of style.
#[verifier::opaque]
pub open spec fn plain_methods(ast: AstView, parent: usize, list: Seq<usize>, i: nat) -> bool
    decreases parent, 0nat, list.len() - i,
{
    if i >= list.len() {
        true
    } else {
        &&& list[i as int] < parent
        &&& list[i as int] < ast.stmts.len()
        &&& match ast.stmts[list[i as int] as int] {
            StmtView::Function(_, params, body) => named_well(params) && body < parent && plain(
                ast,
                body,
                true,
            ),
            _ => true,
        }
        &&& plain_methods(ast, parent, list, i + 1)
    }
}

/// Whether the node `node` writes to the variable `name`.
pub open spec fn writes(node: ExprView, name: Seq<char>) -> bool {
    node matches ExprView::Assignment(id, _) && id.lexeme == name
}

/// No node of the expression `e` writes to the variable `name`.
pub open spec fn leaves(ast: AstView, e: usize, name: Seq<char>) -> bool {
    forall|k: usize| #[trigger] expr_nodes(ast, e).contains(k) ==> !writes(ast.exprs[k as int], name)
}

/// The statement keeps to the two rules of style. Inside a block or a
/// function (`nested`), a name is declared by a statement that stands in a
/// block, not by the lone statement under an `if` or a `while`, and an
/// initializer does not assign to the variable it initializes.
///
/// This is `plain` for syntax in which names and keywords are kept apart,
/// as they are in all that the parser makes.
pub open spec fn tidy(ast: AstView, s: usize, nested: bool) -> bool
    decreases s, 1nat, 0nat,
{
    s < ast.stmts.len() && match ast.stmts[s as int] {
        StmtView::Declaration(id, init) => nested ==> (init matches Some(e) ==> leaves(
            ast,
            e,
            id.lexeme,
        )),
        StmtView::Block(body) => tidy_list(ast, s, body, 0, true),
        StmtView::If(_, then_stmt, else_stmt) => {
            &&& then_stmt < s
            &&& tidy(ast, then_stmt, nested)
            &&& nested ==> declared(ast, then_stmt) is None
            &&& else_stmt matches Some(else_stmt) ==> else_stmt < s && tidy(ast, else_stmt, nested)
                && (nested ==> declared(ast, else_stmt) is None)
        },
        StmtView::While(_, body) => {
            &&& body < s
            &&& tidy(ast, body, nested)
            &&& nested ==> declared(ast, body) is None
        },
        StmtView::Function(_, _, body) => body < s && tidy(ast, body, true),
        StmtView::Class(_, _, methods) => tidy_methods(ast, s, methods, 0),
        _ => true,
    }
}

/// Each of the statements `list[i..]` keeps to the two rules of style.
pub open spec fn tidy_list(ast: AstView, parent: usize, list: Seq<usize>, i: nat, nested: bool) -> bool
    decreases parent, 0nat, list.len() - i,
{
    if i >= list.len() {
        true
    } else {
        &&& list[i as int] < parent
        &&& tidy(ast, list[i as int], nested)
        &&& tidy_list(ast, parent, list, i + 1, nested)
    }
}

/// Each of the methods `list[i..]` keeps to the two rules of style.
pub open spec fn tidy_methods(ast: AstView, parent: usize, list: Seq<usize>, i: nat) -> bool
    decreases parent, 0nat, list.len() - i,
{
    if i >= list.len() {
        true
    } else {
        &&& list[i as int] < parent
        &&& list[i as int] < ast.stmts.len()
        &&& match ast.stmts[list[i as int] as int] {
            StmtView::Function(_, _, body) => body < parent && tidy(ast, body, true),
            _ => true,
        }
        &&& tidy_methods(ast, parent, list, i + 1)
    }
}

/// An initializer that does not assign to a variable does not target it
/// either, where names and keywords are kept apart.
pub proof fn lemma_leaves_is_avoids(ast: AstView, e: usize, name: Seq<char>)
    requires
        spelled(ast),
        named(ast),
        name != "this"@,
        name != "super"@,
        leaves(ast, e, name),
    ensures
        avoids(ast, e, name),
{
    lemma_expr_nodes(ast, e);
    assert forall|k: usize| #[trigger] expr_nodes(ast, e).contains(k) implies !targets(
        ast.exprs[k as int],
        name,
    ) by {
        assert(k < ast.exprs.len());
        assert(named_expr(ast.exprs[k as int]));
        assert(!writes(ast.exprs[k as int], name));
    }
}

/// A statement that keeps to the two rules of style is plain, where names
/// and keywords are kept apart.
pub proof fn lemma_tidy_is_plain(ast: AstView, s: usize, nested: bool)
    requires
        spelled(ast),
        named(ast),
        tidy(ast, s, nested),
    ensures
        plain(ast, s, nested),
    decreases s, 1nat, 0nat,
{
    reveal(plain);
    reveal(plain_list);
    reveal(plain_methods);
    assert(named_stmt(ast, ast.stmts[s as int]));
    match ast.stmts[s as int] {
        StmtView::Declaration(id, init) => {
            if nested {
                if let Some(e) = init {
                    lemma_leaves_is_avoids(ast, e, id.lexeme);
                }
            }
        },
        StmtView::Block(body) => lemma_tidy_list_is_plain(ast, s, body, 0, true),
        StmtView::If(_, then_stmt, else_stmt) => {
            lemma_tidy_is_plain(ast, then_stmt, nested);
            if let Some(else_stmt) = else_stmt {
                lemma_tidy_is_plain(ast, else_stmt, nested);
            }
        },
        StmtView::While(_, body) => lemma_tidy_is_plain(ast, body, nested),
        StmtView::Function(_, _, body) => lemma_tidy_is_plain(ast, body, true),
        StmtView::Class(_, _, methods) => lemma_tidy_methods_are_plain(ast, s, methods, 0),
        _ => {},
    }
}

/// Statements that keep to the two rules of style are plain, where names
/// and keywords are kept apart.
pub proof fn lemma_tidy_list_is_plain(ast: AstView, parent: usize, list: Seq<usize>, i: nat, nested: bool)
    requires
        spelled(ast),
        named(ast),
        tidy_list(ast, parent, list, i, nested),
    ensures
        plain_list(ast, parent, list, i, nested),
    decreases parent, 0nat, list.len() - i,
{
    reveal(plain);
    reveal(plain_list);
    reveal(plain_methods);
    if i < list.len() {
        lemma_tidy_is_plain(ast, list[i as int], nested);
        lemma_tidy_list_is_plain(ast, parent, list, i + 1, nested);
    }
}

/// Methods that keep to the two rules of style are plain, where names and
/// keywords are kept apart.
pub proof fn lemma_tidy_methods_are_plain(ast: AstView, parent: usize, list: Seq<usize>, i: nat)
    requires
        spelled(ast),
        named(ast),
        tidy_methods(ast, parent, list, i),
    ensures
        plain_methods(ast, parent, list, i),
    decreases parent, 0nat, list.len() - i,
{
    reveal(plain);
    reveal(plain_list);
    reveal(plain_methods);
    if i < list.len() {
        assert(named_stmt(ast, ast.stmts[list[i as int] as int]));
        match ast.stmts[list[i as int] as int] {
            StmtView::Function(_, _, body) => lemma_tidy_is_plain(ast, body, true),
            _ => {},
        }
        lemma_tidy_methods_are_plain(ast, parent, list, i + 1);
    }
}

/// The resolver's scopes after the statement `s` has been resolved in them.
pub open spec fn effect(r: ResolverView, ast: AstView, s: usize) -> Seq<Map<Seq<char>, bool>> {
    match declared(ast, s) {
        Some(name) => r.put(name, true).scopes,
        None => r.scopes,
    }
}

/// The statements `list[i..]` share no node.
pub open spec fn stmts_apart(ast: AstView, list: Seq<usize>, i: nat) -> bool {
    forall|a: int, b: int|
        i <= a < b < list.len() ==> #[trigger] stmt_nodes(ast, list[a]).disjoint(
            #[trigger] stmt_nodes(ast, list[b]),
        )
}

pub proof fn lemma_known_push(
    scopes: Seq<Map<Seq<char>, bool>>,
    certain: Scopes,
    names: Set<Seq<char>>,
)
    requires
        known(scopes, certain, None),
    ensures
        known(scopes.push(Map::empty()), certain.push(names), None),
{
    let s2 = scopes.push(Map::empty());
    let c2 = certain.push(names);
    assert forall|i: int, n: Seq<char>|
        0 <= i < s2.len() && (#[trigger] s2[i].contains_key(n)) implies if s2[i][n] {
        c2[i].contains(n)
    } else {
        i == s2.len() - 1 && None::<Seq<char>> == Some(n)
    } by {
        assert(i < scopes.len());
        assert(scopes[i].contains_key(n));
    }
    assert forall|i: int| 0 <= i < s2.len() && (#[trigger] s2[i]).contains_key("super"@) implies i
        + 1 < s2.len() && c2[i + 1].contains("this"@) by {
        assert(i < scopes.len());
        assert(scopes[i].contains_key("super"@));
    }
}

/// Defining a name keeps the scopes known, with the name made certain.
pub proof fn lemma_known_put(r: ResolverView, certain: Scopes, hold: Option<Seq<char>>, name: Seq<char>)
    requires
        known(r.scopes, certain, hold),
        hold is None || hold == Some(name),
        name != "super"@,
    ensures
        known(r.put(name, true).scopes, add_name(certain, name), None),
{
    let s2 = r.put(name, true).scopes;
    let c2 = add_name(certain, name);
    if r.scopes.len() > 0 {
        assert forall|i: int, n: Seq<char>|
            0 <= i < s2.len() && (#[trigger] s2[i].contains_key(n)) implies if s2[i][n] {
            c2[i].contains(n)
        } else {
            i == s2.len() - 1 && None::<Seq<char>> == Some(n)
        } by {
            if n != name || i != s2.len() - 1 {
                assert(r.scopes[i].contains_key(n));
            }
        }
        assert forall|i: int| 0 <= i < s2.len() && (#[trigger] s2[i]).contains_key("super"@) implies i
            + 1 < s2.len() && c2[i + 1].contains("this"@) by {
            assert(r.scopes[i].contains_key("super"@));
        }
    }
}

/// Declaring a name keeps the scopes known, with the name held back.
pub proof fn lemma_known_declare(r: ResolverView, certain: Scopes, name: Seq<char>)
    requires
        known(r.scopes, certain, None),
        name != "super"@,
        r.scopes.len() > 0,
        !r.scopes.last().contains_key(name),
    ensures
        known(r.put(name, false).scopes, certain, Some(name)),
{
    let s2 = r.put(name, false).scopes;
    assert forall|i: int, n: Seq<char>|
        0 <= i < s2.len() && (#[trigger] s2[i].contains_key(n)) implies if s2[i][n] {
        certain[i].contains(n)
    } else {
        i == s2.len() - 1 && Some(name) == Some(n)
    } by {
        if n != name || i != s2.len() - 1 {
            assert(r.scopes[i].contains_key(n));
        }
    }
    assert forall|i: int| 0 <= i < s2.len() && (#[trigger] s2[i]).contains_key("super"@) implies i
        + 1 < s2.len() && certain[i + 1].contains("this"@) by {
        assert(r.scopes[i].contains_key("super"@));
    }
}

/// Declaring a name and then defining it is entering it as defined.
pub proof fn lemma_declare_define(r: ResolverView, name: Seq<char>)
    ensures
        r.put(name, false).put(name, true).scopes == r.put(name, true).scopes,
        r.put(name, true).scopes.len() == r.scopes.len(),
        r.scopes.len() > 0 ==> r.put(name, true).scopes.drop_last() == r.scopes.drop_last(),
        r.scopes.len() == 0 ==> r.put(name, true).scopes == r.scopes,
{
    if r.scopes.len() > 0 {
        assert(r.scopes.last().insert(name, false).insert(name, true) =~= r.scopes.last().insert(
            name,
            true,
        ));
        assert(r.put(name, false).put(name, true).scopes =~= r.put(name, true).scopes);
        assert(r.put(name, true).scopes.drop_last() =~= r.scopes.drop_last());
    }
}

/// Declaring and defining the parameters leaves the outer scopes and the
/// table as they are, and the scopes known.
pub proof fn lemma_params(r: ResolverView, list: Seq<TokenView>, i: nat, certain: Scopes)
    requires
        known(r.scopes, certain, None),
        r.scopes.len() > 0,
        named_well(list),
        forall|k: int| i <= k < list.len() ==> certain.last().contains(#[trigger] list[k].lexeme),
        r.params(list, i).1 is Ok,
    ensures
        known(r.params(list, i).0.scopes, certain, None),
        r.params(list, i).0.scopes.len() == r.scopes.len(),
        r.params(list, i).0.scopes.drop_last() == r.scopes.drop_last(),
        r.params(list, i).0.locals == r.locals,
    decreases list.len() - i,
{
    if i < list.len() {
        let name = list[i as int].lexeme;
        let (r1, res) = r.declare(list[i as int]);
        let r2 = r1.define(list[i as int]);
        lemma_known_put(r, certain, None, name);
        lemma_declare_define(r, name);
        assert(r2.scopes == r.put(name, true).scopes);
        assert(add_name(certain, name) =~= certain) by {
            assert(certain.last().insert(name) =~= certain.last());
        }
        lemma_params(r2, list, i + 1, certain);
        assert(r2.scopes.drop_last() =~= r.scopes.drop_last());
    }
}

/// A part of a statement that is an expression shares no node with the
/// parts that are statements.
pub proof fn lemma_expr_apart_from_stmts(ast: AstView, s: usize, list: Seq<usize>, i: nat)
    requires
        s < ast.stmts.len(),
        parts_apart(ast, s as int),
        ast.stmts[s as int].exprs().len() > 0,
        list == ast.stmts[s as int].stmts(),
    ensures
        expr_nodes(ast, ast.stmts[s as int].exprs()[0]).disjoint(stmts_nodes(ast, s, list, i)),
        stmts_nodes(ast, s, list, i).disjoint(expr_nodes(ast, ast.stmts[s as int].exprs()[0])),
{
    let x = ast.stmts[s as int].exprs()[0];
    assert forall|n: usize| stmts_nodes(ast, s, list, i).contains(n) implies !expr_nodes(
        ast,
        x,
    ).contains(n) by {
        lemma_stmts_nodes(ast, s, list, i, n);
        let k = choose|k: int|
            i <= k < list.len() && list[k] < s && #[trigger] stmt_nodes(ast, list[k]).contains(n);
        assert(expr_nodes(ast, ast.stmts[s as int].exprs()[0]).disjoint(
            stmt_nodes(ast, ast.stmts[s as int].stmts()[k]),
        ));
    }
}

/// One statement is apart from all that come after it.
pub proof fn lemma_stmt_apart_from_rest(ast: AstView, parent: usize, list: Seq<usize>, i: nat)
    requires
        stmts_apart(ast, list, i),
        i < list.len(),
    ensures
        stmts_nodes(ast, parent, list, i + 1).disjoint(stmt_nodes(ast, list[i as int])),
{
    assert forall|n: usize| stmts_nodes(ast, parent, list, i + 1).contains(n) implies !stmt_nodes(
        ast,
        list[i as int],
    ).contains(n) by {
        lemma_stmts_nodes(ast, parent, list, i + 1, n);
        let k = choose|k: int|
            i + 1 <= k < list.len() && list[k] < parent && #[trigger] stmt_nodes(ast, list[k]).contains(
                n,
            );
        assert(stmt_nodes(ast, list[i as int]).disjoint(stmt_nodes(ast, list[k])));
    }
}

/// The parts of a statement that are statements share no node.
pub proof fn lemma_parts_apart(ast: AstView, s: usize)
    requires
        s < ast.stmts.len(),
        parts_apart(ast, s as int),
    ensures
        stmts_apart(ast, ast.stmts[s as int].stmts(), 0),
{
}

/// An expression that a statement holds, resolved first thing: the table
/// the resolver leaves is sound for it, and the table still does not know
/// the nodes of the statements that the statement holds.
pub proof fn lemma_resolve_held(
    ast: AstView,
    r: ResolverView,
    s: usize,
    e: usize,
    certain: Scopes,
    hold: Option<Seq<char>>,
)
    requires
        ast.wf(),
        tree(ast),
        spelled(ast),
        s < ast.stmts.len(),
        ast.stmts[s as int].exprs().len() > 0,
        ast.stmts[s as int].exprs()[0] == e,
        known(r.scopes, certain, hold),
        r.scopes.len() <= usize::MAX,
        fresh(r.locals, stmt_nodes(ast, s)),
        hold matches Some(n) ==> avoids(ast, e, n),
        r.expr(ast, e).1 is Ok,
    ensures
        e < ast.exprs.len(),
        sound_expr(ast, r.expr(ast, e).0.locals, e, certain),
        r.expr(ast, e).0 == (ResolverView { locals: r.expr(ast, e).0.locals, ..r }),
        fresh(
            r.expr(ast, e).0.locals,
            stmts_nodes(ast, s, ast.stmts[s as int].stmts(), 0),
        ),
        forall|k: int|
            0 <= k < ast.stmts[s as int].stmts().len() && ast.stmts[s as int].stmts()[k] < s ==> fresh(
                r.expr(ast, e).0.locals,
                stmt_nodes(ast, #[trigger] ast.stmts[s as int].stmts()[k]),
            ),
{
    let node = ast.stmts[s as int];
    assert(node.wf(s as int, ast.exprs.len() as int));
    assert(node.exprs()[0] < ast.exprs.len());
    assert(parts_apart(ast, s as int));
    lemma_stmt_holds_expr(ast, s, 0);
    lemma_fresh_part(r.locals, stmt_nodes(ast, s), expr_nodes(ast, e));
    lemma_resolve_expr(ast, r, e, certain, hold);
    lemma_expr_frame(ast, r, e);
    let after = r.expr(ast, e).0.locals;
    lemma_stmt_parts(ast, s);
    lemma_fresh_part(r.locals, stmt_nodes(ast, s), stmts_nodes(ast, s, node.stmts(), 0));
    lemma_expr_apart_from_stmts(ast, s, node.stmts(), 0);
    lemma_fresh_kept(r.locals, after, expr_nodes(ast, e), stmts_nodes(ast, s, node.stmts(), 0));
    assert forall|k: int| 0 <= k < node.stmts().len() && node.stmts()[k] < s implies fresh(
        after,
        stmt_nodes(ast, #[trigger] node.stmts()[k]),
    ) by {
        lemma_stmts_member(ast, s, node.stmts(), 0, k);
        lemma_fresh_part(
            after,
            stmts_nodes(ast, s, node.stmts(), 0),
            stmt_nodes(ast, node.stmts()[k]),
        );
    }
}

/// What was sound for an expression that a statement holds stays sound
/// while the statements that the statement holds are resolved.
pub proof fn lemma_held_stays(
    ast: AstView,
    s: usize,
    e: usize,
    before: Map<usize, usize>,
    later: Map<usize, usize>,
    certain: Scopes,
)
    requires
        s < ast.stmts.len(),
        parts_apart(ast, s as int),
        ast.stmts[s as int].exprs().len() > 0,
        ast.stmts[s as int].exprs()[0] == e,
        agree_off(before, later, stmts_nodes(ast, s, ast.stmts[s as int].stmts(), 0)),
        sound_expr(ast, before, e, certain),
    ensures
        sound_expr(ast, later, e, certain),
{
    lemma_expr_apart_from_stmts(ast, s, ast.stmts[s as int].stmts(), 0);
    lemma_agree_apart(
        before,
        later,
        stmts_nodes(ast, s, ast.stmts[s as int].stmts(), 0),
        expr_nodes(ast, e),
    );
    lemma_sound_expr_local(ast, before, later, e, certain);
}


/// There is room for the scopes that resolving the statement `x` may open.
pub open spec fn room(r: ResolverView, x: usize) -> bool {
    r.scopes.len() + 3 * x + 3 <= usize::MAX
}

/// The scopes that a class opens around its methods are known.
pub proof fn lemma_known_class(r: ResolverView, certain: Scopes)
    requires
        known(r.scopes, certain, None),
    ensures
        known(
            r.begin_scope().put("this"@, true).scopes,
            certain.push(set!["this"@]),
            None,
        ),
        known(
            r.begin_scope().put("super"@, true).begin_scope().put("this"@, true).scopes,
            certain.push(set!["super"@]).push(set!["this"@]),
            None,
        ),
        r.begin_scope().put("this"@, true).end_scope().scopes == r.scopes,
        r.begin_scope().put("super"@, true).begin_scope().put("this"@, true).scopes.len()
            == r.scopes.len() + 2,
        r.begin_scope().put("super"@, true).begin_scope().put("this"@, true).scopes.drop_last().drop_last()
            == r.scopes,
{
    let one = r.begin_scope().put("this"@, true).scopes;
    let c1 = certain.push(set!["this"@]);
    assert(one =~= r.scopes.push(map!["this"@ => true]));
    assert forall|i: int, n: Seq<char>|
        0 <= i < one.len() && (#[trigger] one[i].contains_key(n)) implies if one[i][n] {
        c1[i].contains(n)
    } else {
        i == one.len() - 1 && None::<Seq<char>> == Some(n)
    } by {
        if i < r.scopes.len() {
            assert(r.scopes[i].contains_key(n));
        }
    }
    assert forall|i: int| 0 <= i < one.len() && (#[trigger] one[i]).contains_key("super"@) implies i
        + 1 < one.len() && c1[i + 1].contains("this"@) by {
        if i < r.scopes.len() {
            assert(r.scopes[i].contains_key("super"@));
            if i + 1 < r.scopes.len() {
                assert(c1[i + 1] == certain[i + 1]);
            }
        } else {
            assert(!one[i].contains_key("super"@)) by {
                reveal_strlit("super");
                reveal_strlit("this");
                assert("super"@.len() != "this"@.len());
            }
        }
    }
    assert(one.drop_last() =~= r.scopes);
    let two = r.begin_scope().put("super"@, true).begin_scope().put("this"@, true).scopes;
    let c2 = certain.push(set!["super"@]).push(set!["this"@]);
    assert(two =~= r.scopes.push(map!["super"@ => true]).push(map!["this"@ => true]));
    assert forall|i: int, n: Seq<char>|
        0 <= i < two.len() && (#[trigger] two[i].contains_key(n)) implies if two[i][n] {
        c2[i].contains(n)
    } else {
        i == two.len() - 1 && None::<Seq<char>> == Some(n)
    } by {
        if i < r.scopes.len() {
            assert(r.scopes[i].contains_key(n));
        }
    }
    assert forall|i: int| 0 <= i < two.len() && (#[trigger] two[i]).contains_key("super"@) implies i
        + 1 < two.len() && c2[i + 1].contains("this"@) by {
        if i < r.scopes.len() {
            assert(r.scopes[i].contains_key("super"@));
            if i + 1 < r.scopes.len() {
                assert(c2[i + 1] == certain[i + 1]);
            }
        } else if i == r.scopes.len() + 1 {
            assert(!two[i].contains_key("super"@)) by {
                reveal_strlit("super");
                reveal_strlit("this");
                assert("super"@.len() != "this"@.len());
            }
        }
    }
    assert(two.drop_last().drop_last() =~= r.scopes);
}

/// The name that a statement declares is not `super`.
pub proof fn lemma_declared_not_super(ast: AstView, s: usize, nested: bool)
    requires
        plain(ast, s, nested),
    ensures
        declared(ast, s) matches Some(name) ==> name != "super"@,
{
    reveal(plain);
}

/// If the resolver accepts a statement, the table it leaves is sound for
/// the statement, and the scopes it leaves are those it found with the
/// name that the statement declares defined in the innermost one.
pub proof fn lemma_resolve_stmt(ast: AstView, r: ResolverView, s: usize, certain: Scopes)
    requires
        ast.wf(),
        tree(ast),
        spelled(ast),
        s < ast.stmts.len(),
        known(r.scopes, certain, None),
        room(r, s),
        fresh(r.locals, stmt_nodes(ast, s)),
        plain(ast, s, r.scopes.len() > 0),
        r.stmt(ast, s).1 is Ok,
    ensures
        sound_stmt(ast, r.stmt(ast, s).0.locals, s, certain),
        r.stmt(ast, s).0.scopes == effect(r, ast, s),
    decreases s, 1nat, 0nat,
{
    reveal(ResolverView::stmt);
    reveal(ResolverView::stmts);
    reveal(ResolverView::function);
    reveal(ResolverView::methods);
    reveal(ResolverView::visit_class);
    reveal(sound_stmt);
    reveal(sound_stmts);
    reveal(sound_methods);
    reveal(plain);
    reveal(plain_list);
    reveal(plain_methods);
    let node = ast.stmts[s as int];
    let nested = r.scopes.len() > 0;
    let out = r.stmt(ast, s).0;
    assert(node.wf(s as int, ast.exprs.len() as int));
    assert(parts_apart(ast, s as int));
    assert(ast.stmts[s as int] is Function ==> ast.stmts[ast.stmts[s as int].function_body() as int] is Block);
    match node {
        StmtView::Expression(e) => lemma_resolve_held(ast, r, s, e, certain, None),
        StmtView::Print(e) => lemma_resolve_held(ast, r, s, e, certain, None),
        StmtView::Declaration(id, init) => {
            let r1 = r.declare(id).0;
            lemma_declare_define(r, id.lexeme);
            match init {
                Some(e) => {
                    if nested {
                        lemma_known_declare(r, certain, id.lexeme);
                        lemma_resolve_held(ast, r1, s, e, certain, Some(id.lexeme));
                    } else {
                        lemma_resolve_held(ast, r1, s, e, certain, None);
                    }
                },
                None => {},
            }
        },
        StmtView::Block(body) => {
            let inner = r.begin_scope();
            lemma_known_push(r.scopes, certain, Set::empty());
            lemma_parts_apart(ast, s);
            assert(node.stmts() == body);
            assert forall|k: int| 0 <= k < body.len() implies body[k] < s && fresh(
                inner.locals,
                stmt_nodes(ast, #[trigger] body[k]),
            ) by {
                assert(node.stmts()[k] == body[k]);
                lemma_stmt_holds_stmt(ast, s, k);
                lemma_fresh_part(r.locals, stmt_nodes(ast, s), stmt_nodes(ast, body[k]));
            }
            lemma_resolve_stmts(ast, inner, s, body, 0, certain.push(Set::empty()), true);
            assert(inner.scopes.drop_last() =~= r.scopes);
        },
        StmtView::If(cond, then_stmt, else_stmt) => {
            lemma_resolve_held(ast, r, s, cond, certain, None);
            let r1 = r.expr(ast, cond).0;
            let branches = node.stmts();
            assert(branches =~= match else_stmt {
                Some(else_stmt) => seq![then_stmt, else_stmt],
                None => seq![then_stmt],
            });
            lemma_parts_apart(ast, s);
            assert(plain_list(ast, s, branches, 0, nested)) by {
                assert(plain_list(ast, s, branches, branches.len(), nested));
                if branches.len() == 2 {
                    assert(plain_list(ast, s, branches, 1, nested));
                }
            }
            lemma_resolve_stmts(ast, r1, s, branches, 0, certain, nested);
            let r2 = r1.stmts(ast, s, branches, 0).0;
            lemma_stmts_frame(ast, r1, s, branches, 0);
            lemma_held_stays(ast, s, cond, r1.locals, r2.locals, certain);
            assert(after(ast, certain, then_stmt) =~= certain);
            assert(sound_stmts(ast, r2.locals, s, branches, 1, certain));
        },
        StmtView::While(cond, body) => {
            let inside = ResolverView { loop_depth: r.loop_depth + 1, ..r };
            lemma_resolve_held(ast, inside, s, cond, certain, None);
            let r1 = inside.expr(ast, cond).0;
            let list = node.stmts();
            assert(list =~= seq![body]);
            lemma_parts_apart(ast, s);
            assert(plain_list(ast, s, list, 0, nested)) by {
                assert(plain_list(ast, s, list, 1, nested));
            }
            lemma_resolve_stmts(ast, r1, s, list, 0, certain, nested);
            let r2 = r1.stmts(ast, s, list, 0).0;
            lemma_stmts_frame(ast, r1, s, list, 0);
            lemma_held_stays(ast, s, cond, r1.locals, r2.locals, certain);
        },
        StmtView::Break(_) => {},
        StmtView::Function(name, params, body) => {
            let r2 = r.declare(name).0.define(name);
            lemma_declare_define(r, name.lexeme);
            lemma_known_put(r, certain, None, name.lexeme);
            assert(node.stmts()[0] == body);
            lemma_stmt_holds_stmt(ast, s, 0);
            lemma_fresh_part(r.locals, stmt_nodes(ast, s), stmt_nodes(ast, body));
            lemma_resolve_function(
                ast,
                r2,
                s,
                params,
                body,
                FunctionType::Function,
                add_name(certain, name.lexeme),
            );
        },
        StmtView::Return(_, val) => {
            match val {
                Some(e) => lemma_resolve_held(ast, r, s, e, certain, None),
                None => {},
            }
        },
        StmtView::Class(name, parent, methods) => lemma_resolve_class(
            ast,
            r,
            s,
            name,
            parent,
            methods,
            certain,
        ),
    }
}

/// Statements that the resolver accepts one after the other, and that
/// share no node: the table it leaves is sound for them run one after the
/// other.
pub proof fn lemma_resolve_stmts(
    ast: AstView,
    r: ResolverView,
    parent: usize,
    list: Seq<usize>,
    i: nat,
    certain: Scopes,
    nested: bool,
)
    requires
        ast.wf(),
        tree(ast),
        spelled(ast),
        parent < ast.stmts.len(),
        stmts_apart(ast, list, i),
        forall|k: int|
            i <= k < list.len() ==> list[k] < parent && fresh(
                r.locals,
                stmt_nodes(ast, #[trigger] list[k]),
            ),
        plain_list(ast, parent, list, i, nested),
        nested == (r.scopes.len() > 0),
        known(r.scopes, certain, None),
        r.scopes.len() + 3 * parent <= usize::MAX,
        r.stmts(ast, parent, list, i).1 is Ok,
    ensures
        sound_stmts(ast, r.stmts(ast, parent, list, i).0.locals, parent, list, i, certain),
        r.stmts(ast, parent, list, i).0.scopes.len() == r.scopes.len(),
        r.scopes.len() > 0 ==> r.stmts(ast, parent, list, i).0.scopes.drop_last()
            == r.scopes.drop_last(),
        (r.scopes.len() == 0 || forall|k: int|
            i <= k < list.len() ==> declared(ast, #[trigger] list[k]) is None) ==> r.stmts(
            ast,
            parent,
            list,
            i,
        ).0.scopes == r.scopes,
    decreases parent, 0nat, list.len() - i,
{
    reveal(ResolverView::stmt);
    reveal(ResolverView::stmts);
    reveal(ResolverView::function);
    reveal(ResolverView::methods);
    reveal(ResolverView::visit_class);
    reveal(sound_stmt);
    reveal(sound_stmts);
    reveal(sound_methods);
    reveal(plain);
    reveal(plain_list);
    reveal(plain_methods);
    if i < list.len() {
        let c = list[i as int];
        let (r1, res) = r.stmt(ast, c);
        let r2 = r1.stmts(ast, parent, list, i + 1).0;
        assert(fresh(r.locals, stmt_nodes(ast, c)));
        lemma_resolve_stmt(ast, r, c, certain);
        lemma_declared_not_super(ast, c, nested);
        match declared(ast, c) {
            Some(name) => {
                lemma_known_put(r, certain, None, name);
                lemma_declare_define(r, name);
            },
            None => {},
        }
        lemma_stmt_frame(ast, r, c);
        assert forall|k: int| i + 1 <= k < list.len() implies list[k] < parent && fresh(
            r1.locals,
            stmt_nodes(ast, #[trigger] list[k]),
        ) by {
            assert(stmt_nodes(ast, list[i as int]).disjoint(stmt_nodes(ast, list[k])));
            lemma_fresh_kept(r.locals, r1.locals, stmt_nodes(ast, c), stmt_nodes(ast, list[k]));
        }
        lemma_resolve_stmts(ast, r1, parent, list, i + 1, after(ast, certain, c), nested);
        lemma_stmts_frame(ast, r1, parent, list, i + 1);
        lemma_stmt_apart_from_rest(ast, parent, list, i);
        lemma_agree_apart(
            r1.locals,
            r2.locals,
            stmts_nodes(ast, parent, list, i + 1),
            stmt_nodes(ast, c),
        );
        lemma_sound_stmt_local(ast, r1.locals, r2.locals, c, certain);
        if forall|k: int| i <= k < list.len() ==> declared(ast, #[trigger] list[k]) is None {
            assert(declared(ast, list[i as int]) is None);
            assert forall|k: int| i + 1 <= k < list.len() implies declared(ast, #[trigger] list[k])
                is None by {}
        }
    }
}

/// If the resolver accepts the body of a function, the table it leaves is
/// sound for the body run with the parameters, and the scopes are left as
/// they were found.
pub proof fn lemma_resolve_function(
    ast: AstView,
    r: ResolverView,
    parent: usize,
    params: Seq<TokenView>,
    body: usize,
    kind: FunctionType,
    certain: Scopes,
)
    requires
        ast.wf(),
        tree(ast),
        spelled(ast),
        body < parent,
        parent < ast.stmts.len(),
        ast.stmts[body as int] is Block,
        known(r.scopes, certain, None),
        r.scopes.len() + 3 * body + 4 <= usize::MAX,
        fresh(r.locals, stmt_nodes(ast, body)),
        plain(ast, body, true),
        named_well(params),
        r.function(ast, parent, params, body, kind).1 is Ok,
    ensures
        sound_stmt(
            ast,
            r.function(ast, parent, params, body, kind).0.locals,
            body,
            certain.push(param_names(params)),
        ),
        r.function(ast, parent, params, body, kind).0.scopes == r.scopes,
    decreases parent, 0nat, 0nat,
{
    reveal(ResolverView::stmt);
    reveal(ResolverView::stmts);
    reveal(ResolverView::function);
    reveal(ResolverView::methods);
    reveal(ResolverView::visit_class);
    let inside = ResolverView { current_func: kind, ..r }.begin_scope();
    let inner = certain.push(param_names(params));
    lemma_known_push(r.scopes, certain, param_names(params));
    assert forall|k: int| 0 <= k < params.len() implies inner.last().contains(
        #[trigger] params[k].lexeme,
    ) by {}
    lemma_params(inside, params, 0, inner);
    let r1 = inside.params(params, 0).0;
    lemma_resolve_stmt(ast, r1, body, inner);
    let r2 = r1.stmt(ast, body).0;
    assert(declared(ast, body) is None);
    assert(inside.scopes.drop_last() =~= r.scopes);
}

/// If the resolver accepts the methods of a class, the table it leaves is
/// sound for each of them, and the scopes are left as they were found.
pub proof fn lemma_resolve_methods(
    ast: AstView,
    r: ResolverView,
    parent: usize,
    list: Seq<usize>,
    i: nat,
    certain: Scopes,
)
    requires
        ast.wf(),
        tree(ast),
        spelled(ast),
        parent < ast.stmts.len(),
        stmts_apart(ast, list, i),
        forall|k: int|
            i <= k < list.len() ==> list[k] < parent && fresh(
                r.locals,
                stmt_nodes(ast, #[trigger] list[k]),
            ),
        plain_methods(ast, parent, list, i),
        known(r.scopes, certain, None),
        r.scopes.len() + 3 * parent - 2 <= usize::MAX,
        r.methods(ast, parent, list, i).1 is Ok,
    ensures
        sound_methods(ast, r.methods(ast, parent, list, i).0.locals, parent, list, i, certain),
        r.methods(ast, parent, list, i).0.scopes == r.scopes,
    decreases parent, 0nat, list.len() - i,
{
    reveal(ResolverView::stmt);
    reveal(ResolverView::stmts);
    reveal(ResolverView::function);
    reveal(ResolverView::methods);
    reveal(ResolverView::visit_class);
    reveal(sound_stmt);
    reveal(sound_stmts);
    reveal(sound_methods);
    reveal(plain);
    reveal(plain_list);
    reveal(plain_methods);
    if i < list.len() {
        let m = list[i as int];
        assert(fresh(r.locals, stmt_nodes(ast, m)));
        assert(ast.stmts[m as int].wf(m as int, ast.exprs.len() as int));
        assert(ast.stmts[m as int] is Function ==> ast.stmts[ast.stmts[m as int].function_body() as int] is Block);
        match ast.stmts[m as int] {
            StmtView::Function(name, params, body) => {
                let kind = if name.lexeme == "init"@ {
                    FunctionType::Initializer
                } else {
                    FunctionType::Method
                };
                let (r1, res) = r.function(ast, parent, params, body, kind);
                let r2 = r1.methods(ast, parent, list, i + 1).0;
                assert(ast.stmts[m as int].stmts()[0] == body);
                lemma_stmt_holds_stmt(ast, m, 0);
                lemma_fresh_part(r.locals, stmt_nodes(ast, m), stmt_nodes(ast, body));
                lemma_resolve_function(ast, r, parent, params, body, kind, certain);
                lemma_function_frame(ast, r, parent, params, body, kind);
                lemma_agree_off_more(r.locals, r1.locals, stmt_nodes(ast, body), stmt_nodes(ast, m));
                assert forall|k: int| i + 1 <= k < list.len() implies list[k] < parent && fresh(
                    r1.locals,
                    stmt_nodes(ast, #[trigger] list[k]),
                ) by {
                    assert(stmt_nodes(ast, list[i as int]).disjoint(stmt_nodes(ast, list[k])));
                    lemma_fresh_kept(r.locals, r1.locals, stmt_nodes(ast, m), stmt_nodes(ast, list[k]));
                }
                lemma_resolve_methods(ast, r1, parent, list, i + 1, certain);
                lemma_methods_frame(ast, r1, parent, list, i + 1);
                lemma_stmt_apart_from_rest(ast, parent, list, i);
                lemma_agree_apart(
                    r1.locals,
                    r2.locals,
                    stmts_nodes(ast, parent, list, i + 1),
                    stmt_nodes(ast, m),
                );
                assert(sound_method(ast, r1.locals, parent, m, certain));
                lemma_sound_method_local(ast, r1.locals, r2.locals, parent, m, certain);
            },
            _ => {},
        }
    }
}

/// If the resolver accepts a class declaration, the table it leaves is
/// sound for it, and the scopes it leaves are those it found with the
/// name of the class defined in the innermost one.
pub proof fn lemma_resolve_class(
    ast: AstView,
    r: ResolverView,
    s: usize,
    name: TokenView,
    parent: Option<usize>,
    methods: Seq<usize>,
    certain: Scopes,
)
    requires
        ast.wf(),
        tree(ast),
        spelled(ast),
        s < ast.stmts.len(),
        ast.stmts[s as int] == StmtView::Class(name, parent, methods),
        known(r.scopes, certain, None),
        room(r, s),
        fresh(r.locals, stmt_nodes(ast, s)),
        plain(ast, s, r.scopes.len() > 0),
        r.visit_class(ast, s, name, parent, methods).1 is Ok,
    ensures
        sound_stmt(ast, r.visit_class(ast, s, name, parent, methods).0.locals, s, certain),
        r.visit_class(ast, s, name, parent, methods).0.scopes == r.put(name.lexeme, true).scopes,
    decreases s, 0nat, methods.len() + 1,
{
    reveal(ResolverView::stmt);
    reveal(ResolverView::stmts);
    reveal(ResolverView::function);
    reveal(ResolverView::methods);
    reveal(ResolverView::visit_class);
    reveal(ResolverView::expr);
    reveal(ResolverView::exprs);
    reveal(sound_stmt);
    reveal(sound_stmts);
    reveal(sound_methods);
    reveal(sound_expr);
    reveal(sound_exprs);
    reveal(plain);
    reveal(plain_list);
    reveal(plain_methods);
    let node = ast.stmts[s as int];
    assert(node.wf(s as int, ast.exprs.len() as int));
    assert(parts_apart(ast, s as int));
    assert(node.stmts() == methods);
    lemma_parts_apart(ast, s);
    let r2 = r.declare(name).0.define(name);
    let outer = add_name(certain, name.lexeme);
    lemma_declare_define(r, name.lexeme);
    lemma_known_put(r, certain, None, name.lexeme);
    match parent {
        Some(p) => {
            let r3 = ResolverView { current_class: ClassType::Subclass, ..r2 };
            let (r4, res) = r3.expr(ast, p);
            let r5 = r4.begin_scope().put("super"@, true).begin_scope().put("this"@, true);
            let (r6, done) = r5.methods(ast, s, methods, 0);
            assert(node.exprs()[0] == p);
            lemma_resolve_held(ast, r3, s, p, outer, None);
            lemma_known_class(r4, outer);
            lemma_resolve_methods(
                ast,
                r5,
                s,
                methods,
                0,
                outer.push(set!["super"@]).push(set!["this"@]),
            );
            lemma_methods_frame(ast, r5, s, methods, 0);
            // what the class inherits from is evaluated before the class has its name
            match ast.exprs[p as int] {
                ExprView::Identifier(token) => {
                    assert(token.lexeme != name.lexeme);
                    assert(bound_at(r4.locals, p, token.lexeme, outer));
                    if r4.locals.contains_key(p) && certain.len() > 0 {
                        let d = r4.locals[p];
                        assert(outer[outer.len() - 1 - d].contains(token.lexeme));
                        assert(certain[certain.len() - 1 - d].contains(token.lexeme));
                    }
                    assert(bound_at(r4.locals, p, token.lexeme, certain));
                    assert(sound_expr(ast, r4.locals, p, certain));
                },
                _ => {},
            }
            lemma_held_stays(ast, s, p, r4.locals, r6.locals, certain);
        },
        None => {
            let r3 = ResolverView { current_class: ClassType::Class, ..r2 };
            let r5 = r3.begin_scope().put("this"@, true);
            lemma_known_class(r3, outer);
            assert forall|k: int| 0 <= k < methods.len() implies methods[k] < s && fresh(
                r5.locals,
                stmt_nodes(ast, #[trigger] methods[k]),
            ) by {
                assert(node.stmts()[k] == methods[k]);
                lemma_stmt_holds_stmt(ast, s, k);
                lemma_fresh_part(r.locals, stmt_nodes(ast, s), stmt_nodes(ast, methods[k]));
            }
            lemma_resolve_methods(ast, r5, s, methods, 0, outer.push(set!["this"@]));
        },
    }
}


/// If the resolver accepts a top-level statement, the side table it
/// leaves is sound for the statement at the top level, and differs from
/// the table it was given at the nodes of the statement only.
///
/// This holds of a statement of a syntax store that is a forest, whose
/// nodes the table does not know yet, and that keeps to the rules of style
/// that `plain` lays down.
pub proof fn law_resolver_is_sound(ast: AstView, locals: Map<usize, usize>, s: usize)
    requires
        ast.wf(),
        tree(ast),
        spelled(ast),
        s < ast.stmts.len(),
        3 * s + 3 <= usize::MAX,
        fresh(locals, stmt_nodes(ast, s)),
        plain(ast, s, false),
        ResolverView::start(locals).stmt(ast, s).1 is Ok,
    ensures
        sound_stmt(ast, ResolverView::start(locals).stmt(ast, s).0.locals, s, seq![]),
        agree_off(locals, ResolverView::start(locals).stmt(ast, s).0.locals, stmt_nodes(ast, s)),
{
    let r = ResolverView::start(locals);
    assert(known(r.scopes, seq![], None));
    lemma_resolve_stmt(ast, r, s, seq![]);
    lemma_stmt_frame(ast, r, s);
}

} // verus!
