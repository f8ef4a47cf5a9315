//! What the resolver finds is sound.
//!
//! If the resolver accepts a piece of syntax, the side table it leaves is
//! sound for that syntax, in the sense of `crate::scoping`, in the scopes
//! that hold the names the resolver knew to be defined. This is proved for
//! syntax in which no node is a part of two others, whose nodes the table
//! did not know before, and which keeps to two rules of style: it declares
//! names in blocks and at the top level only, not as the lone statement
//! under an `if` or a `while`; and no initializer assigns to the variable
//! that it initializes.

use vstd::prelude::*;
use crate::ast::AstView;
use crate::expr::ExprView;
use crate::stmt::StmtView;
use crate::tokens::TokenView;
use crate::forest::{operands_apart_of, parts_apart_of};
use crate::footprint::{
    agree_off, agree_on, expr_nodes, lemma_agree_apart, lemma_expr_frame, lemma_expr_nodes,
    lemma_exprs_frame, lemma_list_member, lemma_list_nodes, lemma_sound_expr_local, list_nodes,
    same_at,
};
use crate::resolver::{distance, lemma_search, ResolverView};
use crate::scoping::{bound_at, sound_expr, sound_exprs, Scopes};

verus! {

/// The operands of the expression `e` share no node.
pub open spec fn operands_apart(ast: AstView, e: int) -> bool {
    operands_apart_of(ast, ast.exprs[e])
}

/// The parts of the statement `s` share no node.
pub open spec fn parts_apart(ast: AstView, s: int) -> bool {
    parts_apart_of(ast, ast.stmts[s])
}

/// No node is a part of two others: the syntax is a forest.
pub open spec fn tree(ast: AstView) -> bool {
    &&& forall|e: int| 0 <= e < ast.exprs.len() ==> #[trigger] operands_apart(ast, e)
    &&& forall|s: int| 0 <= s < ast.stmts.len() ==> #[trigger] parts_apart(ast, s)
}

/// Every `super` is spelled `super`.
pub open spec fn spelled(ast: AstView) -> bool {
    forall|e: int|
        0 <= e < ast.exprs.len() ==> (#[trigger] ast.exprs[e] matches ExprView::Super(keyword, _)
            ==> keyword.lexeme == "super"@)
}

/// None of the parameters is called `super`.
pub open spec fn named_well(params: Seq<TokenView>) -> bool {
    forall|k: int| 0 <= k < params.len() ==> (#[trigger] params[k]).lexeme != "super"@
}

/// The statement `node` gives no name that is a keyword's: a variable is
/// called neither `this` nor `super`, and no function, parameter or class
/// is called `super`. What a class inherits from is given by a name.
pub open spec fn named_stmt(ast: AstView, node: StmtView) -> bool {
    match node {
        StmtView::Declaration(id, _) => id.lexeme != "this"@ && id.lexeme != "super"@,
        StmtView::Function(name, params, _) => name.lexeme != "super"@ && named_well(params),
        StmtView::Class(name, parent, _) => name.lexeme != "super"@ && (parent matches Some(p) ==> p
            < ast.exprs.len() && ast.exprs[p as int] is Identifier),
        _ => true,
    }
}

/// The keyword of the expression `node`, if it is `this`, is spelled so.
pub open spec fn named_expr(node: ExprView) -> bool {
    node matches ExprView::This(keyword) ==> keyword.lexeme == "this"@
}

/// Names and keywords are kept apart, as they are in what the scanner
/// yields: no statement gives a name that is a keyword's, and every `this`
/// is spelled `this`.
pub open spec fn named(ast: AstView) -> bool {
    &&& forall|s: int| 0 <= s < ast.stmts.len() ==> named_stmt(ast, #[trigger] ast.stmts[s])
    &&& forall|e: int| 0 <= e < ast.exprs.len() ==> named_expr(#[trigger] ast.exprs[e])
}

/// The table knows none of the nodes.
pub open spec fn fresh(locals: Map<usize, usize>, nodes: Set<usize>) -> bool {
    forall|k: usize| nodes.contains(k) ==> !#[trigger] locals.contains_key(k)
}

/// The scopes `certain` have, for each of the resolver's scopes, the names
/// that are defined in it. A name that is declared and not yet defined is
/// in the innermost scope and is `hold`. A scope that holds `super` has
/// the scope that holds `this` right inside it.
pub open spec fn known(
    scopes: Seq<Map<Seq<char>, bool>>,
    certain: Scopes,
    hold: Option<Seq<char>>,
) -> bool {
    &&& scopes.len() == certain.len()
    &&& forall|i: int, n: Seq<char>|
        0 <= i < scopes.len() && (#[trigger] scopes[i].contains_key(n)) ==> if scopes[i][n] {
            certain[i].contains(n)
        } else {
            i == scopes.len() - 1 && hold == Some(n)
        }
    &&& forall|i: int|
        0 <= i < scopes.len() && (#[trigger] scopes[i]).contains_key("super"@) ==> i + 1
            < scopes.len() && certain[i + 1].contains("this"@)
}

/// Whether the node `node` writes to the variable `name`, or is `this` or
/// `super` under that name.
pub open spec fn targets(node: ExprView, name: Seq<char>) -> bool {
    match node {
        ExprView::Assignment(id, _) => id.lexeme == name,
        ExprView::This(token) => token.lexeme == name,
        ExprView::Super(keyword, _) => keyword.lexeme == name,
        _ => false,
    }
}

/// No node of the expression `e` targets `name`.
pub open spec fn avoids(ast: AstView, e: usize, name: Seq<char>) -> bool {
    forall|k: usize| #[trigger] expr_nodes(ast, e).contains(k) ==> !targets(ast.exprs[k as int], name)
}

/// Where the resolver finds a name, the scopes that are certain hold it,
/// unless it is the name held back.
pub proof fn lemma_found_is_certain(
    scopes: Seq<Map<Seq<char>, bool>>,
    certain: Scopes,
    hold: Option<Seq<char>>,
    name: Seq<char>,
)
    requires
        known(scopes, certain, hold),
        scopes.len() <= usize::MAX,
        distance(scopes, name) is Some,
    ensures
        ({
            let d = distance(scopes, name)->0;
            &&& d < scopes.len()
            &&& scopes[scopes.len() - 1 - d].contains_key(name)
            &&& (scopes[scopes.len() - 1 - d][name] ==> certain[certain.len() - 1 - d].contains(name))
            &&& (!scopes[scopes.len() - 1 - d][name] ==> d == 0 && hold == Some(name))
        }),
{
    lemma_search(scopes, name, 0);
}

/// A table that is sound for each of some operands is sound for them all.
pub proof fn lemma_all_sound(
    ast: AstView,
    locals: Map<usize, usize>,
    parent: usize,
    list: Seq<usize>,
    i: nat,
    scopes: Scopes,
)
    requires
        forall|k: int| i <= k < list.len() ==> list[k] < parent && sound_expr(
            ast,
            locals,
            #[trigger] list[k],
            scopes,
        ),
    ensures
        sound_exprs(ast, locals, parent, list, i, scopes),
    decreases list.len() - i,
{
    reveal(sound_expr);
    reveal(sound_exprs);
    if i < list.len() {
        assert(sound_expr(ast, locals, list[i as int], scopes));
        lemma_all_sound(ast, locals, parent, list, i + 1, scopes);
    }
}

/// An operand's nodes are among the expression's.
pub proof fn lemma_operand_nodes(ast: AstView, e: usize, k: int)
    requires
        e < ast.exprs.len(),
        0 <= k < ast.exprs[e as int].children().len(),
        ast.exprs[e as int].children()[k] < e,
    ensures
        expr_nodes(ast, ast.exprs[e as int].children()[k]).subset_of(expr_nodes(ast, e)),
        !expr_nodes(ast, ast.exprs[e as int].children()[k]).contains(e),
{
    reveal(expr_nodes);
    lemma_list_member(ast, e, ast.exprs[e as int].children(), 0, k);
    lemma_expr_nodes(ast, ast.exprs[e as int].children()[k]);
}

pub proof fn lemma_fresh_part(locals: Map<usize, usize>, whole: Set<usize>, part: Set<usize>)
    requires
        fresh(locals, whole),
        part.subset_of(whole),
    ensures
        fresh(locals, part),
{
    assert forall|k: usize| part.contains(k) implies !#[trigger] locals.contains_key(k) by {
        assert(whole.contains(k));
    }
}

/// Nodes that were not written are as unknown as before.
pub proof fn lemma_fresh_kept(
    before: Map<usize, usize>,
    later: Map<usize, usize>,
    written: Set<usize>,
    nodes: Set<usize>,
)
    requires
        fresh(before, nodes),
        agree_off(before, later, written),
        written.disjoint(nodes),
    ensures
        fresh(later, nodes),
{
    assert forall|k: usize| nodes.contains(k) implies !#[trigger] later.contains_key(k) by {
        assert(!written.contains(k));
        assert(same_at(before, later, k));
        assert(!before.contains_key(k));
    }
}

pub proof fn lemma_avoids_part(ast: AstView, e: usize, c: usize, name: Seq<char>)
    requires
        avoids(ast, e, name),
        expr_nodes(ast, c).subset_of(expr_nodes(ast, e)),
    ensures
        avoids(ast, c, name),
{
    assert forall|k: usize| #[trigger] expr_nodes(ast, c).contains(k) implies !targets(
        ast.exprs[k as int],
        name,
    ) by {
        assert(expr_nodes(ast, e).contains(k));
    }
}

/// What resolving a reference to `name` at the node `e` records is sound.
pub proof fn lemma_reference(
    r: ResolverView,
    certain: Scopes,
    hold: Option<Seq<char>>,
    e: usize,
    name: Seq<char>,
)
    requires
        known(r.scopes, certain, hold),
        r.scopes.len() <= usize::MAX,
        !r.locals.contains_key(e),
        hold == Some(name) ==> !r.in_own_initializer(name),
        hold == Some(name) ==> distance(r.scopes, name) != Some(0usize),
    ensures
        bound_at(r.resolve_local(e, name).locals, e, name, certain),
{
    if distance(r.scopes, name) is Some {
        lemma_found_is_certain(r.scopes, certain, hold, name);
    }
}

/// The expressions `list[i..]` are apart from each other.
pub open spec fn apart(ast: AstView, list: Seq<usize>, i: nat) -> bool {
    forall|a: int, b: int|
        i <= a < b < list.len() ==> #[trigger] expr_nodes(ast, list[a]).disjoint(
            #[trigger] expr_nodes(ast, list[b]),
        )
}

/// One operand is apart from all that come after it.
pub proof fn lemma_apart_from_rest(ast: AstView, parent: usize, list: Seq<usize>, i: nat)
    requires
        apart(ast, list, i),
        i < list.len(),
    ensures
        list_nodes(ast, parent, list, i + 1).disjoint(expr_nodes(ast, list[i as int])),
{
    assert forall|n: usize| list_nodes(ast, parent, list, i + 1).contains(n) implies !expr_nodes(
        ast,
        list[i as int],
    ).contains(n) by {
        lemma_list_nodes(ast, parent, list, i + 1, n);
        let k = choose|k: int|
            i + 1 <= k < list.len() && list[k] < parent && #[trigger] expr_nodes(ast, list[k]).contains(
                n,
            );
        assert(expr_nodes(ast, list[i as int]).disjoint(expr_nodes(ast, list[k])));
    }
}

/// If the resolver accepts an expression, the table it leaves is sound for
/// the expression.
pub proof fn lemma_resolve_expr(
    ast: AstView,
    r: ResolverView,
    e: usize,
    certain: Scopes,
    hold: Option<Seq<char>>,
)
    requires
        ast.wf(),
        tree(ast),
        spelled(ast),
        e < ast.exprs.len(),
        known(r.scopes, certain, hold),
        r.scopes.len() <= usize::MAX,
        fresh(r.locals, expr_nodes(ast, e)),
        hold matches Some(n) ==> avoids(ast, e, n),
        r.expr(ast, e).1 is Ok,
    ensures
        sound_expr(ast, r.expr(ast, e).0.locals, e, certain),
    decreases e, 1nat, 0nat,
{
    reveal(ResolverView::expr);
    reveal(ResolverView::exprs);
    reveal(sound_expr);
    reveal(sound_exprs);
    let node = ast.exprs[e as int];
    let after = r.expr(ast, e).0.locals;
    lemma_expr_nodes(ast, e);
    assert(node.wf(e as int));
    assert(operands_apart(ast, e as int));
    assert(!r.locals.contains_key(e));
    match node {
        ExprView::Identifier(id) => {
            if distance(r.scopes, id.lexeme) is Some {
                lemma_found_is_certain(r.scopes, certain, hold, id.lexeme);
            }
        },
        ExprView::Literal(_) => {},
        ExprView::This(token) => {
            assert(targets(node, token.lexeme));
            lemma_reference(r, certain, hold, e, token.lexeme);
        },
        ExprView::Super(keyword, _) => {
            assert(targets(node, keyword.lexeme));
            lemma_reference(r, certain, hold, e, keyword.lexeme);
            if distance(r.scopes, keyword.lexeme) is Some {
                lemma_found_is_certain(r.scopes, certain, hold, keyword.lexeme);
                let d = distance(r.scopes, keyword.lexeme)->0;
                let shifted = map![e => (d - 1) as usize];
                assert(shifted.contains_key(e));
                assert(shifted[e] == (d - 1) as usize);
                assert(keyword.lexeme == "super"@ ==> d >= 1);
            }
        },
        ExprView::Assignment(id, val) => {
            assert(targets(node, id.lexeme));
            let list = node.children();
            assert(list =~= seq![val]);
            assert(list[0] == val);
            lemma_operands(ast, r, e, list, certain, hold);
            let mid = r.exprs(ast, e, list, 0).0;
            lemma_exprs_frame(ast, r, e, list, 0);
            reveal(expr_nodes);
            lemma_list_nodes_bound(ast, e, list, 0);
            assert(!list_nodes(ast, e, list, 0).contains(e));
            assert(same_at(r.locals, mid.locals, e));
            lemma_reference(mid, certain, hold, e, id.lexeme);
            // the value's nodes are not this one
            assert(agree_on(mid.locals, after, list_nodes(ast, e, list, 0))) by {
                assert forall|k: usize| list_nodes(ast, e, list, 0).contains(k) implies #[trigger] same_at(
                    mid.locals,
                    after,
                    k,
                ) by {
                    assert(k != e);
                }
            }
            crate::footprint::lemma_sound_exprs_local(
                ast,
                mid.locals,
                after,
                e,
                list,
                0,
                certain,
            );
        },
        ExprView::SetField(object, _, val) => {
            let list = seq![val, object];
            assert(node.children()[0] == object && node.children()[1] == val);
            assert(apart(ast, list, 0)) by {
                assert(expr_nodes(ast, node.children()[0]).disjoint(
                    expr_nodes(ast, node.children()[1]),
                ));
            }
            lemma_operand_nodes(ast, e, 0);
            lemma_operand_nodes(ast, e, 1);
            assert forall|k: int| 0 <= k < list.len() implies ready(
                ast,
                r,
                e,
                #[trigger] list[k],
                hold,
            ) by {
                lemma_fresh_part(r.locals, expr_nodes(ast, e), expr_nodes(ast, list[k]));
                if let Some(n) = hold {
                    lemma_avoids_part(ast, e, list[k], n);
                }
            }
            lemma_resolve_exprs(ast, r, e, list, 0, certain, hold);
            assert forall|k: int| 0 <= k < node.children().len() implies node.children()[k] < e
                && sound_expr(ast, after, #[trigger] node.children()[k], certain) by {
                if k == 0 {
                    assert(node.children()[k] == list[1]);
                } else {
                    assert(node.children()[k] == list[0]);
                }
            }
            lemma_all_sound(ast, after, e, node.children(), 0, certain);
        },
        _ => {
            let list = node.children();
            assert(r.expr(ast, e) == r.exprs(ast, e, list, 0)) by {
                match node {
                    ExprView::Logical(lhs, _, rhs) => assert(list =~= seq![lhs, rhs]),
                    ExprView::Binary(lhs, _, rhs) => assert(list =~= seq![lhs, rhs]),
                    ExprView::Grouping(inner) => assert(list =~= seq![inner]),
                    ExprView::Unary(_, rhs) => assert(list =~= seq![rhs]),
                    ExprView::Get(object, _) => assert(list =~= seq![object]),
                    _ => {},
                }
            }
            lemma_operands(ast, r, e, list, certain, hold);
        },
    }
}

/// No node of a list of operands comes after the expression they belong to.
pub proof fn lemma_list_nodes_bound(ast: AstView, parent: usize, list: Seq<usize>, i: nat)
    ensures
        forall|n: usize| #[trigger] list_nodes(ast, parent, list, i).contains(n) ==> n < parent,
{
    assert forall|n: usize| #[trigger] list_nodes(ast, parent, list, i).contains(n) implies n
        < parent by {
        lemma_list_nodes(ast, parent, list, i, n);
        let k = choose|k: int|
            i <= k < list.len() && list[k] < parent && #[trigger] expr_nodes(ast, list[k]).contains(n);
        lemma_expr_nodes(ast, list[k]);
    }
}

/// The operands of an expression that the resolver accepts, resolved in
/// their order: the table is sound for them all.
pub proof fn lemma_operands(
    ast: AstView,
    r: ResolverView,
    e: usize,
    list: Seq<usize>,
    certain: Scopes,
    hold: Option<Seq<char>>,
)
    requires
        ast.wf(),
        tree(ast),
        spelled(ast),
        e < ast.exprs.len(),
        list == ast.exprs[e as int].children(),
        known(r.scopes, certain, hold),
        r.scopes.len() <= usize::MAX,
        fresh(r.locals, expr_nodes(ast, e)),
        hold matches Some(n) ==> avoids(ast, e, n),
        r.exprs(ast, e, list, 0).1 is Ok,
    ensures
        sound_exprs(ast, r.exprs(ast, e, list, 0).0.locals, e, list, 0, certain),
    decreases e, 0nat, list.len() + 1,
{
    let node = ast.exprs[e as int];
    assert(node.wf(e as int));
    assert(operands_apart(ast, e as int));
    assert forall|k: int| 0 <= k < list.len() implies ready(ast, r, e, #[trigger] list[k], hold) by {
        lemma_operand_nodes(ast, e, k);
        lemma_fresh_part(r.locals, expr_nodes(ast, e), expr_nodes(ast, list[k]));
        if let Some(n) = hold {
            lemma_avoids_part(ast, e, list[k], n);
        }
    }
    lemma_resolve_exprs(ast, r, e, list, 0, certain, hold);
    lemma_all_sound(ast, r.exprs(ast, e, list, 0).0.locals, e, list, 0, certain);
}

/// The operand `c` of `parent` is ready to be resolved: the table does not
/// know its nodes, and it avoids the name held back.
pub open spec fn ready(
    ast: AstView,
    r: ResolverView,
    parent: usize,
    c: usize,
    hold: Option<Seq<char>>,
) -> bool {
    &&& c < parent
    &&& fresh(r.locals, expr_nodes(ast, c))
    &&& hold matches Some(n) ==> avoids(ast, c, n)
}

/// Expressions that the resolver accepts one after the other, and that
/// share no node: the table is sound for each.
pub proof fn lemma_resolve_exprs(
    ast: AstView,
    r: ResolverView,
    parent: usize,
    list: Seq<usize>,
    i: nat,
    certain: Scopes,
    hold: Option<Seq<char>>,
)
    requires
        ast.wf(),
        tree(ast),
        spelled(ast),
        parent < ast.exprs.len(),
        apart(ast, list, i),
        forall|k: int| i <= k < list.len() ==> ready(ast, r, parent, #[trigger] list[k], hold),
        known(r.scopes, certain, hold),
        r.scopes.len() <= usize::MAX,
        r.exprs(ast, parent, list, i).1 is Ok,
    ensures
        forall|k: int|
            i <= k < list.len() ==> list[k] < parent && sound_expr(
                ast,
                r.exprs(ast, parent, list, i).0.locals,
                #[trigger] list[k],
                certain,
            ),
    decreases parent, 0nat, list.len() - i,
{
    reveal(ResolverView::expr);
    reveal(ResolverView::exprs);
    if i < list.len() {
        let c = list[i as int];
        assert(ready(ast, r, parent, c, hold));
        let (r1, res) = r.expr(ast, c);
        let r2 = r1.exprs(ast, parent, list, i + 1).0;
        lemma_resolve_expr(ast, r, c, certain, hold);
        lemma_expr_frame(ast, r, c);
        assert forall|k: int| i + 1 <= k < list.len() implies ready(
            ast,
            r1,
            parent,
            #[trigger] list[k],
            hold,
        ) by {
            assert(ready(ast, r, parent, list[k], hold));
            assert(expr_nodes(ast, list[i as int]).disjoint(expr_nodes(ast, list[k])));
            lemma_fresh_kept(r.locals, r1.locals, expr_nodes(ast, c), expr_nodes(ast, list[k]));
        }
        lemma_resolve_exprs(ast, r1, parent, list, i + 1, certain, hold);
        lemma_exprs_frame(ast, r1, parent, list, i + 1);
        lemma_apart_from_rest(ast, parent, list, i);
        lemma_agree_apart(
            r1.locals,
            r2.locals,
            list_nodes(ast, parent, list, i + 1),
            expr_nodes(ast, c),
        );
        lemma_sound_expr_local(ast, r1.locals, r2.locals, c, certain);
    }
}

} // verus!
