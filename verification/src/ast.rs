//! The syntax store: every node the parser has made, in the order it made
//! them. Nodes are only ever added, so an index names the same node for as
//! long as the store lives.

use vstd::prelude::*;
use crate::expr::{Expr, ExprView};
use crate::stmt::{Stmt, StmtView};

verus! {

pub struct Ast {
    pub exprs: Vec<Expr>,
    pub stmts: Vec<Stmt>,
}

pub struct AstView {
    pub exprs: Seq<ExprView>,
    pub stmts: Seq<StmtView>,
}

impl View for Ast {
    type V = AstView;

    open spec fn view(&self) -> AstView {
        AstView {
            exprs: Seq::new(self.exprs@.len(), |i: int| self.exprs@[i]@),
            stmts: Seq::new(self.stmts@.len(), |i: int| self.stmts@[i]@),
        }
    }
}

impl AstView {
    pub open spec fn empty() -> AstView {
        AstView { exprs: Seq::empty(), stmts: Seq::empty() }
    }

    /// The store with one more expression, and that expression's index.
    pub open spec fn add_expr(self, e: ExprView) -> (AstView, usize) {
        (AstView { exprs: self.exprs.push(e), ..self }, self.exprs.len() as usize)
    }

    /// The store with one more statement, and that statement's index.
    pub open spec fn add_stmt(self, s: StmtView) -> (AstView, usize) {
        (AstView { stmts: self.stmts.push(s), ..self }, self.stmts.len() as usize)
    }

    /// Every node names only nodes stored before it; a function's body is a
    /// block and a class's methods are functions.
    pub open spec fn wf(self) -> bool {
        &&& forall|i: int| 0 <= i < self.exprs.len() ==> (#[trigger] self.exprs[i]).wf(i)
        &&& forall|i: int|
            0 <= i < self.stmts.len() ==> (#[trigger] self.stmts[i]).wf(i, self.exprs.len() as int)
        &&& forall|i: int|
            0 <= i < self.stmts.len() && (#[trigger] self.stmts[i]) is Function
                ==> self.stmts[self.stmts[i].function_body() as int] is Block
        &&& forall|i: int, k: int|
            0 <= i < self.stmts.len() && 0 <= k < self.stmts[i].class_methods().len()
                ==> self.stmts[(#[trigger] self.stmts[i].class_methods()[k]) as int] is Function
    }

    /// `self` holds every node of `old` at the same index.
    pub open spec fn extends(self, old: AstView) -> bool {
        &&& old.exprs.len() <= self.exprs.len()
        &&& old.stmts.len() <= self.stmts.len()
        &&& forall|i: int| 0 <= i < old.exprs.len() ==> self.exprs[i] == old.exprs[i]
        &&& forall|i: int| 0 <= i < old.stmts.len() ==> self.stmts[i] == old.stmts[i]
    }
}

/// Adding an expression that names only stored expressions keeps the store
/// well formed and every stored node in place.
pub proof fn lemma_add_expr(ast: AstView, e: ExprView)
    requires
        ast.wf(),
        e.wf(ast.exprs.len() as int),
    ensures
        ast.add_expr(e).0.wf(),
        ast.add_expr(e).0.extends(ast),
{
    let next = ast.add_expr(e).0;
    assert forall|i: int| 0 <= i < next.exprs.len() implies (#[trigger] next.exprs[i]).wf(i) by {
        if i < ast.exprs.len() {
            assert(next.exprs[i] == ast.exprs[i]);
        }
    }
    assert forall|i: int| 0 <= i < next.stmts.len() implies (#[trigger] next.stmts[i]).wf(
        i,
        next.exprs.len() as int,
    ) by {
        assert(ast.stmts[i].wf(i, ast.exprs.len() as int));
    }
}

/// Adding a statement that names only stored nodes, with a block for a
/// function's body and functions for a class's methods, keeps the store well
/// formed and every stored node in place.
pub proof fn lemma_add_stmt(ast: AstView, s: StmtView)
    requires
        ast.wf(),
        s.wf(ast.stmts.len() as int, ast.exprs.len() as int),
        s is Function ==> ast.stmts[s.function_body() as int] is Block,
        forall|k: int|
            0 <= k < s.class_methods().len() ==> ast.stmts[(#[trigger] s.class_methods()[k]) as int] is Function,
    ensures
        ast.add_stmt(s).0.wf(),
        ast.add_stmt(s).0.extends(ast),
{
    let next = ast.add_stmt(s).0;
    let n = ast.stmts.len() as int;
    assert forall|i: int| 0 <= i < next.stmts.len() implies (#[trigger] next.stmts[i]).wf(
        i,
        next.exprs.len() as int,
    ) by {
        if i < n {
            assert(next.stmts[i] == ast.stmts[i]);
        }
    }
    assert forall|i: int| 0 <= i < next.stmts.len() && (#[trigger] next.stmts[i]) is Function implies next.stmts[next.stmts[i].function_body() as int] is Block by {
        if i < n {
            assert(next.stmts[i] == ast.stmts[i]);
            assert(ast.stmts[i].wf(i, ast.exprs.len() as int));
            assert(ast.stmts[i].stmts()[0] == ast.stmts[i].function_body());
        } else {
            assert(s.stmts()[0] == s.function_body());
        }
    }
    assert forall|i: int, k: int|
        0 <= i < next.stmts.len() && 0 <= k < next.stmts[i].class_methods().len() implies next.stmts[(#[trigger] next.stmts[i].class_methods()[k]) as int] is Function by {
        if i < n {
            assert(next.stmts[i] == ast.stmts[i]);
            assert(ast.stmts[i].wf(i, ast.exprs.len() as int));
            assert(ast.stmts[i].stmts()[k] == ast.stmts[i].class_methods()[k]);
        } else {
            assert(s.stmts()[k] == s.class_methods()[k]);
        }
    }
}

/// Growth of the store composes.
pub proof fn lemma_extends_trans(a: AstView, b: AstView, c: AstView)
    requires
        b.extends(a),
        c.extends(b),
    ensures
        c.extends(a),
{
}

impl Ast {
    pub open spec fn wf(&self) -> bool {
        self@.wf()
    }

    pub fn new() -> (ast: Self)
        ensures
            ast@ == AstView::empty(),
            ast.wf(),
    {
        let ast = Ast { exprs: Vec::new(), stmts: Vec::new() };
        assert(ast@.exprs =~= Seq::empty());
        assert(ast@.stmts =~= Seq::empty());
        ast
    }

    /// Stores an expression and yields its index.
    pub fn add_expr(&mut self, e: Expr) -> (id: usize)
        ensures
            (final(self)@, id) == old(self)@.add_expr(e@),
            id == old(self)@.exprs.len(),
    {
        let id = self.exprs.len();
        self.exprs.push(e);
        assert(self@.exprs =~= old(self)@.exprs.push(e@));
        assert(self@.stmts =~= old(self)@.stmts);
        id
    }

    /// Stores a statement and yields its index.
    pub fn add_stmt(&mut self, s: Stmt) -> (id: usize)
        ensures
            (final(self)@, id) == old(self)@.add_stmt(s@),
            id == old(self)@.stmts.len(),
    {
        let id = self.stmts.len();
        self.stmts.push(s);
        assert(self@.stmts =~= old(self)@.stmts.push(s@));
        assert(self@.exprs =~= old(self)@.exprs);
        id
    }

    pub fn expr(&self, id: usize) -> (e: &Expr)
        requires
            id < self@.exprs.len(),
        ensures
            e@ == self@.exprs[id as int],
    {
        &self.exprs[id]
    }

    pub fn stmt(&self, id: usize) -> (s: &Stmt)
        requires
            id < self@.stmts.len(),
        ensures
            s@ == self@.stmts[id as int],
    {
        &self.stmts[id]
    }

    pub fn n_exprs(&self) -> (n: usize)
        ensures
            n == self@.exprs.len(),
    {
        self.exprs.len()
    }

    pub fn n_stmts(&self) -> (n: usize)
        ensures
            n == self@.stmts.len(),
    {
        self.stmts.len()
    }
}

} // verus!
