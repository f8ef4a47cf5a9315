//! Expression nodes.
//!
//! A node names its operands by their index in the syntax store (see
//! `crate::ast`). That index is the node's identity: the resolver's side
//! table is keyed by it.

use vstd::prelude::*;
use crate::tokens::{Token, TokenView};

verus! {

#[derive(Debug)]
pub enum Expr {
    Identifier(Token),
    Literal(Token),
    Logical(usize, Token, usize),
    Grouping(usize),
    Unary(Token, usize),
    Binary(usize, Token, usize),
    Assignment(Token, usize),
    Call(usize, Token, Vec<usize>),
    Get(usize, Token),
    SetField(usize, Token, usize),
    This(Token),
    Super(Token, Token),
}

pub enum ExprView {
    Identifier(TokenView),
    Literal(TokenView),
    Logical(usize, TokenView, usize),
    Grouping(usize),
    Unary(TokenView, usize),
    Binary(usize, TokenView, usize),
    Assignment(TokenView, usize),
    Call(usize, TokenView, Seq<usize>),
    Get(usize, TokenView),
    SetField(usize, TokenView, usize),
    This(TokenView),
    Super(TokenView, TokenView),
}

impl View for Expr {
    type V = ExprView;

    open spec fn view(&self) -> ExprView {
        match self {
            Expr::Identifier(id) => ExprView::Identifier(id@),
            Expr::Literal(lit) => ExprView::Literal(lit@),
            Expr::Logical(lhs, op, rhs) => ExprView::Logical(*lhs, op@, *rhs),
            Expr::Grouping(group) => ExprView::Grouping(*group),
            Expr::Unary(op, rhs) => ExprView::Unary(op@, *rhs),
            Expr::Binary(lhs, op, rhs) => ExprView::Binary(*lhs, op@, *rhs),
            Expr::Assignment(id, val) => ExprView::Assignment(id@, *val),
            Expr::Call(callee, paren, args) => ExprView::Call(*callee, paren@, args@),
            Expr::Get(object, prop) => ExprView::Get(*object, prop@),
            Expr::SetField(object, prop, val) => ExprView::SetField(*object, prop@, *val),
            Expr::This(token) => ExprView::This(token@),
            Expr::Super(keyword, method) => ExprView::Super(keyword@, method@),
        }
    }
}

impl ExprView {
    /// The operands of the node, in evaluation order.
    pub open spec fn children(self) -> Seq<usize> {
        match self {
            ExprView::Identifier(_) => seq![],
            ExprView::Literal(_) => seq![],
            ExprView::Logical(lhs, _, rhs) => seq![lhs, rhs],
            ExprView::Grouping(group) => seq![group],
            ExprView::Unary(_, rhs) => seq![rhs],
            ExprView::Binary(lhs, _, rhs) => seq![lhs, rhs],
            ExprView::Assignment(_, val) => seq![val],
            ExprView::Call(callee, _, args) => seq![callee] + args,
            ExprView::Get(object, _) => seq![object],
            ExprView::SetField(object, _, val) => seq![object, val],
            ExprView::This(_) => seq![],
            ExprView::Super(_, _) => seq![],
        }
    }

    /// A node may only name nodes that were stored before it.
    pub open spec fn wf(self, id: int) -> bool {
        forall|k: int| 0 <= k < self.children().len() ==> (#[trigger] self.children()[k]) < id
    }
}

} // verus!
