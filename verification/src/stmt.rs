//! Statement nodes.

use vstd::prelude::*;
use crate::tokens::{Token, TokenView};

verus! {

/// The most arguments a call may pass and the most parameters a function
/// may declare.
pub const FUNCTION_MAX_ARGS: usize = 255;

#[derive(Debug)]
pub enum Stmt {
    Expression(usize),
    Print(usize),
    Declaration(Token, Option<usize>),
    Block(Vec<usize>),
    If(usize, usize, Option<usize>),
    While(usize, usize),
    Break(Token),
    /// Name, parameters, and the block that is the body.
    Function(Token, Vec<Token>, usize),
    Return(Token, Option<usize>),
    /// Name, the expression naming the superclass, and the methods, each a
    /// `Function` statement.
    Class(Token, Option<usize>, Vec<usize>),
}

pub enum StmtView {
    Expression(usize),
    Print(usize),
    Declaration(TokenView, Option<usize>),
    Block(Seq<usize>),
    If(usize, usize, Option<usize>),
    While(usize, usize),
    Break(TokenView),
    Function(TokenView, Seq<TokenView>, usize),
    Return(TokenView, Option<usize>),
    Class(TokenView, Option<usize>, Seq<usize>),
}

/// The views of a sequence of tokens.
pub open spec fn token_views(tokens: Seq<Token>) -> Seq<TokenView> {
    Seq::new(tokens.len(), |i: int| tokens[i]@)
}

impl View for Stmt {
    type V = StmtView;

    open spec fn view(&self) -> StmtView {
        match self {
            Stmt::Expression(expr) => StmtView::Expression(*expr),
            Stmt::Print(expr) => StmtView::Print(*expr),
            Stmt::Declaration(id, init) => StmtView::Declaration(id@, *init),
            Stmt::Block(body) => StmtView::Block(body@),
            Stmt::If(cond, then_stmt, else_stmt) => StmtView::If(*cond, *then_stmt, *else_stmt),
            Stmt::While(cond, body) => StmtView::While(*cond, *body),
            Stmt::Break(token) => StmtView::Break(token@),
            Stmt::Function(name, params, body) => StmtView::Function(
                name@,
                token_views(params@),
                *body,
            ),
            Stmt::Return(keyword, val) => StmtView::Return(keyword@, *val),
            Stmt::Class(name, parent, methods) => StmtView::Class(name@, *parent, methods@),
        }
    }
}

impl StmtView {
    /// The expressions the statement holds directly.
    pub open spec fn exprs(self) -> Seq<usize> {
        match self {
            StmtView::Expression(expr) => seq![expr],
            StmtView::Print(expr) => seq![expr],
            StmtView::Declaration(_, Some(init)) => seq![init],
            StmtView::If(cond, _, _) => seq![cond],
            StmtView::While(cond, _) => seq![cond],
            StmtView::Return(_, Some(val)) => seq![val],
            StmtView::Class(_, Some(parent), _) => seq![parent],
            _ => seq![],
        }
    }

    /// The statements the statement holds directly.
    pub open spec fn stmts(self) -> Seq<usize> {
        match self {
            StmtView::Block(body) => body,
            StmtView::If(_, then_stmt, Some(else_stmt)) => seq![then_stmt, else_stmt],
            StmtView::If(_, then_stmt, None) => seq![then_stmt],
            StmtView::While(_, body) => seq![body],
            StmtView::Function(_, _, body) => seq![body],
            StmtView::Class(_, _, methods) => methods,
            _ => seq![],
        }
    }

    /// The body of a function declaration.
    pub open spec fn function_body(self) -> usize {
        match self {
            StmtView::Function(_, _, body) => body,
            _ => 0,
        }
    }

    /// The methods of a class declaration.
    pub open spec fn class_methods(self) -> Seq<usize> {
        match self {
            StmtView::Class(_, _, methods) => methods,
            _ => seq![],
        }
    }

    /// A statement may only name nodes that were stored before it.
    pub open spec fn wf(self, id: int, n_exprs: int) -> bool {
        &&& forall|k: int| 0 <= k < self.exprs().len() ==> (#[trigger] self.exprs()[k]) < n_exprs
        &&& forall|k: int| 0 <= k < self.stmts().len() ==> (#[trigger] self.stmts()[k]) < id
    }
}

} // verus!
