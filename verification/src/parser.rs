//! The parser: from tokens to syntax, by recursive descent.
//!
//! The grammar is written twice. `ParseState` carries it as a mathematical
//! function: given the tokens, a position and the syntax store, each rule
//! says which nodes are added, where the position ends up, and which node or
//! error comes out. `Parser` is the executable parser; each of its methods
//! is proved to compute exactly what the rule of the same name says.

use vstd::prelude::*;
use crate::ast::{Ast, AstView};
use crate::error::{ErrorView, RloxError};
use crate::expr::{Expr, ExprView};
use crate::ast::lemma_extends_trans;
use crate::forest::{
    forest, high_stmt, lemma_expr_before_all, lemma_expr_before_stmt, lemma_expr_then_stmt,
    lemma_forest_add_expr, lemma_forest_add_stmt, lemma_forest_empty, lemma_high_stmt,
    lemma_high_stmt_extends, lemma_lined_up_one, lemma_lined_up_push, lemma_lined_up_use,
    lemma_low_extends, lemma_low_new_expr, lemma_low_new_stmt, lemma_low_operand,
    lemma_low_stmt_extends, lemma_low_stmt_weaken, lemma_low_weaken, lemma_stmt_then_stmt,
    lemma_stmts_apart, lemma_stmts_lined_up_none, lemma_stmts_lined_up_push,
    lemma_stmts_lined_up_use, lemma_stmts_lined_up_weaken, lemma_then, lined_up, low, low_stmt,
    operands_apart_of, parts_apart_of, stmts_lined_up,
};
use crate::resolution::{named_expr, named_stmt, named_well};
use crate::scanner::{
    all_spelled, lemma_drain_spelled, scanned_view, spelled_token, Scanned, ScannedView, Scanner,
};
use crate::stmt::{token_views, Stmt, StmtView, FUNCTION_MAX_ARGS};
use crate::tokens::{Literal, LiteralView, Token, TokenType, TokenView};

verus! {

/// The outcome of a rule that yields a node: its index, or an error.
pub type Parsed = (ParseState, Result<usize, ErrorView>);

pub open spec fn id_result_view(r: Result<usize, RloxError>) -> Result<usize, ErrorView> {
    match r {
        Ok(id) => Ok(id),
        Err(e) => Err(e@),
    }
}

pub open spec fn token_result_view(r: Result<Token, RloxError>) -> Result<TokenView, ErrorView> {
    match r {
        Ok(t) => Ok(t@),
        Err(e) => Err(e@),
    }
}

pub open spec fn opt_token_view(t: Option<Token>) -> Option<TokenView> {
    match t {
        Some(t) => Some(t@),
        None => None,
    }
}

/// How tightly the binary operators bind, loosest last.
pub const FACTOR: u8 = 0;

pub const TERM: u8 = 1;

pub const COMPARISON: u8 = 2;

pub const EQUALITY: u8 = 3;

pub const LOGICAL_AND: u8 = 4;

pub const LOGICAL_OR: u8 = 5;

/// The operators of one precedence level.
pub open spec fn level_ops(level: u8) -> Seq<TokenType> {
    if level == FACTOR {
        seq![TokenType::Slash, TokenType::Star]
    } else if level == TERM {
        seq![TokenType::Plus, TokenType::Minus]
    } else if level == COMPARISON {
        seq![TokenType::Greater, TokenType::GreaterEqual, TokenType::Less, TokenType::LessEqual]
    } else if level == EQUALITY {
        seq![TokenType::BangEqual, TokenType::EqualEqual]
    } else if level == LOGICAL_AND {
        seq![TokenType::And]
    } else {
        seq![TokenType::Or]
    }
}

/// The kinds of token that begin a statement other than an expression statement.
pub open spec fn statement_starts() -> Seq<TokenType> {
    seq![
        TokenType::Print,
        TokenType::Var,
        TokenType::LBrace,
        TokenType::If,
        TokenType::While,
        TokenType::For,
        TokenType::Break,
        TokenType::Fun,
        TokenType::Class,
        TokenType::Return,
    ]
}

/// The keywords at which error recovery stops.
pub open spec fn sync_points() -> Seq<TokenType> {
    seq![
        TokenType::Class,
        TokenType::Fun,
        TokenType::Var,
        TokenType::For,
        TokenType::If,
        TokenType::While,
        TokenType::Print,
        TokenType::Return,
    ]
}

/// The kinds of token that are a primary expression by themselves.
pub open spec fn atoms() -> Seq<TokenType> {
    seq![
        TokenType::Nil,
        TokenType::False,
        TokenType::True,
        TokenType::Number,
        TokenType::StringLiteral,
        TokenType::Ident,
        TokenType::This,
    ]
}

/// The text by which a diagnostic shows a token: its lexeme, and `EOF` for
/// the end of the input.
pub open spec fn shown(token: TokenView) -> Seq<char> {
    if token.token_type == TokenType::Eof {
        "EOF"@
    } else {
        token.lexeme
    }
}

/// The error for a token that no rule can take.
pub open spec fn unexpected(token: TokenView) -> ErrorView {
    ErrorView::Parse(token.line, "Unexpected Token"@, shown(token))
}

/// The `true` that stands for the missing condition of a `for`, placed where
/// the semicolon `at` is.
pub open spec fn always(at: TokenView) -> TokenView {
    TokenView {
        token_type: TokenType::True,
        lexeme: "true"@,
        literal: Some(LiteralView::Boolean(true)),
        line: at.line,
        offset: at.offset,
    }
}

/// The parser as a mathematical value: the tokens, how many of them have been
/// consumed, and the syntax store that nodes are added to.
pub struct ParseState {
    pub tokens: Seq<ScannedView>,
    pub pos: int,
    pub ast: AstView,
}

impl ParseState {
    /// How many tokens are still to be consumed.
    pub open spec fn remaining(self) -> nat {
        if 0 <= self.pos <= self.tokens.len() {
            (self.tokens.len() - self.pos) as nat
        } else {
            0
        }
    }

    pub open spec fn peek(self) -> Option<ScannedView> {
        if 0 <= self.pos < self.tokens.len() {
            Some(self.tokens[self.pos])
        } else {
            None
        }
    }

    /// Whether the next token is of one of the kinds `types`.
    pub open spec fn check(self, types: Seq<TokenType>) -> bool {
        self.peek() matches Some(Ok(t)) && types.contains(t.token_type)
    }

    /// The state with one more token consumed.
    pub open spec fn bump(self) -> ParseState {
        ParseState { pos: self.pos + 1, ..self }
    }

    /// Consumes the next token if it is of one of the kinds `types`.
    pub open spec fn check_advance(self, types: Seq<TokenType>) -> (ParseState, Option<TokenView>) {
        if self.check(types) {
            (self.bump(), Some(self.peek()->0->Ok_0))
        } else {
            (self, None)
        }
    }

    /// The line on which the tokens end: that of the last token. Where
    /// there is no token at all the input ends on its first line.
    pub open spec fn last_line(self) -> usize {
        if self.tokens.len() > 0 {
            match self.tokens.last() {
                Ok(token) => token.line,
                Err(e) => e.line(),
            }
        } else {
            1
        }
    }

    /// The line and the text of the place where the parser stands: those of
    /// the next token, or, past the last token, the line on which the
    /// tokens end and `EOF`.
    pub open spec fn here(self) -> (usize, Seq<char>) {
        match self.peek() {
            Some(Ok(token)) => (token.line, shown(token)),
            Some(Err(e)) => (e.line(), e.near()),
            None => (self.last_line(), "EOF"@),
        }
    }

    /// The error `msg`, found where the parser stands.
    pub open spec fn error_here(self, msg: Seq<char>) -> ErrorView {
        ErrorView::Parse(self.here().0, msg, self.here().1)
    }

    /// The error that the next token calls for. A token that does not fit
    /// stays where it is; a lexical error is consumed and passed on.
    pub open spec fn peek_err(self) -> (ParseState, ErrorView) {
        match self.peek() {
            Some(Ok(token)) => (self, unexpected(token)),
            Some(Err(e)) => (self.bump(), e),
            None => (self, self.error_here("Unexpected EOF"@)),
        }
    }

    /// Consumes the next token, which must be of one of the kinds `types`.
    pub open spec fn must_advance(self, types: Seq<TokenType>) -> (
        ParseState,
        Result<TokenView, ErrorView>,
    ) {
        if self.check(types) {
            (self.bump(), Ok(self.peek()->0->Ok_0))
        } else {
            let (s, e) = self.peek_err();
            (s, Err(e))
        }
    }

    /// Stores an expression node.
    pub open spec fn add_expr(self, e: ExprView) -> Parsed {
        let (ast, id) = self.ast.add_expr(e);
        (ParseState { ast, ..self }, Ok(id))
    }

    /// Stores a statement node.
    pub open spec fn add_stmt(self, s: StmtView) -> Parsed {
        let (ast, id) = self.ast.add_stmt(s);
        (ParseState { ast, ..self }, Ok(id))
    }

    /// `later` has consumed at least one token more than `self`.
    pub open spec fn before(self, later: ParseState) -> bool {
        later.remaining() < self.remaining()
    }

    /// `later` has consumed no fewer tokens than `self`.
    pub open spec fn not_after(self, later: ParseState) -> bool {
        later.remaining() <= self.remaining()
    }

    /// What a rule yields should the parser ever fail to move forward. No
    /// rule does: the executable parser proves it of each.
    pub open spec fn stalled(self) -> Parsed {
        (self, Err(self.error_here("Unexpected Token"@)))
    }

    // primary → NUMBER | STRING | "true" | "false" | "nil" | "this" | IDENT
    //         | "(" expression ")" | "super" "." IDENT
    #[verifier::opaque]
    pub open spec fn primary(self) -> Parsed
        decreases self.remaining(), 0nat, 0nat,
    {
        let (s1, atom) = self.check_advance(atoms());
        let (s2, keyword) = self.check_advance(seq![TokenType::Super]);
        let (s3, paren) = self.check_advance(seq![TokenType::LParen]);
        if let Some(token) = atom {
            if token.token_type == TokenType::Ident {
                s1.add_expr(ExprView::Identifier(token))
            } else if token.token_type == TokenType::This {
                s1.add_expr(ExprView::This(token))
            } else {
                s1.add_expr(ExprView::Literal(token))
            }
        } else if let Some(keyword) = keyword {
            let (s4, dot) = s2.must_advance(seq![TokenType::Dot]);
            let (s5, method) = s4.must_advance(seq![TokenType::Ident]);
            if let Err(e) = dot {
                (s4, Err(e))
            } else if let Err(e) = method {
                (s5, Err(e))
            } else {
                s5.add_expr(ExprView::Super(keyword, method->Ok_0))
            }
        } else if paren is Some {
            let (s4, inner) = s3.expression();
            let (s5, close) = s4.must_advance(seq![TokenType::RParen]);
            if let Err(e) = inner {
                (s4, Err(e))
            } else if let Err(e) = close {
                (s5, Err(e))
            } else {
                s5.add_expr(ExprView::Grouping(inner->Ok_0))
            }
        } else {
            let (s4, e) = self.peek_err();
            (s4, Err(e))
        }
    }

    // The arguments of a call whose opening parenthesis has been consumed,
    // after `args` have been parsed: more arguments, then ")".
    #[verifier::opaque]
    pub open spec fn finish_call_args(self, callee: usize, args: Seq<usize>) -> Parsed
        decreases self.remaining(), 25nat, 0nat,
    {
        if args.len() >= FUNCTION_MAX_ARGS {
            (self, Err(self.error_here("Can't have more than 255 arguments"@)))
        } else {
            let (s1, arg) = self.expression();
            match arg {
                Err(e) => (s1, Err(e)),
                Ok(arg) => {
                    let (s2, comma) = s1.check_advance(seq![TokenType::Comma]);
                    if comma is Some {
                        if self.before(s2) {
                            s2.finish_call_args(callee, args.push(arg))
                        } else {
                            s2.stalled()
                        }
                    } else {
                        s2.finish_call_close(callee, args.push(arg))
                    }
                },
            }
        }
    }

    // The closing parenthesis of a call, and the call node.
    pub open spec fn finish_call_close(self, callee: usize, args: Seq<usize>) -> Parsed {
        let (s1, paren) = self.must_advance(seq![TokenType::RParen]);
        match paren {
            Err(e) => (s1, Err(e)),
            Ok(paren) => s1.add_expr(ExprView::Call(callee, paren, args)),
        }
    }

    // The rest of a call whose opening parenthesis has been consumed.
    #[verifier::opaque]
    pub open spec fn finish_call(self, callee: usize) -> Parsed
        decreases self.remaining(), 25nat, 1nat,
    {
        if self.check(seq![TokenType::RParen]) {
            self.finish_call_close(callee, seq![])
        } else {
            self.finish_call_args(callee, seq![])
        }
    }

    // What may follow a primary: ( "(" args? ")" | "." IDENT )*
    #[verifier::opaque]
    pub open spec fn call_rest(self, callee: usize) -> Parsed
        decreases self.remaining(), 11nat, 0nat,
    {
        let (s1, paren) = self.check_advance(seq![TokenType::LParen]);
        let (s2, dot) = self.check_advance(seq![TokenType::Dot]);
        if paren is Some {
            let (s3, call) = s1.finish_call(callee);
            match call {
                Err(e) => (s3, Err(e)),
                Ok(call) => if self.before(s3) {
                    s3.call_rest(call)
                } else {
                    s3.stalled()
                },
            }
        } else if dot is Some {
            let (s3, name) = s2.must_advance(seq![TokenType::Ident]);
            match name {
                Err(e) => (s3, Err(e)),
                Ok(name) => {
                    let (s4, get) = s3.add_expr(ExprView::Get(callee, name));
                    if self.before(s4) {
                        s4.call_rest(get->Ok_0)
                    } else {
                        s4.stalled()
                    }
                },
            }
        } else {
            (self, Ok(callee))
        }
    }

    // call → primary ( "(" args? ")" | "." IDENT )*
    #[verifier::opaque]
    pub open spec fn call(self) -> Parsed
        decreases self.remaining(), 1nat, 0nat,
    {
        let (s1, callee) = self.primary();
        match callee {
            Err(e) => (s1, Err(e)),
            Ok(callee) => if self.before(s1) {
                s1.call_rest(callee)
            } else {
                s1.stalled()
            },
        }
    }

    // unary → ("!"|"-") unary | call
    #[verifier::opaque]
    pub open spec fn unary(self) -> Parsed
        decreases self.remaining(), 2nat, 0nat,
    {
        let (s1, op) = self.check_advance(seq![TokenType::Bang, TokenType::Minus]);
        match op {
            Some(op) => {
                let (s2, rhs) = s1.unary();
                match rhs {
                    Err(e) => (s2, Err(e)),
                    Ok(rhs) => s2.add_expr(ExprView::Unary(op, rhs)),
                }
            },
            None => self.call(),
        }
    }

    // An operand of the operators of `level`: a chain of the next tighter
    // level, or a unary expression below the tightest.
    #[verifier::opaque]
    pub open spec fn operand(self, level: u8) -> Parsed
        decreases self.remaining(), 3nat + level as nat, 0nat,
    {
        if level == FACTOR {
            self.unary()
        } else {
            self.binary((level - 1) as u8)
        }
    }

    // The node for `lhs op rhs` at `level`.
    pub open spec fn join(level: u8, lhs: usize, op: TokenView, rhs: usize) -> ExprView {
        if level >= LOGICAL_AND {
            ExprView::Logical(lhs, op, rhs)
        } else {
            ExprView::Binary(lhs, op, rhs)
        }
    }

    // What may follow the left operand `lhs` at `level`: ( op operand )*,
    // grouping to the left.
    #[verifier::opaque]
    pub open spec fn binary_rest(self, level: u8, lhs: usize) -> Parsed
        decreases self.remaining(), 3nat + level as nat, 1nat,
    {
        let (s1, op) = self.check_advance(level_ops(level));
        match op {
            None => (self, Ok(lhs)),
            Some(op) => {
                let (s2, rhs) = s1.operand(level);
                match rhs {
                    Err(e) => (s2, Err(e)),
                    Ok(rhs) => {
                        let (s3, node) = s2.add_expr(Self::join(level, lhs, op, rhs));
                        if self.before(s3) {
                            s3.binary_rest(level, node->Ok_0)
                        } else {
                            s3.stalled()
                        }
                    },
                }
            },
        }
    }

    // One precedence level: operand ( op operand )*
    #[verifier::opaque]
    pub open spec fn binary(self, level: u8) -> Parsed
        decreases self.remaining(), 3nat + level as nat, 2nat,
    {
        let (s1, lhs) = self.operand(level);
        match lhs {
            Err(e) => (s1, Err(e)),
            Ok(lhs) => if self.not_after(s1) {
                s1.binary_rest(level, lhs)
            } else {
                s1.stalled()
            },
        }
    }

    pub open spec fn factor(self) -> Parsed {
        self.binary(FACTOR)
    }

    pub open spec fn term(self) -> Parsed {
        self.binary(TERM)
    }

    pub open spec fn comparison(self) -> Parsed {
        self.binary(COMPARISON)
    }

    pub open spec fn equality(self) -> Parsed {
        self.binary(EQUALITY)
    }

    pub open spec fn logical_and(self) -> Parsed {
        self.binary(LOGICAL_AND)
    }

    pub open spec fn logical_or(self) -> Parsed {
        self.binary(LOGICAL_OR)
    }

    // assignment → (call ".")? IDENT "=" assignment | logic_or
    //
    // The left side is parsed as an expression. If "=" follows, it must be a
    // variable or a property access, and becomes the target.
    #[verifier::opaque]
    pub open spec fn assignment(self) -> Parsed
        decreases self.remaining(), 20nat, 0nat,
    {
        let (s1, lhs) = self.binary(LOGICAL_OR);
        match lhs {
            Err(e) => (s1, Err(e)),
            Ok(lhs) => {
                let (s2, equals) = s1.check_advance(seq![TokenType::Equal]);
                match equals {
                    None => (s1, Ok(lhs)),
                    Some(equals) => if !(0 <= lhs < s2.ast.exprs.len()) || !self.before(s2) {
                        s2.stalled()
                    } else {
                        match s2.ast.exprs[lhs as int] {
                            ExprView::Identifier(name) => {
                                let (s3, value) = s2.assignment();
                                match value {
                                    Err(e) => (s3, Err(e)),
                                    Ok(value) => s3.add_expr(ExprView::Assignment(name, value)),
                                }
                            },
                            ExprView::Get(object, name) => {
                                let (s3, value) = s2.assignment();
                                match value {
                                    Err(e) => (s3, Err(e)),
                                    Ok(value) => s3.add_expr(
                                        ExprView::SetField(object, name, value),
                                    ),
                                }
                            },
                            _ => (
                                s2,
                                Err(
                                    ErrorView::Parse(
                                        equals.line,
                                        "Invalid assignment target."@,
                                        equals.lexeme,
                                    ),
                                ),
                            ),
                        }
                    },
                }
            },
        }
    }

    // expression → assignment
    #[verifier::opaque]
    pub open spec fn expression(self) -> Parsed
        decreases self.remaining(), 21nat, 0nat,
    {
        self.assignment()
    }

    // The ";" that ends a statement, and the statement node.
    pub open spec fn end_statement(self, s: StmtView) -> Parsed {
        let (s1, semi) = self.must_advance(seq![TokenType::SemiColon]);
        match semi {
            Err(e) => (s1, Err(e)),
            Ok(_) => s1.add_stmt(s),
        }
    }

    // printStmt → "print" expression ";"
    #[verifier::opaque]
    pub open spec fn print_statement(self) -> Parsed
        decreases self.remaining(), 22nat, 0nat,
    {
        let (s1, expr) = self.expression();
        match expr {
            Err(e) => (s1, Err(e)),
            Ok(expr) => s1.end_statement(StmtView::Print(expr)),
        }
    }

    // exprStmt → expression ";"
    #[verifier::opaque]
    pub open spec fn expr_statement(self) -> Parsed
        decreases self.remaining(), 22nat, 0nat,
    {
        let (s1, expr) = self.expression();
        match expr {
            Err(e) => (s1, Err(e)),
            Ok(expr) => s1.end_statement(StmtView::Expression(expr)),
        }
    }

    // varDecl → "var" IDENT ("=" expression)? ";"
    #[verifier::opaque]
    pub open spec fn decl_statement(self) -> Parsed
        decreases self.remaining(), 22nat, 0nat,
    {
        let (s1, id) = self.must_advance(seq![TokenType::Ident]);
        match id {
            Err(e) => (s1, Err(e)),
            Ok(id) => {
                let (s2, equals) = s1.check_advance(seq![TokenType::Equal]);
                if equals is None {
                    s1.end_statement(StmtView::Declaration(id, None))
                } else {
                    let (s3, init) = s2.expression();
                    match init {
                        Err(e) => (s3, Err(e)),
                        Ok(init) => s3.end_statement(StmtView::Declaration(id, Some(init))),
                    }
                }
            },
        }
    }

    // The statements of a block whose "{" has been consumed, after `body`
    // have been parsed, up to the "}".
    #[verifier::opaque]
    pub open spec fn block_rest(self, body: Seq<usize>) -> Parsed
        decreases self.remaining(), 50nat, 0nat,
    {
        let (s1, close) = self.check_advance(seq![TokenType::RBrace]);
        if close is Some || self.peek() is None {
            s1.add_stmt(StmtView::Block(body))
        } else {
            let (s2, stmt) = self.statement();
            match stmt {
                Err(e) => (s2, Err(e)),
                Ok(stmt) => if self.before(s2) {
                    s2.block_rest(body.push(stmt))
                } else {
                    s2.stalled()
                },
            }
        }
    }

    // block → "{" statement* "}"
    #[verifier::opaque]
    pub open spec fn block_statement(self) -> Parsed
        decreases self.remaining(), 50nat, 1nat,
    {
        self.block_rest(seq![])
    }

    // ifStmt → "if" "(" expression ")" statement ("else" statement)?
    #[verifier::opaque]
    pub open spec fn if_statement(self) -> Parsed
        decreases self.remaining(), 30nat, 1nat,
    {
        let (s1, open) = self.must_advance(seq![TokenType::LParen]);
        let (s2, cond) = s1.expression();
        let (s3, close) = s2.must_advance(seq![TokenType::RParen]);
        if let Err(e) = open {
            (s1, Err(e))
        } else if let Err(e) = cond {
            (s2, Err(e))
        } else if let Err(e) = close {
            (s3, Err(e))
        } else if !self.before(s3) {
            s3.stalled()
        } else {
            let (s4, then_stmt) = s3.statement();
            match then_stmt {
                Err(e) => (s4, Err(e)),
                Ok(then_stmt) => {
                    let (s5, else_kw) = s4.check_advance(seq![TokenType::Else]);
                    if else_kw is None {
                        s4.add_stmt(StmtView::If(cond->Ok_0, then_stmt, None))
                    } else if !self.before(s5) {
                        s5.stalled()
                    } else {
                        let (s6, else_stmt) = s5.statement();
                        match else_stmt {
                            Err(e) => (s6, Err(e)),
                            Ok(else_stmt) => s6.add_stmt(
                                StmtView::If(cond->Ok_0, then_stmt, Some(else_stmt)),
                            ),
                        }
                    }
                },
            }
        }
    }

    // whileStmt → "while" "(" expression ")" statement
    #[verifier::opaque]
    pub open spec fn while_statement(self) -> Parsed
        decreases self.remaining(), 30nat, 1nat,
    {
        let (s1, open) = self.must_advance(seq![TokenType::LParen]);
        let (s2, cond) = s1.expression();
        let (s3, close) = s2.must_advance(seq![TokenType::RParen]);
        if let Err(e) = open {
            (s1, Err(e))
        } else if let Err(e) = cond {
            (s2, Err(e))
        } else if let Err(e) = close {
            (s3, Err(e))
        } else if !self.before(s3) {
            s3.stalled()
        } else {
            let (s4, body) = s3.statement();
            match body {
                Err(e) => (s4, Err(e)),
                Ok(body) => s4.add_stmt(StmtView::While(cond->Ok_0, body)),
            }
        }
    }

    // The first clause of a `for`: a declaration, an expression statement,
    // or nothing but ";".
    #[verifier::opaque]
    pub open spec fn for_init(self) -> (ParseState, Result<Option<usize>, ErrorView>)
        decreases self.remaining(), 22nat, 1nat,
    {
        let (s1, start) = self.check_advance(seq![TokenType::SemiColon, TokenType::Var]);
        match start {
            None => {
                let (s2, init) = self.expr_statement();
                match init {
                    Err(e) => (s2, Err(e)),
                    Ok(init) => (s2, Ok(Some(init))),
                }
            },
            Some(t) => if t.token_type == TokenType::SemiColon {
                (s1, Ok(None))
            } else {
                let (s2, init) = s1.decl_statement();
                match init {
                    Err(e) => (s2, Err(e)),
                    Ok(init) => (s2, Ok(Some(init))),
                }
            },
        }
    }

    // The second clause of a `for`: a condition and ";", or ";" alone, which
    // stands for `true`.
    #[verifier::opaque]
    pub open spec fn for_cond(self) -> Parsed
        decreases self.remaining(), 22nat, 1nat,
    {
        let (s1, semi) = self.check_advance(seq![TokenType::SemiColon]);
        match semi {
            Some(semi) => s1.add_expr(ExprView::Literal(always(semi))),
            None => {
                let (s2, cond) = self.expression();
                let (s3, semi) = s2.must_advance(seq![TokenType::SemiColon]);
                if let Err(e) = cond {
                    (s2, Err(e))
                } else if let Err(e) = semi {
                    (s3, Err(e))
                } else {
                    (s3, cond)
                }
            },
        }
    }

    // The third clause of a `for`: an expression and ")", or ")" alone.
    #[verifier::opaque]
    pub open spec fn for_step(self) -> (ParseState, Result<Option<usize>, ErrorView>)
        decreases self.remaining(), 22nat, 1nat,
    {
        let (s1, close) = self.check_advance(seq![TokenType::RParen]);
        match close {
            Some(_) => (s1, Ok(None)),
            None => {
                let (s2, step) = self.expression();
                let (s3, close) = s2.must_advance(seq![TokenType::RParen]);
                if let Err(e) = step {
                    (s2, Err(e))
                } else if let Err(e) = close {
                    (s3, Err(e))
                } else {
                    let (s4, stmt) = s3.add_stmt(StmtView::Expression(step->Ok_0));
                    (s4, Ok(Some(stmt->Ok_0)))
                }
            },
        }
    }

    // forStmt → "for" "(" (varDecl | exprStmt | ";") expression? ";" expression? ")" statement
    //
    // There is no `for` node. `for (I; C; S) B` is stored as
    // `{ I; while (C) { B; S; } }`, without the inner block where there is no
    // S and without the outer block where there is no I.
    #[verifier::opaque]
    pub open spec fn for_statement(self) -> Parsed
        decreases self.remaining(), 30nat, 1nat,
    {
        let (s1, open) = self.must_advance(seq![TokenType::LParen]);
        let (s2, init) = s1.for_init();
        let (s3, cond) = s2.for_cond();
        let (s4, step) = s3.for_step();
        if let Err(e) = open {
            (s1, Err(e))
        } else if let Err(e) = init {
            (s2, Err(e))
        } else if let Err(e) = cond {
            (s3, Err(e))
        } else if let Err(e) = step {
            (s4, Err(e))
        } else if !self.before(s4) {
            s4.stalled()
        } else {
            let (s5, body) = s4.statement();
            match body {
                Err(e) => (s5, Err(e)),
                Ok(body) => s5.for_loop(init->Ok_0, cond->Ok_0, step->Ok_0, body),
            }
        }
    }

    /// The loop that a `for` statement stands for, built from its parts.
    pub open spec fn for_loop(self, init: Option<usize>, cond: usize, step: Option<usize>, body: usize) -> Parsed {
        let (s1, stepped) = match step {
            Some(step) => self.add_stmt(StmtView::Block(seq![body, step])),
            None => (self, Ok(body)),
        };
        let (s2, looped) = s1.add_stmt(StmtView::While(cond, stepped->Ok_0));
        match init {
            Some(init) => s2.add_stmt(StmtView::Block(seq![init, looped->Ok_0])),
            None => (s2, looped),
        }
    }

    // breakStmt → "break" ";"
    pub open spec fn break_statement(self, token: TokenView) -> Parsed {
        self.end_statement(StmtView::Break(token))
    }

    // returnStmt → "return" expression? ";"
    #[verifier::opaque]
    pub open spec fn return_statement(self, keyword: TokenView) -> Parsed
        decreases self.remaining(), 22nat, 1nat,
    {
        if self.check(seq![TokenType::SemiColon]) {
            self.end_statement(StmtView::Return(keyword, None))
        } else {
            let (s1, value) = self.expression();
            match value {
                Err(e) => (s1, Err(e)),
                Ok(value) => s1.end_statement(StmtView::Return(keyword, Some(value))),
            }
        }
    }

    // The parameters of a function after `params` have been parsed and a
    // further one is due: IDENT ("," IDENT)*
    pub open spec fn function_params(self, name: TokenView, params: Seq<TokenView>) -> (
        ParseState,
        Result<Seq<TokenView>, ErrorView>,
    )
        decreases self.remaining(),
    {
        if params.len() >= FUNCTION_MAX_ARGS {
            (
                self,
                Err(
                    ErrorView::Parse(name.line, "Cannot have more than 255 parameters"@, name.lexeme),
                ),
            )
        } else {
            let (s1, param) = self.must_advance(seq![TokenType::Ident]);
            match param {
                Err(e) => (s1, Err(e)),
                Ok(param) => {
                    let (s2, comma) = s1.check_advance(seq![TokenType::Comma]);
                    if comma is Some {
                        s2.function_params(name, params.push(param))
                    } else {
                        (s1, Ok(params.push(param)))
                    }
                },
            }
        }
    }

    // function → IDENT "(" params? ")" block
    #[verifier::opaque]
    pub open spec fn function(self) -> Parsed
        decreases self.remaining(), 31nat, 0nat,
    {
        let (s1, name) = self.must_advance(seq![TokenType::Ident]);
        let (s2, open) = s1.must_advance(seq![TokenType::LParen]);
        let (s3, params) = if s2.check(seq![TokenType::RParen]) {
            (s2, Ok(seq![]))
        } else {
            s2.function_params(name->Ok_0, seq![])
        };
        let (s4, close) = s3.must_advance(seq![TokenType::RParen]);
        let (s5, brace) = s4.must_advance(seq![TokenType::LBrace]);
        if let Err(e) = name {
            (s1, Err(e))
        } else if let Err(e) = open {
            (s2, Err(e))
        } else if let Err(e) = params {
            (s3, Err(e))
        } else if let Err(e) = close {
            (s4, Err(e))
        } else if let Err(e) = brace {
            (s5, Err(e))
        } else if !self.before(s5) {
            s5.stalled()
        } else {
            let (s6, body) = s5.block_statement();
            match body {
                Err(e) => (s6, Err(e)),
                Ok(body) => s6.add_stmt(StmtView::Function(name->Ok_0, params->Ok_0, body)),
            }
        }
    }

    // The methods of a class whose "{" has been consumed, after `methods`
    // have been parsed, up to the "}".
    #[verifier::opaque]
    pub open spec fn class_rest(
        self,
        name: TokenView,
        parent: Option<usize>,
        methods: Seq<usize>,
    ) -> Parsed
        decreases self.remaining(), 32nat, 0nat,
    {
        let (s1, close) = self.check_advance(seq![TokenType::RBrace]);
        if close is Some {
            s1.add_stmt(StmtView::Class(name, parent, methods))
        } else {
            let (s2, method) = self.function();
            match method {
                Err(e) => (s2, Err(e)),
                Ok(method) => if self.before(s2) {
                    s2.class_rest(name, parent, methods.push(method))
                } else {
                    s2.stalled()
                },
            }
        }
    }

    // The superclass clause of a class: ("<" IDENT)?
    pub open spec fn class_parent(self) -> (ParseState, Result<Option<usize>, ErrorView>) {
        let (s1, less) = self.check_advance(seq![TokenType::Less]);
        if less is None {
            (self, Ok(None))
        } else {
            let (s2, parent) = s1.must_advance(seq![TokenType::Ident]);
            match parent {
                Err(e) => (s2, Err(e)),
                Ok(parent) => {
                    let (s3, node) = s2.add_expr(ExprView::Identifier(parent));
                    (s3, Ok(Some(node->Ok_0)))
                },
            }
        }
    }

    // classDecl → "class" IDENT ("<" IDENT)? "{" function* "}"
    #[verifier::opaque]
    pub open spec fn class_statement(self) -> Parsed
        decreases self.remaining(), 32nat, 1nat,
    {
        let (s1, name) = self.must_advance(seq![TokenType::Ident]);
        let (s2, parent) = s1.class_parent();
        let (s3, brace) = s2.must_advance(seq![TokenType::LBrace]);
        if let Err(e) = name {
            (s1, Err(e))
        } else if let Err(e) = parent {
            (s2, Err(e))
        } else if let Err(e) = brace {
            (s3, Err(e))
        } else if !self.not_after(s3) {
            s3.stalled()
        } else {
            s3.class_rest(name->Ok_0, parent->Ok_0, seq![])
        }
    }

    // statement → varDecl | funDecl | classDecl | printStmt | block | ifStmt
    //           | whileStmt | forStmt | breakStmt | returnStmt | exprStmt
    #[verifier::opaque]
    pub open spec fn statement(self) -> Parsed
        decreases self.remaining(), 40nat, 0nat,
    {
        let (s1, start) = self.check_advance(statement_starts());
        match start {
            None => self.expr_statement(),
            Some(token) => match token.token_type {
                TokenType::Print => s1.print_statement(),
                TokenType::Var => s1.decl_statement(),
                TokenType::LBrace => s1.block_statement(),
                TokenType::If => s1.if_statement(),
                TokenType::While => s1.while_statement(),
                TokenType::For => s1.for_statement(),
                TokenType::Break => s1.break_statement(token),
                TokenType::Fun => s1.function(),
                TokenType::Class => s1.class_statement(),
                _ => s1.return_statement(token),
            },
        }
    }

    /// Whether the parser stands at the end of the input: at the end-of-input
    /// token or beyond the last token.
    pub open spec fn at_end(self) -> bool {
        self.peek() is None || self.check(seq![TokenType::Eof])
    }

    /// Error recovery: tokens are dropped until a semicolon has been dropped
    /// or the next token begins a statement. A lexical error and the end of
    /// the input stop it too.
    pub open spec fn synchronize(self) -> ParseState
        decreases self.remaining(),
    {
        match self.peek() {
            Some(Ok(t)) => if t.token_type == TokenType::Eof || sync_points().contains(
                t.token_type,
            ) {
                self
            } else if t.token_type == TokenType::SemiColon {
                self.bump()
            } else {
                self.bump().synchronize()
            },
            _ => self,
        }
    }

    /// One step of the statement sequence: nothing at the end of the input,
    /// otherwise the next statement, or its error with the parser moved on
    /// to where parsing can resume.
    pub open spec fn next(self) -> (ParseState, Option<Result<usize, ErrorView>>) {
        if self.at_end() {
            (self, None)
        } else {
            let (s1, stmt) = self.statement();
            match stmt {
                Ok(_) => (s1, Some(stmt)),
                Err(_) => (s1.synchronize(), Some(stmt)),
            }
        }
    }

    /// The state with every token consumed.
    pub open spec fn skip_rest(self) -> ParseState {
        ParseState { pos: self.tokens.len() as int, ..self }
    }

    /// The position is within the tokens, the store is a well-formed
    /// forest, and every `super` is spelled `super`.
    pub open spec fn wf(self) -> bool {
        &&& 0 <= self.pos <= self.tokens.len()
        &&& self.ast.wf()
        &&& forest(self.ast)
        &&& all_spelled(self.tokens)
    }

    /// What every rule keeps: the tokens, the nodes already stored, and the
    /// well-formedness of the store; and the position never moves back.
    pub open spec fn leads_to(self, later: ParseState) -> bool {
        &&& later.tokens == self.tokens
        &&& self.pos <= later.pos
        &&& later.wf()
        &&& later.ast.extends(self.ast)
    }
}


/// The token is of one of the kinds `kinds`; if it is the keyword `this`
/// or `super` it is spelled so, and if it is an identifier it is not.
pub open spec fn taken(t: TokenView, kinds: Seq<TokenType>) -> bool {
    kinds.contains(t.token_type) && spelled_token(Ok(t))
}

/// A rule has run from `pre` to `post` and yielded `r`: the tokens and the
/// stored nodes are kept, and a node that was yielded is stored, cost at
/// least one token, and is made of nodes that were stored by this rule.
pub open spec fn parsed_expr(pre: ParseState, post: ParseState, r: Result<usize, ErrorView>) -> bool {
    &&& pre.leads_to(post)
    &&& r matches Ok(id) ==> id < post.ast.exprs.len() && pre.pos < post.pos && low(
        post.ast,
        id,
        pre.ast.exprs.len() as int,
    )
}

pub open spec fn parsed_stmt(pre: ParseState, post: ParseState, r: Result<usize, ErrorView>) -> bool {
    &&& pre.leads_to(post)
    &&& r matches Ok(id) ==> id < post.ast.stmts.len() && pre.pos < post.pos && low_stmt(
        post.ast,
        id,
        pre.ast.exprs.len() as int,
    )
}

pub open spec fn scanned_views(tokens: Seq<Scanned>) -> Seq<ScannedView> {
    Seq::new(tokens.len(), |i: int| scanned_view(tokens[i]))
}

pub struct Parser {
    pub tokens: Vec<Scanned>,
    pub pos: usize,
    pub ast: Ast,
}

impl View for Parser {
    type V = ParseState;

    open spec fn view(&self) -> ParseState {
        ParseState { tokens: scanned_views(self.tokens@), pos: self.pos as int, ast: self.ast@ }
    }
}

/// Everything the scanner has left to yield.
fn drain(src: Scanner) -> (tokens: Vec<Scanned>)
    requires
        src.wf(),
    ensures
        scanned_views(tokens@) == src@.drain(),
{
    let mut src = src;
    let ghost start = src@;
    let mut tokens: Vec<Scanned> = Vec::new();
    assert(scanned_views(tokens@) + src@.drain() =~= start.drain());
    loop
        invariant
            src.wf(),
            scanned_views(tokens@) + src@.drain() == start.drain(),
        ensures
            scanned_views(tokens@) == start.drain(),
        decreases src@.left(),
    {
        let ghost before = src@;
        let ghost done = scanned_views(tokens@);
        proof {
            if !before.eof {
                crate::scanner::lemma_scan(before.clear());
            }
        }
        match src.next() {
            Some(t) => {
                tokens.push(t);
                assert(scanned_views(tokens@) =~= done + seq![scanned_view(t)]);
                assert(scanned_views(tokens@) + src@.drain() =~= done + (seq![scanned_view(t)]
                    + src@.drain()));
            },
            None => {
                assert(before.drain() =~= seq![]);
                assert(done + before.drain() =~= done);
                break;
            },
        }
    }
    tokens
}

impl Parser {
    pub open spec fn wf(&self) -> bool {
        self@.wf()
    }

    /// A parser over the tokens of `src`, with an empty syntax store.
    pub fn new(src: Scanner) -> (p: Self)
        requires
            src.wf(),
        ensures
            p.wf(),
            p@ == (ParseState { tokens: src@.drain(), pos: 0, ast: AstView::empty() }),
    {
        proof {
            lemma_drain_spelled(src@);
            lemma_forest_empty();
        }
        Parser { tokens: drain(src), pos: 0, ast: Ast::new() }
    }

    /// Starts on a new input. The nodes stored so far stay where they are.
    pub fn feed(&mut self, src: Scanner)
        requires
            old(self).wf(),
            src.wf(),
        ensures
            final(self).wf(),
            final(self)@ == (ParseState { tokens: src@.drain(), pos: 0, ast: old(self)@.ast }),
    {
        proof {
            lemma_drain_spelled(src@);
        }
        self.tokens = drain(src);
        self.pos = 0;
    }

    /// Gives up on the rest of the input.
    pub fn skip_rest(&mut self)
        requires
            old(self).wf(),
        ensures
            final(self).wf(),
            final(self)@ == old(self)@.skip_rest(),
    {
        self.pos = self.tokens.len();
    }

    fn peek_none(&self) -> (r: bool)
        requires
            self.wf(),
        ensures
            r == (self@.peek() is None),
    {
        self.pos >= self.tokens.len()
    }

    /// Whether the next token is of one of the kinds `types`.
    pub fn check(&self, types: &[TokenType]) -> (r: bool)
        requires
            self.wf(),
        ensures
            r == self@.check(types@),
    {
        if self.pos < self.tokens.len() {
            match &self.tokens[self.pos] {
                Ok(t) => t.in_types(types),
                Err(_) => false,
            }
        } else {
            false
        }
    }

    fn check1(&self, kind: TokenType) -> (r: bool)
        requires
            self.wf(),
        ensures
            r == self@.check(seq![kind]),
    {
        let types = [kind];
        assert(types@ =~= seq![kind]);
        self.check(&types)
    }

    fn check_advance(&mut self, types: &[TokenType]) -> (r: Option<Token>)
        requires
            old(self).wf(),
        ensures
            final(self).wf(),
            old(self)@.leads_to(final(self)@),
            (final(self)@, opt_token_view(r)) == old(self)@.check_advance(types@),
            r matches Some(t) ==> old(self)@.pos < final(self)@.pos && taken(t@, types@),
            final(self)@.ast == old(self)@.ast,
    {
        if self.check(types) {
            assert(self@.check(types@));
            assert(self@.peek() is Some);
            assert(self@.tokens.len() == self.tokens@.len());
            assert(self.pos < self.tokens.len());
            proof {
                reveal(all_spelled);
                assert(spelled_token(self@.tokens[self.pos as int]));
            }
            let token = match &self.tokens[self.pos] {
                Ok(t) => t.clone(),
                Err(_) => Token::default(),
            };
            self.pos += 1;
            Some(token)
        } else {
            None
        }
    }

    fn check_advance1(&mut self, kind: TokenType) -> (r: Option<Token>)
        requires
            old(self).wf(),
        ensures
            final(self).wf(),
            old(self)@.leads_to(final(self)@),
            (final(self)@, opt_token_view(r)) == old(self)@.check_advance(seq![kind]),
            r matches Some(t) ==> old(self)@.pos < final(self)@.pos && taken(t@, seq![kind]),
            final(self)@.ast == old(self)@.ast,
    {
        let types = [kind];
        assert(types@ =~= seq![kind]);
        self.check_advance(&types)
    }

    fn peek_err(&mut self) -> (e: RloxError)
        requires
            old(self).wf(),
        ensures
            final(self).wf(),
            old(self)@.leads_to(final(self)@),
            (final(self)@, e@) == old(self)@.peek_err(),
            final(self)@.ast == old(self)@.ast,
    {
        if self.pos < self.tokens.len() {
            match &self.tokens[self.pos] {
                Ok(token) => Parser::unexpected(token),
                Err(e) => {
                    let e = e.clone();
                    self.pos += 1;
                    e
                },
            }
        } else {
            self.error_here("Unexpected EOF")
        }
    }

    /// The text by which a diagnostic shows the token.
    fn shown(token: &Token) -> (r: String)
        ensures
            r@ == shown(token@),
    {
        match token.token_type {
            TokenType::Eof => "EOF".to_string(),
            _ => token.lexeme.clone(),
        }
    }

    /// The error `msg`, found where the parser stands.
    fn error_here(&self, msg: &str) -> (e: RloxError)
        requires
            self.wf(),
        ensures
            e@ == self@.error_here(msg@),
    {
        if self.pos < self.tokens.len() {
            assert(self@.tokens[self.pos as int] == scanned_view(self.tokens@[self.pos as int]));
            match &self.tokens[self.pos] {
                Ok(token) => RloxError::Parse(token.line, msg.to_string(), Parser::shown(token)),
                Err(e) => RloxError::Parse(e.line(), msg.to_string(), e.near()),
            }
        } else if self.tokens.len() > 0 {
            let last = self.tokens.len() - 1;
            assert(self@.tokens.last() == scanned_view(self.tokens@[last as int]));
            let line = match &self.tokens[last] {
                Ok(token) => token.line,
                Err(e) => e.line(),
            };
            RloxError::Parse(line, msg.to_string(), "EOF".to_string())
        } else {
            RloxError::Parse(1, msg.to_string(), "EOF".to_string())
        }
    }

    /// Consumes the next token, or fails if it is of none of the kinds `types`.
    fn must_advance(&mut self, types: &[TokenType]) -> (r: Result<Token, RloxError>)
        requires
            old(self).wf(),
        ensures
            final(self).wf(),
            old(self)@.leads_to(final(self)@),
            (final(self)@, token_result_view(r)) == old(self)@.must_advance(types@),
            r matches Ok(t) ==> old(self)@.pos < final(self)@.pos && taken(t@, types@),
            final(self)@.ast == old(self)@.ast,
    {
        match self.check_advance(types) {
            Some(t) => Ok(t),
            None => Err(self.peek_err()),
        }
    }

    fn must_advance1(&mut self, kind: TokenType) -> (r: Result<Token, RloxError>)
        requires
            old(self).wf(),
        ensures
            final(self).wf(),
            old(self)@.leads_to(final(self)@),
            (final(self)@, token_result_view(r)) == old(self)@.must_advance(seq![kind]),
            r matches Ok(t) ==> old(self)@.pos < final(self)@.pos && taken(t@, seq![kind]),
            final(self)@.ast == old(self)@.ast,
    {
        let types = [kind];
        assert(types@ =~= seq![kind]);
        self.must_advance(&types)
    }

    fn unexpected(token: &Token) -> (e: RloxError)
        ensures
            e@ == unexpected(token@),
    {
        RloxError::Parse(token.line, "Unexpected Token".to_string(), Parser::shown(token))
    }

    /// Stores an expression whose operands were parsed from the node `lo`
    /// on, one after the other.
    fn add_expr(&mut self, e: Expr, Ghost(lo): Ghost<int>) -> (r: Result<usize, RloxError>)
        requires
            old(self).wf(),
            e@.wf(old(self)@.ast.exprs.len() as int),
            operands_apart_of(old(self)@.ast, e@),
            e@ matches ExprView::Super(keyword, _) ==> keyword.lexeme == "super"@,
            named_expr(e@),
            lo <= old(self)@.ast.exprs.len(),
            forall|k: int|
                0 <= k < e@.children().len() ==> low(old(self)@.ast, #[trigger] e@.children()[k], lo),
        ensures
            final(self).wf(),
            old(self)@.leads_to(final(self)@),
            (final(self)@, id_result_view(r)) == old(self)@.add_expr(e@),
            r matches Ok(id) && id < final(self)@.ast.exprs.len() && low(final(self)@.ast, id, lo)
                && final(self)@.ast.exprs[id as int] == e@,
            final(self)@.pos == old(self)@.pos,
    {
        proof {
            crate::ast::lemma_add_expr(self@.ast, e@);
            lemma_forest_add_expr(self@.ast, e@);
        }
        let ghost node = e@;
        let id = self.ast.add_expr(e);
        proof {
            lemma_low_new_expr(old(self)@.ast, node, id, lo);
        }
        assert(self@.ast.exprs == old(self)@.ast.exprs.push(node));
        Ok(id)
    }

    /// Stores a statement whose parts were parsed from the node `lo` on,
    /// one after the other.
    fn add_stmt(&mut self, s: Stmt, Ghost(lo): Ghost<int>) -> (r: Result<usize, RloxError>)
        requires
            old(self).wf(),
            s@.wf(old(self)@.ast.stmts.len() as int, old(self)@.ast.exprs.len() as int),
            s@ is Function ==> old(self)@.ast.stmts[s@.function_body() as int] is Block,
            forall|k: int|
                0 <= k < s@.class_methods().len() ==> old(self)@.ast.stmts[(
                #[trigger] s@.class_methods()[k]) as int] is Function,
            parts_apart_of(old(self)@.ast, s@),
            named_stmt(old(self)@.ast, s@),
            forall|k: int| 0 <= k < s@.exprs().len() ==> low(old(self)@.ast, #[trigger] s@.exprs()[k], lo),
            forall|k: int|
                0 <= k < s@.stmts().len() ==> low_stmt(old(self)@.ast, #[trigger] s@.stmts()[k], lo),
        ensures
            final(self).wf(),
            old(self)@.leads_to(final(self)@),
            (final(self)@, id_result_view(r)) == old(self)@.add_stmt(s@),
            r is Ok,
            r->Ok_0 < final(self)@.ast.stmts.len(),
            final(self)@.ast.stmts[r->Ok_0 as int] == s@,
            low_stmt(final(self)@.ast, r->Ok_0, lo),
            final(self)@.pos == old(self)@.pos,
    {
        proof {
            crate::ast::lemma_add_stmt(self@.ast, s@);
            lemma_forest_add_stmt(self@.ast, s@);
        }
        let ghost node = s@;
        let id = self.ast.add_stmt(s);
        proof {
            lemma_low_new_stmt(old(self)@.ast, node, id, lo);
        }
        assert(self@.ast.stmts == old(self)@.ast.stmts.push(node));
        assert(self@.ast.stmts[id as int] == node);
        Ok(id)
    }

    #[verifier::rlimit(100)]
    fn primary(&mut self) -> (r: Result<usize, RloxError>)
        requires
            old(self).wf(),
        ensures
            final(self).wf(),
            parsed_expr(old(self)@, final(self)@, id_result_view(r)),
            (final(self)@, id_result_view(r)) == old(self)@.primary(),
        decreases old(self)@.remaining(), 0nat, 0nat,
    {
        reveal(ParseState::primary);
        reveal(ParseState::expression);
        let kinds = [
            TokenType::Nil,
            TokenType::False,
            TokenType::True,
            TokenType::Number,
            TokenType::StringLiteral,
            TokenType::Ident,
            TokenType::This,
        ];
        assert(kinds@ =~= atoms());
        let ghost n0 = self@.ast.exprs.len() as int;
        if let Some(token) = self.check_advance(&kinds) {
            return match token.token_type {
                TokenType::Ident => self.add_expr(Expr::Identifier(token), Ghost(n0)),
                TokenType::This => self.add_expr(Expr::This(token), Ghost(n0)),
                _ => self.add_expr(Expr::Literal(token), Ghost(n0)),
            };
        }
        if let Some(keyword) = self.check_advance1(TokenType::Super) {
            if let Err(e) = self.must_advance1(TokenType::Dot) {
                return Err(e);
            }
            let method = match self.must_advance1(TokenType::Ident) {
                Ok(method) => method,
                Err(e) => return Err(e),
            };
            return self.add_expr(Expr::Super(keyword, method), Ghost(n0));
        }
        if let Some(_) = self.check_advance1(TokenType::LParen) {
            let inner = match self.expression() {
                Ok(inner) => inner,
                Err(e) => return Err(e),
            };
            if let Err(e) = self.must_advance1(TokenType::RParen) {
                return Err(e);
            }
            return self.add_expr(Expr::Grouping(inner), Ghost(n0));
        }
        Err(self.peek_err())
    }

    fn finish_call_close(&mut self, callee: usize, args: Vec<usize>, Ghost(lo): Ghost<int>) -> (r:
        Result<usize, RloxError>)
        requires
            old(self).wf(),
            lined_up(old(self)@.ast, seq![callee] + args@, lo),
            lo <= old(self)@.ast.exprs.len(),
        ensures
            final(self).wf(),
            old(self)@.leads_to(final(self)@),
            r matches Ok(id) ==> id < final(self)@.ast.exprs.len() && old(self)@.pos < final(self)@.pos
                && low(final(self)@.ast, id, lo),
            (final(self)@, id_result_view(r)) == old(self)@.finish_call_close(callee, args@),
    {
        let ghost list = seq![callee] + args@;
        proof {
            lemma_lined_up_use(self@.ast, list, lo);
        }
        let paren = match self.must_advance1(TokenType::RParen) {
            Ok(paren) => paren,
            Err(e) => return Err(e),
        };
        let node = Expr::Call(callee, paren, args);
        assert(node@.children() == list);
        self.add_expr(node, Ghost(lo))
    }

    fn finish_call(&mut self, callee: usize, Ghost(lo): Ghost<int>) -> (r: Result<usize, RloxError>)
        requires
            old(self).wf(),
            callee < old(self)@.ast.exprs.len(),
            low(old(self)@.ast, callee, lo),
            lo <= old(self)@.ast.exprs.len(),
        ensures
            final(self).wf(),
            old(self)@.leads_to(final(self)@),
            r matches Ok(id) ==> id < final(self)@.ast.exprs.len() && old(self)@.pos < final(self)@.pos
                && low(final(self)@.ast, id, lo),
            (final(self)@, id_result_view(r)) == old(self)@.finish_call(callee),
        decreases old(self)@.remaining(), 25nat, 1nat,
    {
        reveal(ParseState::finish_call);
        reveal(ParseState::finish_call_args);
        reveal(ParseState::expression);
        let mut args: Vec<usize> = Vec::new();
        proof {
            lemma_lined_up_one(self@.ast, callee, lo);
            assert(seq![callee] + args@ =~= seq![callee]);
        }
        if self.check1(TokenType::RParen) {
            return self.finish_call_close(callee, args, Ghost(lo));
        }
        loop
            invariant
                self.wf(),
                old(self)@.leads_to(self@),
                lined_up(self@.ast, seq![callee] + args@, lo),
                lo <= self@.ast.exprs.len(),
                old(self)@.finish_call(callee) == self@.finish_call_args(callee, args@),
            decreases self@.remaining(),
        {
            reveal(ParseState::finish_call);
            reveal(ParseState::finish_call_args);
            reveal(ParseState::expression);
            if args.len() >= FUNCTION_MAX_ARGS {
                return Err(self.error_here("Can't have more than 255 arguments"));
            }
            let ghost before = self@;
            let ghost parsed = seq![callee] + args@;
            let arg = match self.expression() {
                Ok(arg) => arg,
                Err(e) => return Err(e),
            };
            proof {
                lemma_lined_up_push(lo, before.ast, self@.ast, parsed, arg);
            }
            args.push(arg);
            assert(seq![callee] + args@ =~= parsed.push(arg));
            if self.check_advance1(TokenType::Comma).is_none() {
                return self.finish_call_close(callee, args, Ghost(lo));
            }
        }
    }

    fn call(&mut self) -> (r: Result<usize, RloxError>)
        requires
            old(self).wf(),
        ensures
            final(self).wf(),
            parsed_expr(old(self)@, final(self)@, id_result_view(r)),
            (final(self)@, id_result_view(r)) == old(self)@.call(),
        decreases old(self)@.remaining(), 1nat, 0nat,
    {
        reveal(ParseState::call);
        reveal(ParseState::call_rest);
        reveal(ParseState::primary);
        reveal(ParseState::finish_call);
        let ghost n0 = self@.ast.exprs.len() as int;
        let mut expr = match self.primary() {
            Ok(expr) => expr,
            Err(e) => return Err(e),
        };
        loop
            invariant
                self.wf(),
                old(self)@.leads_to(self@),
                old(self)@.pos < self@.pos,
                expr < self@.ast.exprs.len(),
                n0 == old(self)@.ast.exprs.len(),
                low(self@.ast, expr, n0),
                old(self)@.call() == self@.call_rest(expr),
            decreases self@.remaining(),
        {
            reveal(ParseState::call);
            reveal(ParseState::call_rest);
            reveal(ParseState::primary);
            reveal(ParseState::finish_call);
            if let Some(_) = self.check_advance1(TokenType::LParen) {
                expr = match self.finish_call(expr, Ghost(n0)) {
                    Ok(call) => call,
                    Err(e) => return Err(e),
                };
            } else if let Some(_) = self.check_advance1(TokenType::Dot) {
                let name = match self.must_advance1(TokenType::Ident) {
                    Ok(name) => name,
                    Err(e) => return Err(e),
                };
                expr = match self.add_expr(Expr::Get(expr, name), Ghost(n0)) {
                    Ok(get) => get,
                    Err(e) => return Err(e),
                };
            } else {
                return Ok(expr);
            }
        }
    }

    fn unary(&mut self) -> (r: Result<usize, RloxError>)
        requires
            old(self).wf(),
        ensures
            final(self).wf(),
            parsed_expr(old(self)@, final(self)@, id_result_view(r)),
            (final(self)@, id_result_view(r)) == old(self)@.unary(),
        decreases old(self)@.remaining(), 2nat, 0nat,
    {
        reveal(ParseState::unary);
        reveal(ParseState::call);
        let kinds = [TokenType::Bang, TokenType::Minus];
        assert(kinds@ =~= seq![TokenType::Bang, TokenType::Minus]);
        let ghost n0 = self@.ast.exprs.len() as int;
        if let Some(op) = self.check_advance(&kinds) {
            let rhs = match self.unary() {
                Ok(rhs) => rhs,
                Err(e) => return Err(e),
            };
            return self.add_expr(Expr::Unary(op, rhs), Ghost(n0));
        }
        self.call()
    }

    fn operand(&mut self, level: u8) -> (r: Result<usize, RloxError>)
        requires
            old(self).wf(),
            level <= LOGICAL_OR,
        ensures
            final(self).wf(),
            parsed_expr(old(self)@, final(self)@, id_result_view(r)),
            (final(self)@, id_result_view(r)) == old(self)@.operand(level),
        decreases old(self)@.remaining(), 3nat + level as nat, 0nat,
    {
        reveal(ParseState::operand);
        reveal(ParseState::unary);
        reveal(ParseState::binary);
        if level == FACTOR {
            self.unary()
        } else {
            self.binary(level - 1)
        }
    }

    /// Consumes the next token if it is an operator of `level`.
    fn check_level(&mut self, level: u8) -> (r: Option<Token>)
        requires
            old(self).wf(),
        ensures
            final(self).wf(),
            old(self)@.leads_to(final(self)@),
            (final(self)@, opt_token_view(r)) == old(self)@.check_advance(level_ops(level)),
            r is Some ==> old(self)@.pos < final(self)@.pos,
            final(self)@.ast == old(self)@.ast,
    {
        if level == FACTOR {
            let kinds = [TokenType::Slash, TokenType::Star];
            assert(kinds@ =~= level_ops(level));
            self.check_advance(&kinds)
        } else if level == TERM {
            let kinds = [TokenType::Plus, TokenType::Minus];
            assert(kinds@ =~= level_ops(level));
            self.check_advance(&kinds)
        } else if level == COMPARISON {
            let kinds = [
                TokenType::Greater,
                TokenType::GreaterEqual,
                TokenType::Less,
                TokenType::LessEqual,
            ];
            assert(kinds@ =~= level_ops(level));
            self.check_advance(&kinds)
        } else if level == EQUALITY {
            let kinds = [TokenType::BangEqual, TokenType::EqualEqual];
            assert(kinds@ =~= level_ops(level));
            self.check_advance(&kinds)
        } else if level == LOGICAL_AND {
            self.check_advance1(TokenType::And)
        } else {
            self.check_advance1(TokenType::Or)
        }
    }

    fn binary(&mut self, level: u8) -> (r: Result<usize, RloxError>)
        requires
            old(self).wf(),
            level <= LOGICAL_OR,
        ensures
            final(self).wf(),
            parsed_expr(old(self)@, final(self)@, id_result_view(r)),
            (final(self)@, id_result_view(r)) == old(self)@.binary(level),
        decreases old(self)@.remaining(), 3nat + level as nat, 2nat,
    {
        reveal(ParseState::binary);
        reveal(ParseState::binary_rest);
        reveal(ParseState::operand);
        let ghost n0 = self@.ast.exprs.len() as int;
        let mut expr = match self.operand(level) {
            Ok(expr) => expr,
            Err(e) => return Err(e),
        };
        loop
            invariant
                self.wf(),
                level <= LOGICAL_OR,
                old(self)@.leads_to(self@),
                old(self)@.pos < self@.pos,
                expr < self@.ast.exprs.len(),
                n0 == old(self)@.ast.exprs.len(),
                low(self@.ast, expr, n0),
                old(self)@.binary(level) == self@.binary_rest(level, expr),
            decreases self@.remaining(),
        {
            reveal(ParseState::binary);
            reveal(ParseState::binary_rest);
            reveal(ParseState::operand);
            let op = match self.check_level(level) {
                Some(op) => op,
                None => return Ok(expr),
            };
            let ghost mid = self@.ast;
            let rhs = match self.operand(level) {
                Ok(rhs) => rhs,
                Err(e) => return Err(e),
            };
            proof {
                lemma_then(n0, mid, self@.ast, expr, rhs);
            }
            let node = if level >= LOGICAL_AND {
                Expr::Logical(expr, op, rhs)
            } else {
                Expr::Binary(expr, op, rhs)
            };
            assert(node@.children() == seq![expr, rhs]);
            expr = match self.add_expr(node, Ghost(n0)) {
                Ok(node) => node,
                Err(e) => return Err(e),
            };
        }
    }

    fn factor(&mut self) -> (r: Result<usize, RloxError>)
        requires
            old(self).wf(),
        ensures
            final(self).wf(),
            parsed_expr(old(self)@, final(self)@, id_result_view(r)),
            (final(self)@, id_result_view(r)) == old(self)@.factor(),
    {
        self.binary(FACTOR)
    }

    fn term(&mut self) -> (r: Result<usize, RloxError>)
        requires
            old(self).wf(),
        ensures
            final(self).wf(),
            parsed_expr(old(self)@, final(self)@, id_result_view(r)),
            (final(self)@, id_result_view(r)) == old(self)@.term(),
    {
        self.binary(TERM)
    }

    fn comparison(&mut self) -> (r: Result<usize, RloxError>)
        requires
            old(self).wf(),
        ensures
            final(self).wf(),
            parsed_expr(old(self)@, final(self)@, id_result_view(r)),
            (final(self)@, id_result_view(r)) == old(self)@.comparison(),
    {
        self.binary(COMPARISON)
    }

    fn equality(&mut self) -> (r: Result<usize, RloxError>)
        requires
            old(self).wf(),
        ensures
            final(self).wf(),
            parsed_expr(old(self)@, final(self)@, id_result_view(r)),
            (final(self)@, id_result_view(r)) == old(self)@.equality(),
    {
        self.binary(EQUALITY)
    }

    fn logical_and(&mut self) -> (r: Result<usize, RloxError>)
        requires
            old(self).wf(),
        ensures
            final(self).wf(),
            parsed_expr(old(self)@, final(self)@, id_result_view(r)),
            (final(self)@, id_result_view(r)) == old(self)@.logical_and(),
    {
        self.binary(LOGICAL_AND)
    }

    fn logical_or(&mut self) -> (r: Result<usize, RloxError>)
        requires
            old(self).wf(),
        ensures
            final(self).wf(),
            parsed_expr(old(self)@, final(self)@, id_result_view(r)),
            (final(self)@, id_result_view(r)) == old(self)@.logical_or(),
        decreases old(self)@.remaining(), 19nat, 0nat,
    {
        self.binary(LOGICAL_OR)
    }

    fn assignment(&mut self) -> (r: Result<usize, RloxError>)
        requires
            old(self).wf(),
        ensures
            final(self).wf(),
            parsed_expr(old(self)@, final(self)@, id_result_view(r)),
            (final(self)@, id_result_view(r)) == old(self)@.assignment(),
        decreases old(self)@.remaining(), 20nat, 0nat,
    {
        reveal(ParseState::assignment);
        reveal(ParseState::binary);
        let ghost n0 = self@.ast.exprs.len() as int;
        let lhs = match self.logical_or() {
            Ok(lhs) => lhs,
            Err(e) => return Err(e),
        };
        let equals = match self.check_advance1(TokenType::Equal) {
            Some(equals) => equals,
            None => return Ok(lhs),
        };
        let ghost mid = self@.ast;
        match self.ast.expr(lhs) {
            Expr::Identifier(name) => {
                let name = name.clone();
                let value = match self.assignment() {
                    Ok(value) => value,
                    Err(e) => return Err(e),
                };
                proof {
                    lemma_low_weaken(self@.ast, value, mid.exprs.len() as int, n0);
                }
                self.add_expr(Expr::Assignment(name, value), Ghost(n0))
            },
            Expr::Get(object, name) => {
                let object = *object;
                let name = name.clone();
                proof {
                    let kids = ExprView::Get(object, name@).children();
                    assert(kids[0] == object);
                    lemma_low_operand(mid, lhs, 0, n0);
                }
                let value = match self.assignment() {
                    Ok(value) => value,
                    Err(e) => return Err(e),
                };
                proof {
                    lemma_then(n0, mid, self@.ast, object, value);
                }
                let node = Expr::SetField(object, name, value);
                assert(node@.children() == seq![object, value]);
                self.add_expr(node, Ghost(n0))
            },
            _ => Err(RloxError::parse(equals.line, "Invalid assignment target.", &equals.lexeme)),
        }
    }

    fn expression(&mut self) -> (r: Result<usize, RloxError>)
        requires
            old(self).wf(),
        ensures
            final(self).wf(),
            parsed_expr(old(self)@, final(self)@, id_result_view(r)),
            (final(self)@, id_result_view(r)) == old(self)@.expression(),
        decreases old(self)@.remaining(), 21nat, 0nat,
    {
        reveal(ParseState::expression);
        reveal(ParseState::assignment);
        self.assignment()
    }

    fn end_statement(&mut self, s: Stmt, Ghost(lo): Ghost<int>) -> (r: Result<usize, RloxError>)
        requires
            old(self).wf(),
            s@.wf(old(self)@.ast.stmts.len() as int, old(self)@.ast.exprs.len() as int),
            s@.stmts().len() == 0,
            !(s@ is Function),
            !(s@ is Class),
            named_stmt(old(self)@.ast, s@),
            forall|k: int| 0 <= k < s@.exprs().len() ==> low(old(self)@.ast, #[trigger] s@.exprs()[k], lo),
        ensures
            final(self).wf(),
            old(self)@.leads_to(final(self)@),
            r matches Ok(id) ==> id < final(self)@.ast.stmts.len() && old(self)@.pos < final(self)@.pos
                && low_stmt(final(self)@.ast, id, lo),
            (final(self)@, id_result_view(r)) == old(self)@.end_statement(s@),
    {
        if let Err(e) = self.must_advance1(TokenType::SemiColon) {
            return Err(e);
        }
        self.add_stmt(s, Ghost(lo))
    }

    fn print_statement(&mut self) -> (r: Result<usize, RloxError>)
        requires
            old(self).wf(),
        ensures
            final(self).wf(),
            parsed_stmt(old(self)@, final(self)@, id_result_view(r)),
            (final(self)@, id_result_view(r)) == old(self)@.print_statement(),
        decreases old(self)@.remaining(), 22nat, 0nat,
    {
        reveal(ParseState::print_statement);
        reveal(ParseState::expression);
        let ghost n0 = self@.ast.exprs.len() as int;
        let expr = match self.expression() {
            Ok(expr) => expr,
            Err(e) => return Err(e),
        };
        self.end_statement(Stmt::Print(expr), Ghost(n0))
    }

    fn expr_statement(&mut self) -> (r: Result<usize, RloxError>)
        requires
            old(self).wf(),
        ensures
            final(self).wf(),
            parsed_stmt(old(self)@, final(self)@, id_result_view(r)),
            (final(self)@, id_result_view(r)) == old(self)@.expr_statement(),
        decreases old(self)@.remaining(), 22nat, 0nat,
    {
        reveal(ParseState::expr_statement);
        reveal(ParseState::expression);
        let ghost n0 = self@.ast.exprs.len() as int;
        let expr = match self.expression() {
            Ok(expr) => expr,
            Err(e) => return Err(e),
        };
        self.end_statement(Stmt::Expression(expr), Ghost(n0))
    }

    fn decl_statement(&mut self) -> (r: Result<usize, RloxError>)
        requires
            old(self).wf(),
        ensures
            final(self).wf(),
            parsed_stmt(old(self)@, final(self)@, id_result_view(r)),
            (final(self)@, id_result_view(r)) == old(self)@.decl_statement(),
        decreases old(self)@.remaining(), 22nat, 0nat,
    {
        reveal(ParseState::decl_statement);
        reveal(ParseState::expression);
        let ghost n0 = self@.ast.exprs.len() as int;
        let id = match self.must_advance1(TokenType::Ident) {
            Ok(id) => id,
            Err(e) => return Err(e),
        };
        if self.check_advance1(TokenType::Equal).is_none() {
            return self.end_statement(Stmt::Declaration(id, None), Ghost(n0));
        }
        let init = match self.expression() {
            Ok(init) => init,
            Err(e) => return Err(e),
        };
        self.end_statement(Stmt::Declaration(id, Some(init)), Ghost(n0))
    }

    fn block_statement(&mut self) -> (r: Result<usize, RloxError>)
        requires
            old(self).wf(),
        ensures
            final(self).wf(),
            old(self)@.leads_to(final(self)@),
            (final(self)@, id_result_view(r)) == old(self)@.block_statement(),
            r matches Ok(id) ==> id < final(self)@.ast.stmts.len() && final(self)@.ast.stmts[id as int] is Block
                && low_stmt(final(self)@.ast, id, old(self)@.ast.exprs.len() as int),
        decreases old(self)@.remaining(), 50nat, 1nat,
    {
        reveal(ParseState::block_statement);
        reveal(ParseState::block_rest);
        reveal(ParseState::statement);
        let ghost n0 = self@.ast.exprs.len() as int;
        let mut body: Vec<usize> = Vec::new();
        proof {
            lemma_stmts_lined_up_none(self@.ast, n0);
            assert(body@ =~= seq![]);
        }
        loop
            invariant
                self.wf(),
                old(self)@.leads_to(self@),
                n0 == old(self)@.ast.exprs.len(),
                stmts_lined_up(self@.ast, body@, n0),
                old(self)@.block_statement() == self@.block_rest(body@),
            decreases self@.remaining(),
        {
            reveal(ParseState::block_statement);
            reveal(ParseState::block_rest);
            reveal(ParseState::statement);
            if self.check_advance1(TokenType::RBrace).is_some() || self.peek_none() {
                proof {
                    lemma_stmts_lined_up_use(self@.ast, body@, n0);
                }
                return self.add_stmt(Stmt::Block(body), Ghost(n0));
            }
            let ghost mid = self@.ast;
            let stmt = match self.statement() {
                Ok(stmt) => stmt,
                Err(e) => return Err(e),
            };
            proof {
                lemma_stmts_lined_up_push(n0, mid, self@.ast, body@, stmt);
            }
            body.push(stmt);
        }
    }

    #[verifier::rlimit(100)]
    fn if_statement(&mut self) -> (r: Result<usize, RloxError>)
        requires
            old(self).wf(),
        ensures
            final(self).wf(),
            parsed_stmt(old(self)@, final(self)@, id_result_view(r)),
            (final(self)@, id_result_view(r)) == old(self)@.if_statement(),
        decreases old(self)@.remaining(), 30nat, 1nat,
    {
        reveal(ParseState::if_statement);
        reveal(ParseState::expression);
        reveal(ParseState::statement);
        if let Err(e) = self.must_advance1(TokenType::LParen) {
            return Err(e);
        }
        let ghost n0 = self@.ast.exprs.len() as int;
        let cond = match self.expression() {
            Ok(cond) => cond,
            Err(e) => return Err(e),
        };
        if let Err(e) = self.must_advance1(TokenType::RParen) {
            return Err(e);
        }
        let ghost a1 = self@.ast;
        let then_stmt = match self.statement() {
            Ok(then_stmt) => then_stmt,
            Err(e) => return Err(e),
        };
        let ghost a2 = self@.ast;
        proof {
            lemma_low_extends(a1, a2, cond, n0);
            lemma_expr_then_stmt(a1, a2, cond, then_stmt);
            lemma_low_stmt_weaken(a2, then_stmt, a1.exprs.len() as int, n0);
        }
        if self.check_advance1(TokenType::Else).is_none() {
            let node = Stmt::If(cond, then_stmt, None);
            assert(node@.exprs() == seq![cond] && node@.stmts() == seq![then_stmt]);
            return self.add_stmt(node, Ghost(n0));
        }
        let else_stmt = match self.statement() {
            Ok(else_stmt) => else_stmt,
            Err(e) => return Err(e),
        };
        proof {
            let a3 = self@.ast;
            lemma_low_extends(a2, a3, cond, n0);
            lemma_low_stmt_extends(a2, a3, then_stmt, n0);
            lemma_low_stmt_extends(a2, a3, then_stmt, a1.exprs.len() as int);
            lemma_low_stmt_weaken(a3, else_stmt, a2.exprs.len() as int, n0);
            lemma_expr_then_stmt(a1, a3, cond, then_stmt);
            lemma_expr_then_stmt(a2, a3, cond, else_stmt);
            lemma_stmt_then_stmt(a2, a3, then_stmt, else_stmt);
        }
        let node = Stmt::If(cond, then_stmt, Some(else_stmt));
        assert(node@.exprs() == seq![cond] && node@.stmts() == seq![then_stmt, else_stmt]);
        self.add_stmt(node, Ghost(n0))
    }

    fn while_statement(&mut self) -> (r: Result<usize, RloxError>)
        requires
            old(self).wf(),
        ensures
            final(self).wf(),
            parsed_stmt(old(self)@, final(self)@, id_result_view(r)),
            (final(self)@, id_result_view(r)) == old(self)@.while_statement(),
        decreases old(self)@.remaining(), 30nat, 1nat,
    {
        reveal(ParseState::while_statement);
        reveal(ParseState::expression);
        reveal(ParseState::statement);
        if let Err(e) = self.must_advance1(TokenType::LParen) {
            return Err(e);
        }
        let ghost n0 = self@.ast.exprs.len() as int;
        let cond = match self.expression() {
            Ok(cond) => cond,
            Err(e) => return Err(e),
        };
        if let Err(e) = self.must_advance1(TokenType::RParen) {
            return Err(e);
        }
        let ghost a1 = self@.ast;
        let body = match self.statement() {
            Ok(body) => body,
            Err(e) => return Err(e),
        };
        proof {
            let a2 = self@.ast;
            lemma_low_extends(a1, a2, cond, n0);
            lemma_expr_then_stmt(a1, a2, cond, body);
            lemma_low_stmt_weaken(a2, body, a1.exprs.len() as int, n0);
        }
        let node = Stmt::While(cond, body);
        assert(node@.exprs() == seq![cond] && node@.stmts() == seq![body]);
        self.add_stmt(node, Ghost(n0))
    }

    fn for_init(&mut self) -> (r: Result<Option<usize>, RloxError>)
        requires
            old(self).wf(),
        ensures
            final(self).wf(),
            old(self)@.leads_to(final(self)@),
            r is Ok ==> old(self)@.pos < final(self)@.pos,
            r matches Ok(Some(id)) ==> id < final(self)@.ast.stmts.len() && low_stmt(
                final(self)@.ast,
                id,
                old(self)@.ast.exprs.len() as int,
            ),
            final(self)@ == old(self)@.for_init().0,
            match r {
                Ok(init) => old(self)@.for_init().1 == Ok::<Option<usize>, ErrorView>(init),
                Err(e) => old(self)@.for_init().1 == Err::<Option<usize>, ErrorView>(e@),
            },
        decreases old(self)@.remaining(), 22nat, 1nat,
    {
        reveal(ParseState::for_init);
        reveal(ParseState::expr_statement);
        reveal(ParseState::decl_statement);
        let kinds = [TokenType::SemiColon, TokenType::Var];
        assert(kinds@ =~= seq![TokenType::SemiColon, TokenType::Var]);
        match self.check_advance(&kinds) {
            None => match self.expr_statement() {
                Ok(init) => Ok(Some(init)),
                Err(e) => Err(e),
            },
            Some(t) => match t.token_type {
                TokenType::SemiColon => Ok(None),
                _ => match self.decl_statement() {
                    Ok(init) => Ok(Some(init)),
                    Err(e) => Err(e),
                },
            },
        }
    }

    fn for_cond(&mut self) -> (r: Result<usize, RloxError>)
        requires
            old(self).wf(),
        ensures
            final(self).wf(),
            parsed_expr(old(self)@, final(self)@, id_result_view(r)),
            (final(self)@, id_result_view(r)) == old(self)@.for_cond(),
        decreases old(self)@.remaining(), 22nat, 1nat,
    {
        reveal(ParseState::for_cond);
        reveal(ParseState::expression);
        let ghost n0 = self@.ast.exprs.len() as int;
        if let Some(semi) = self.check_advance1(TokenType::SemiColon) {
            let token = Token {
                token_type: TokenType::True,
                lexeme: "true".to_string(),
                literal: Some(Literal::Boolean(true)),
                line: semi.line,
                offset: semi.offset,
            };
            return self.add_expr(Expr::Literal(token), Ghost(n0));
        }
        let cond = match self.expression() {
            Ok(cond) => cond,
            Err(e) => return Err(e),
        };
        if let Err(e) = self.must_advance1(TokenType::SemiColon) {
            return Err(e);
        }
        Ok(cond)
    }

    fn for_step(&mut self) -> (r: Result<Option<usize>, RloxError>)
        requires
            old(self).wf(),
        ensures
            final(self).wf(),
            old(self)@.leads_to(final(self)@),
            r is Ok ==> old(self)@.pos < final(self)@.pos,
            r matches Ok(Some(id)) ==> id < final(self)@.ast.stmts.len() && low_stmt(
                final(self)@.ast,
                id,
                old(self)@.ast.exprs.len() as int,
            ),
            final(self)@ == old(self)@.for_step().0,
            match r {
                Ok(step) => old(self)@.for_step().1 == Ok::<Option<usize>, ErrorView>(step),
                Err(e) => old(self)@.for_step().1 == Err::<Option<usize>, ErrorView>(e@),
            },
        decreases old(self)@.remaining(), 22nat, 1nat,
    {
        reveal(ParseState::for_step);
        reveal(ParseState::expression);
        let ghost n0 = self@.ast.exprs.len() as int;
        if self.check_advance1(TokenType::RParen).is_some() {
            return Ok(None);
        }
        let step = match self.expression() {
            Ok(step) => step,
            Err(e) => return Err(e),
        };
        if let Err(e) = self.must_advance1(TokenType::RParen) {
            return Err(e);
        }
        match self.add_stmt(Stmt::Expression(step), Ghost(n0)) {
            Ok(stmt) => Ok(Some(stmt)),
            Err(e) => Err(e),
        }
    }

    #[verifier::rlimit(100)]
    fn for_statement(&mut self) -> (r: Result<usize, RloxError>)
        requires
            old(self).wf(),
        ensures
            final(self).wf(),
            parsed_stmt(old(self)@, final(self)@, id_result_view(r)),
            (final(self)@, id_result_view(r)) == old(self)@.for_statement(),
        decreases old(self)@.remaining(), 30nat, 1nat,
    {
        reveal(ParseState::for_statement);
        reveal(ParseState::for_init);
        reveal(ParseState::for_cond);
        reveal(ParseState::for_step);
        reveal(ParseState::statement);
        if let Err(e) = self.must_advance1(TokenType::LParen) {
            return Err(e);
        }
        let ghost a1 = self@.ast;
        let init = match self.for_init() {
            Ok(init) => init,
            Err(e) => return Err(e),
        };
        let ghost a2 = self@.ast;
        let cond = match self.for_cond() {
            Ok(cond) => cond,
            Err(e) => return Err(e),
        };
        let ghost a3 = self@.ast;
        let step = match self.for_step() {
            Ok(step) => step,
            Err(e) => return Err(e),
        };
        let ghost a4 = self@.ast;
        let body = match self.statement() {
            Ok(body) => body,
            Err(e) => return Err(e),
        };
        proof {
            let a5 = self@.ast;
            lemma_extends_trans(a3, a4, a5);
            lemma_extends_trans(a2, a3, a5);
            if let Some(first) = init {
                lemma_high_stmt(a2, first);
                lemma_low_stmt_extends(a2, a5, first, a1.exprs.len() as int);
                lemma_high_stmt_extends(a2, a5, first, a2.exprs.len() as int);
            }
            lemma_low_extends(a3, a5, cond, a2.exprs.len() as int);
            if let Some(last) = step {
                lemma_high_stmt(a4, last);
                lemma_low_stmt_extends(a4, a5, last, a3.exprs.len() as int);
                lemma_high_stmt_extends(a4, a5, last, a4.exprs.len() as int);
            }
        }
        self.for_loop(
            init,
            cond,
            step,
            body,
            Ghost((a1.exprs.len() as int, a2.exprs.len() as int, a3.exprs.len() as int, a4.exprs.len() as int)),
        )
    }

    /// Builds the loop that a `for` statement stands for. Its parts were
    /// parsed one after the other: the initializer from the node `at.0` on,
    /// the condition from `at.1`, the step from `at.2`, the body from `at.3`.
    fn for_loop(
        &mut self,
        init: Option<usize>,
        cond: usize,
        step: Option<usize>,
        body: usize,
        Ghost(at): Ghost<(int, int, int, int)>,
    ) -> (r: Result<usize, RloxError>)
        requires
            old(self).wf(),
            at.0 <= at.1 <= at.2 <= at.3 <= old(self)@.ast.exprs.len(),
            init matches Some(first) ==> first < old(self)@.ast.stmts.len() && low_stmt(
                old(self)@.ast,
                first,
                at.0,
            ) && high_stmt(old(self)@.ast, first, at.1),
            cond < at.2,
            low(old(self)@.ast, cond, at.1),
            step matches Some(last) ==> last < old(self)@.ast.stmts.len() && low_stmt(
                old(self)@.ast,
                last,
                at.2,
            ) && high_stmt(old(self)@.ast, last, at.3),
            body < old(self)@.ast.stmts.len(),
            low_stmt(old(self)@.ast, body, at.3),
        ensures
            final(self).wf(),
            old(self)@.leads_to(final(self)@),
            final(self)@.pos == old(self)@.pos,
            r matches Ok(id) && id < final(self)@.ast.stmts.len() && low_stmt(final(self)@.ast, id, at.0),
            (final(self)@, id_result_view(r)) == old(self)@.for_loop(init, cond, step, body),
    {
        let ghost a0 = self@.ast;
        proof {
            lemma_low_stmt_weaken(a0, body, at.3, at.2);
        }
        let stepped = match step {
            Some(step) => {
                let mut both: Vec<usize> = Vec::new();
                both.push(body);
                both.push(step);
                assert(both@ =~= seq![body, step]);
                proof {
                    lemma_stmts_apart(a0, step, body, at.3);
                }
                match self.add_stmt(Stmt::Block(both), Ghost(at.2)) {
                    Ok(stepped) => stepped,
                    Err(e) => return Err(e),
                }
            },
            None => body,
        };
        let ghost a1 = self@.ast;
        proof {
            lemma_low_extends(a0, a1, cond, at.1);
            lemma_expr_before_stmt(a1, cond, stepped, at.2);
            lemma_low_stmt_weaken(a1, stepped, at.2, at.1);
        }
        let node = Stmt::While(cond, stepped);
        assert(node@.exprs() == seq![cond] && node@.stmts() == seq![stepped]);
        let looped = match self.add_stmt(node, Ghost(at.1)) {
            Ok(looped) => looped,
            Err(e) => return Err(e),
        };
        let ghost a2 = self@.ast;
        proof {
            lemma_low_stmt_weaken(a2, looped, at.1, at.0);
        }
        match init {
            Some(init) => {
                let mut both: Vec<usize> = Vec::new();
                both.push(init);
                both.push(looped);
                assert(both@ =~= seq![init, looped]);
                proof {
                    lemma_extends_trans(a0, a1, a2);
                    lemma_low_stmt_extends(a0, a2, init, at.0);
                    lemma_high_stmt_extends(a0, a2, init, at.1);
                    lemma_stmts_apart(a2, init, looped, at.1);
                }
                self.add_stmt(Stmt::Block(both), Ghost(at.0))
            },
            None => Ok(looped),
        }
    }

    fn break_statement(&mut self, token: Token) -> (r: Result<usize, RloxError>)
        requires
            old(self).wf(),
        ensures
            final(self).wf(),
            old(self)@.leads_to(final(self)@),
            r matches Ok(id) ==> id < final(self)@.ast.stmts.len() && old(self)@.pos < final(self)@.pos
                && low_stmt(final(self)@.ast, id, old(self)@.ast.exprs.len() as int),
            (final(self)@, id_result_view(r)) == old(self)@.break_statement(token@),
    {
        self.end_statement(Stmt::Break(token), Ghost(self@.ast.exprs.len() as int))
    }

    fn return_statement(&mut self, keyword: Token) -> (r: Result<usize, RloxError>)
        requires
            old(self).wf(),
        ensures
            final(self).wf(),
            old(self)@.leads_to(final(self)@),
            r matches Ok(id) ==> id < final(self)@.ast.stmts.len() && old(self)@.pos < final(self)@.pos
                && low_stmt(final(self)@.ast, id, old(self)@.ast.exprs.len() as int),
            (final(self)@, id_result_view(r)) == old(self)@.return_statement(keyword@),
        decreases old(self)@.remaining(), 22nat, 1nat,
    {
        reveal(ParseState::return_statement);
        reveal(ParseState::expression);
        let ghost n0 = self@.ast.exprs.len() as int;
        if self.check1(TokenType::SemiColon) {
            return self.end_statement(Stmt::Return(keyword, None), Ghost(n0));
        }
        let value = match self.expression() {
            Ok(value) => value,
            Err(e) => return Err(e),
        };
        self.end_statement(Stmt::Return(keyword, Some(value)), Ghost(n0))
    }

    fn function_params(&mut self, name: &Token) -> (r: Result<Vec<Token>, RloxError>)
        requires
            old(self).wf(),
        ensures
            final(self).wf(),
            old(self)@.leads_to(final(self)@),
            final(self)@.ast == old(self)@.ast,
            final(self)@ == old(self)@.function_params(name@, seq![]).0,
            r matches Ok(params) ==> named_well(token_views(params@)),
            match r {
                Ok(params) => old(self)@.function_params(name@, seq![]).1 == Ok::<
                    Seq<TokenView>,
                    ErrorView,
                >(token_views(params@)),
                Err(e) => old(self)@.function_params(name@, seq![]).1 == Err::<
                    Seq<TokenView>,
                    ErrorView,
                >(e@),
            },
    {
        let mut params: Vec<Token> = Vec::new();
        assert(token_views(params@) =~= seq![]);
        loop
            invariant
                self.wf(),
                old(self)@.leads_to(self@),
                self@.ast == old(self)@.ast,
                named_well(token_views(params@)),
                old(self)@.function_params(name@, seq![]) == self@.function_params(
                    name@,
                    token_views(params@),
                ),
            decreases self@.remaining(),
        {
            if params.len() >= FUNCTION_MAX_ARGS {
                return Err(
                    RloxError::parse(name.line, "Cannot have more than 255 parameters", &name.lexeme),
                );
            }
            let param = match self.must_advance1(TokenType::Ident) {
                Ok(param) => param,
                Err(e) => return Err(e),
            };
            let ghost before = token_views(params@);
            params.push(param);
            assert(token_views(params@) =~= before.push(param@));
            if self.check_advance1(TokenType::Comma).is_none() {
                return Ok(params);
            }
        }
    }

    fn function(&mut self) -> (r: Result<usize, RloxError>)
        requires
            old(self).wf(),
        ensures
            final(self).wf(),
            parsed_stmt(old(self)@, final(self)@, id_result_view(r)),
            (final(self)@, id_result_view(r)) == old(self)@.function(),
            r matches Ok(id) ==> final(self)@.ast.stmts[id as int] is Function,
        decreases old(self)@.remaining(), 31nat, 0nat,
    {
        reveal(ParseState::function);
        reveal(ParseState::block_statement);
        let ghost n0 = self@.ast.exprs.len() as int;
        let name = match self.must_advance1(TokenType::Ident) {
            Ok(name) => name,
            Err(e) => return Err(e),
        };
        if let Err(e) = self.must_advance1(TokenType::LParen) {
            return Err(e);
        }
        let params = if self.check1(TokenType::RParen) {
            let params: Vec<Token> = Vec::new();
            assert(token_views(params@) =~= seq![]);
            params
        } else {
            match self.function_params(&name) {
                Ok(params) => params,
                Err(e) => return Err(e),
            }
        };
        if let Err(e) = self.must_advance1(TokenType::RParen) {
            return Err(e);
        }
        if let Err(e) = self.must_advance1(TokenType::LBrace) {
            return Err(e);
        }
        let body = match self.block_statement() {
            Ok(body) => body,
            Err(e) => return Err(e),
        };
        let node = Stmt::Function(name, params, body);
        assert(node@.exprs() == Seq::<usize>::empty() && node@.stmts() == seq![body]);
        self.add_stmt(node, Ghost(n0))
    }

    fn class_parent(&mut self) -> (r: Result<Option<usize>, RloxError>)
        requires
            old(self).wf(),
        ensures
            final(self).wf(),
            old(self)@.leads_to(final(self)@),
            r matches Ok(Some(id)) ==> id < final(self)@.ast.exprs.len() && low(
                final(self)@.ast,
                id,
                old(self)@.ast.exprs.len() as int,
            ) && final(self)@.ast.exprs[id as int] is Identifier,
            final(self)@ == old(self)@.class_parent().0,
            match r {
                Ok(parent) => old(self)@.class_parent().1 == Ok::<Option<usize>, ErrorView>(parent),
                Err(e) => old(self)@.class_parent().1 == Err::<Option<usize>, ErrorView>(e@),
            },
    {
        let ghost n0 = self@.ast.exprs.len() as int;
        if self.check_advance1(TokenType::Less).is_none() {
            return Ok(None);
        }
        let parent = match self.must_advance1(TokenType::Ident) {
            Ok(parent) => parent,
            Err(e) => return Err(e),
        };
        match self.add_expr(Expr::Identifier(parent), Ghost(n0)) {
            Ok(node) => Ok(Some(node)),
            Err(e) => Err(e),
        }
    }

    #[verifier::rlimit(100)]
    fn class_statement(&mut self) -> (r: Result<usize, RloxError>)
        requires
            old(self).wf(),
        ensures
            final(self).wf(),
            parsed_stmt(old(self)@, final(self)@, id_result_view(r)),
            (final(self)@, id_result_view(r)) == old(self)@.class_statement(),
        decreases old(self)@.remaining(), 32nat, 1nat,
    {
        reveal(ParseState::class_statement);
        reveal(ParseState::class_rest);
        reveal(ParseState::function);
        let ghost n0 = self@.ast.exprs.len() as int;
        let name = match self.must_advance1(TokenType::Ident) {
            Ok(name) => name,
            Err(e) => return Err(e),
        };
        let parent = match self.class_parent() {
            Ok(parent) => parent,
            Err(e) => return Err(e),
        };
        if let Err(e) = self.must_advance1(TokenType::LBrace) {
            return Err(e);
        }
        let ghost n1 = self@.ast.exprs.len() as int;
        let mut methods: Vec<usize> = Vec::new();
        proof {
            lemma_stmts_lined_up_none(self@.ast, n1);
            assert(methods@ =~= seq![]);
        }
        loop
            invariant
                self.wf(),
                old(self)@.leads_to(self@),
                old(self)@.pos < self@.pos,
                n0 == old(self)@.ast.exprs.len(),
                n0 <= n1 <= self@.ast.exprs.len(),
                parent matches Some(id) ==> id < n1 && low(self@.ast, id, n0)
                    && self@.ast.exprs[id as int] is Identifier,
                taken(name@, seq![TokenType::Ident]),
                stmts_lined_up(self@.ast, methods@, n1),
                forall|k: int|
                    0 <= k < methods@.len() ==> methods@[k] < self@.ast.stmts.len()
                        && self@.ast.stmts[methods@[k] as int] is Function,
                old(self)@.class_statement() == self@.class_rest(name@, parent, methods@),
            decreases self@.remaining(),
        {
            reveal(ParseState::class_statement);
            reveal(ParseState::class_rest);
            reveal(ParseState::function);
            if self.check_advance1(TokenType::RBrace).is_some() {
                proof {
                    if let Some(id) = parent {
                        lemma_expr_before_all(self@.ast, id, methods@, n1);
                    }
                    lemma_stmts_lined_up_weaken(self@.ast, methods@, n1, n0);
                    lemma_stmts_lined_up_use(self@.ast, methods@, n0);
                }
                let node = Stmt::Class(name, parent, methods);
                assert(node@.stmts() == methods@);
                return self.add_stmt(node, Ghost(n0));
            }
            let ghost mid = self@.ast;
            let method = match self.function() {
                Ok(method) => method,
                Err(e) => return Err(e),
            };
            proof {
                lemma_stmts_lined_up_push(n1, mid, self@.ast, methods@, method);
                if let Some(id) = parent {
                    lemma_low_extends(mid, self@.ast, id, n0);
                }
            }
            methods.push(method);
        }
    }

    fn statement(&mut self) -> (r: Result<usize, RloxError>)
        requires
            old(self).wf(),
        ensures
            final(self).wf(),
            parsed_stmt(old(self)@, final(self)@, id_result_view(r)),
            (final(self)@, id_result_view(r)) == old(self)@.statement(),
        decreases old(self)@.remaining(), 40nat, 0nat,
    {
        reveal(ParseState::statement);
        reveal(ParseState::expr_statement);
        reveal(ParseState::print_statement);
        reveal(ParseState::decl_statement);
        reveal(ParseState::block_statement);
        reveal(ParseState::if_statement);
        reveal(ParseState::while_statement);
        reveal(ParseState::for_statement);
        reveal(ParseState::function);
        reveal(ParseState::class_statement);
        reveal(ParseState::return_statement);
        let kinds = [
            TokenType::Print,
            TokenType::Var,
            TokenType::LBrace,
            TokenType::If,
            TokenType::While,
            TokenType::For,
            TokenType::Break,
            TokenType::Fun,
            TokenType::Class,
            TokenType::Return,
        ];
        assert(kinds@ =~= statement_starts());
        let token = match self.check_advance(&kinds) {
            Some(token) => token,
            None => return self.expr_statement(),
        };
        match token.token_type {
            TokenType::Print => self.print_statement(),
            TokenType::Var => self.decl_statement(),
            TokenType::LBrace => self.block_statement(),
            TokenType::If => self.if_statement(),
            TokenType::While => self.while_statement(),
            TokenType::For => self.for_statement(),
            TokenType::Break => self.break_statement(token),
            TokenType::Fun => self.function(),
            TokenType::Class => self.class_statement(),
            _ => self.return_statement(token),
        }
    }

    /// Error recovery. The tokens of the statement that failed are passed
    /// over, so that parsing resumes with the statement after it.
    pub fn synchronize(&mut self)
        requires
            old(self).wf(),
        ensures
            final(self).wf(),
            old(self)@.leads_to(final(self)@),
            final(self)@ == old(self)@.synchronize(),
    {
        loop
            invariant_except_break
                old(self)@.synchronize() == self@.synchronize(),
            invariant
                self.wf(),
                old(self)@.leads_to(self@),
            ensures
                self.wf(),
                old(self)@.leads_to(self@),
                self@ == old(self)@.synchronize(),
            decreases self@.remaining(),
        {
            if self.pos >= self.tokens.len() {
                break;
            }
            let kind = match &self.tokens[self.pos] {
                Ok(t) => t.token_type,
                Err(_) => {
                    break;
                },
            };
            let stops = [
                TokenType::Class,
                TokenType::Fun,
                TokenType::Var,
                TokenType::For,
                TokenType::If,
                TokenType::While,
                TokenType::Print,
                TokenType::Return,
            ];
            assert(stops@ =~= sync_points());
            if kind == TokenType::Eof || kind.in_types(&stops) {
                break;
            }
            self.pos += 1;
            if kind == TokenType::SemiColon {
                break;
            }
        }
    }

    /// The next statement of the input, or the error that stands in its
    /// place. After an error the parser has moved on to where the next
    /// statement may begin. At the end of the input there is nothing.
    pub fn next(&mut self) -> (r: Option<Result<usize, RloxError>>)
        requires
            old(self).wf(),
        ensures
            final(self).wf(),
            old(self)@.leads_to(final(self)@),
            final(self)@ == old(self)@.next().0,
            match r {
                Some(r) => old(self)@.next().1 == Some(id_result_view(r)),
                None => old(self)@.next().1 is None,
            },
            r matches Some(Ok(id)) ==> id < final(self)@.ast.stmts.len() && low_stmt(
                final(self)@.ast,
                id,
                old(self)@.ast.exprs.len() as int,
            ),
    {
        if self.peek_none() || self.check1(TokenType::Eof) {
            return None;
        }
        let res = self.statement();
        if res.is_err() {
            self.synchronize();
        }
        Some(res)
    }
}

} // verus!
