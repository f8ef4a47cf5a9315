//! The resolver: one walk over the syntax before it is run.
//!
//! For every reference to a variable the walk finds the innermost scope
//! that declares the name and records how many scopes lie between. It also
//! rejects what cannot be right wherever it is run: a variable read in its
//! own initializer, a second declaration in one scope, `return` outside a
//! function, `break` outside a loop, `this` outside a class, `super` outside
//! a subclass, and a class that inherits from itself.

use vstd::prelude::*;
use crate::ast::{Ast, AstView};
use crate::class::ClassType;
use crate::error::{ErrorView, RloxError};
use crate::expr::{Expr, ExprView};
use crate::functions::FunctionType;
use crate::locals::Locals;
use crate::stmt::{token_views, Stmt, StmtView};
use crate::table::Table;
use crate::tokens::{Token, TokenView};

verus! {

/// The outcome of resolving a piece of syntax: the resolver afterwards, and
/// the first error if there was one.
pub type Resolved = (ResolverView, Result<(), ErrorView>);

pub open spec fn unit_result_view(r: Result<(), RloxError>) -> Result<(), ErrorView> {
    match r {
        Ok(_) => Ok(()),
        Err(e) => Err(e@),
    }
}

/// How far from the innermost scope the name is declared, looking from the
/// `k`-th scope outwards.
pub open spec fn search(scopes: Seq<Map<Seq<char>, bool>>, name: Seq<char>, k: nat) -> Option<usize>
    decreases scopes.len() - k,
{
    if k >= scopes.len() {
        None
    } else if scopes[scopes.len() - 1 - k].contains_key(name) {
        Some(k as usize)
    } else {
        search(scopes, name, k + 1)
    }
}

/// How many scopes lie between the innermost scope and the nearest one that
/// declares `name`; nothing if no scope does.
pub open spec fn distance(scopes: Seq<Map<Seq<char>, bool>>, name: Seq<char>) -> Option<usize> {
    search(scopes, name, 0)
}

/// The resolver as a mathematical value.
pub struct ResolverView {
    /// The scopes that are open, innermost last. A name maps to whether its
    /// declaration is complete. The global scope is not among them.
    pub scopes: Seq<Map<Seq<char>, bool>>,
    pub current_func: FunctionType,
    pub current_class: ClassType,
    /// How many loops enclose the current position.
    pub loop_depth: nat,
    /// The side table as filled so far.
    pub locals: Map<usize, usize>,
}

impl ResolverView {
    /// A resolver at the top level of a program, with the side table `locals`.
    pub open spec fn start(locals: Map<usize, usize>) -> ResolverView {
        ResolverView {
            scopes: Seq::empty(),
            current_func: FunctionType::Outside,
            current_class: ClassType::Outside,
            loop_depth: 0,
            locals,
        }
    }

    pub open spec fn begin_scope(self) -> ResolverView {
        ResolverView { scopes: self.scopes.push(Map::empty()), ..self }
    }

    pub open spec fn end_scope(self) -> ResolverView {
        if self.scopes.len() > 0 {
            ResolverView { scopes: self.scopes.drop_last(), ..self }
        } else {
            self
        }
    }

    /// Enters `name` into the innermost scope. At the top level, where no
    /// scope is open, nothing is entered.
    pub open spec fn put(self, name: Seq<char>, defined: bool) -> ResolverView {
        if self.scopes.len() > 0 {
            ResolverView {
                scopes: self.scopes.update(
                    self.scopes.len() - 1,
                    self.scopes.last().insert(name, defined),
                ),
                ..self
            }
        } else {
            self
        }
    }

    /// Declares a name: it exists but may not be read yet. A name may be
    /// declared once in a scope.
    pub open spec fn declare(self, id: TokenView) -> Resolved {
        if self.scopes.len() > 0 && self.scopes.last().contains_key(id.lexeme) {
            (
                self,
                Err(
                    ErrorView::Parse(
                        id.line,
                        "variable already defined with this name in this scope"@,
                        id.lexeme,
                    ),
                ),
            )
        } else {
            (self.put(id.lexeme, false), Ok(()))
        }
    }

    /// Completes a declaration: the name may be read.
    pub open spec fn define(self, id: TokenView) -> ResolverView {
        self.put(id.lexeme, true)
    }

    /// Records the depth of the reference `expr` to `name`, if some scope
    /// declares the name.
    pub open spec fn resolve_local(self, expr: usize, name: Seq<char>) -> ResolverView {
        match distance(self.scopes, name) {
            Some(d) => ResolverView { locals: self.locals.insert(expr, d), ..self },
            None => self,
        }
    }

    /// Whether the innermost scope holds `name` as declared but not defined.
    pub open spec fn in_own_initializer(self, name: Seq<char>) -> bool {
        self.scopes.len() > 0 && self.scopes.last().contains_key(name) && !self.scopes.last()[name]
    }

    /// What comes out should the syntax ever name a node that was stored
    /// after it. In a well-formed store none does.
    pub open spec fn stalled(self) -> Resolved {
        (self, Err(ErrorView::Parse(0, ""@, ""@)))
    }

    /// Resolves the expression `e`.
    #[verifier::opaque]
    pub open spec fn expr(self, ast: AstView, e: usize) -> Resolved
        decreases e, 1nat, 0nat,
    {
        if e >= ast.exprs.len() {
            self.stalled()
        } else {
            match ast.exprs[e as int] {
                ExprView::Identifier(id) => if self.in_own_initializer(id.lexeme) {
                    (
                        self,
                        Err(
                            ErrorView::Parse(
                                id.line,
                                "Cannot read local variable in its own initializer"@,
                                id.lexeme,
                            ),
                        ),
                    )
                } else {
                    (self.resolve_local(e, id.lexeme), Ok(()))
                },
                ExprView::Literal(_) => (self, Ok(())),
                ExprView::Logical(lhs, _, rhs) => self.exprs(ast, e, seq![lhs, rhs], 0),
                ExprView::Binary(lhs, _, rhs) => self.exprs(ast, e, seq![lhs, rhs], 0),
                ExprView::Grouping(inner) => self.exprs(ast, e, seq![inner], 0),
                ExprView::Unary(_, rhs) => self.exprs(ast, e, seq![rhs], 0),
                ExprView::Assignment(id, val) => {
                    let (r, res) = self.exprs(ast, e, seq![val], 0);
                    match res {
                        Err(err) => (r, Err(err)),
                        Ok(_) => (r.resolve_local(e, id.lexeme), Ok(())),
                    }
                },
                ExprView::Call(callee, _, args) => self.exprs(ast, e, seq![callee] + args, 0),
                ExprView::Get(object, _) => self.exprs(ast, e, seq![object], 0),
                ExprView::SetField(object, _, val) => self.exprs(ast, e, seq![val, object], 0),
                ExprView::This(token) => if self.current_class == ClassType::Outside {
                    (
                        self,
                        Err(
                            ErrorView::Parse(
                                token.line,
                                "Cannot use 'this' outside of a class"@,
                                token.lexeme,
                            ),
                        ),
                    )
                } else {
                    (self.resolve_local(e, token.lexeme), Ok(()))
                },
                ExprView::Super(keyword, _) => if self.current_class != ClassType::Subclass {
                    (
                        self,
                        Err(
                            ErrorView::Parse(
                                keyword.line,
                                "Cannot use 'super' outside of a subclass"@,
                                keyword.lexeme,
                            ),
                        ),
                    )
                } else {
                    (self.resolve_local(e, keyword.lexeme), Ok(()))
                },
            }
        }
    }

    /// Resolves the expressions `list[i..]`, operands of the node `parent`,
    /// in order, up to the first error.
    #[verifier::opaque]
    pub open spec fn exprs(self, ast: AstView, parent: usize, list: Seq<usize>, i: nat) -> Resolved
        decreases parent, 0nat, list.len() - i,
    {
        if i >= list.len() {
            (self, Ok(()))
        } else if list[i as int] >= parent {
            self.stalled()
        } else {
            let (r, res) = self.expr(ast, list[i as int]);
            match res {
                Err(e) => (r, Err(e)),
                Ok(_) => r.exprs(ast, parent, list, i + 1),
            }
        }
    }

    /// Resolves an expression that may be absent.
    pub open spec fn opt_expr(self, ast: AstView, e: Option<usize>) -> Resolved {
        match e {
            Some(e) => self.expr(ast, e),
            None => (self, Ok(())),
        }
    }

    /// Declares and defines the parameters `list[i..]`.
    pub open spec fn params(self, list: Seq<TokenView>, i: nat) -> Resolved
        decreases list.len() - i,
    {
        if i >= list.len() {
            (self, Ok(()))
        } else {
            let (r, res) = self.declare(list[i as int]);
            match res {
                Err(e) => (r, Err(e)),
                Ok(_) => r.define(list[i as int]).params(list, i + 1),
            }
        }
    }

    /// Resolves the body of a function of kind `kind`, found under the node
    /// `parent`: the parameters get a scope of their own around the body.
    #[verifier::opaque]
    pub open spec fn function(
        self,
        ast: AstView,
        parent: usize,
        params: Seq<TokenView>,
        body: usize,
        kind: FunctionType,
    ) -> Resolved
        decreases parent, 0nat, 0nat,
    {
        let inside = ResolverView { current_func: kind, ..self }.begin_scope();
        let (r1, declared) = inside.params(params, 0);
        match declared {
            Err(e) => (r1, Err(e)),
            Ok(_) => if body >= parent {
                r1.stalled()
            } else {
                let (r2, res) = r1.stmt(ast, body);
                match res {
                    Err(e) => (r2, Err(e)),
                    Ok(_) => (
                        ResolverView { current_func: self.current_func, ..r2.end_scope() },
                        Ok(()),
                    ),
                }
            },
        }
    }

    /// Resolves the statements `list[i..]`, found under the node `parent`, in
    /// order, up to the first error.
    #[verifier::opaque]
    pub open spec fn stmts(self, ast: AstView, parent: usize, list: Seq<usize>, i: nat) -> Resolved
        decreases parent, 0nat, list.len() - i,
    {
        if i >= list.len() {
            (self, Ok(()))
        } else if list[i as int] >= parent {
            self.stalled()
        } else {
            let (r, res) = self.stmt(ast, list[i as int]);
            match res {
                Err(e) => (r, Err(e)),
                Ok(_) => r.stmts(ast, parent, list, i + 1),
            }
        }
    }

    /// Resolves the methods `list[i..]` of the class `parent`. A method
    /// named `init` is an initializer.
    #[verifier::opaque]
    pub open spec fn methods(self, ast: AstView, parent: usize, list: Seq<usize>, i: nat) -> Resolved
        decreases parent, 0nat, list.len() - i,
    {
        if i >= list.len() {
            (self, Ok(()))
        } else if list[i as int] >= parent || list[i as int] >= ast.stmts.len() {
            self.stalled()
        } else {
            match ast.stmts[list[i as int] as int] {
                StmtView::Function(name, params, body) => {
                    let kind = if name.lexeme == "init"@ {
                        FunctionType::Initializer
                    } else {
                        FunctionType::Method
                    };
                    let (r, res) = self.function(ast, parent, params, body, kind);
                    match res {
                        Err(e) => (r, Err(e)),
                        Ok(_) => r.methods(ast, parent, list, i + 1),
                    }
                },
                _ => self.stalled(),
            }
        }
    }

    /// The name of the superclass, where the superclass is given by a name.
    pub open spec fn parent_name(ast: AstView, parent: usize) -> Option<TokenView> {
        if parent < ast.exprs.len() {
            match ast.exprs[parent as int] {
                ExprView::Identifier(token) => Some(token),
                _ => None,
            }
        } else {
            None
        }
    }

    /// Resolves the class declaration at node `s`.
    #[verifier::opaque]
    pub open spec fn visit_class(
        self,
        ast: AstView,
        s: usize,
        name: TokenView,
        parent: Option<usize>,
        methods: Seq<usize>,
    ) -> Resolved
        decreases s, 0nat, methods.len() + 1,
    {
        let (r1, declared) = self.declare(name);
        let r2 = r1.define(name);
        match declared {
            Err(e) => (r1, Err(e)),
            Ok(_) => match parent {
                Some(p) => {
                    let inherits_itself = Self::parent_name(ast, p) matches Some(token)
                        && token.lexeme == name.lexeme;
                    let r3 = ResolverView { current_class: ClassType::Subclass, ..r2 };
                    let (r4, res) = r3.expr(ast, p);
                    let r5 = r4.begin_scope().put("super"@, true).begin_scope().put("this"@, true);
                    let (r6, done) = r5.methods(ast, s, methods, 0);
                    if inherits_itself {
                        (
                            r2,
                            Err(
                                ErrorView::Parse(
                                    Self::parent_name(ast, p)->0.line,
                                    "A class cannot inherit from itself"@,
                                    name.lexeme,
                                ),
                            ),
                        )
                    } else if let Err(e) = res {
                        (r4, Err(e))
                    } else if let Err(e) = done {
                        (r6, Err(e))
                    } else {
                        (
                            ResolverView {
                                current_class: self.current_class,
                                ..r6.end_scope().end_scope()
                            },
                            Ok(()),
                        )
                    }
                },
                None => {
                    let r3 = ResolverView { current_class: ClassType::Class, ..r2 };
                    let r5 = r3.begin_scope().put("this"@, true);
                    let (r6, done) = r5.methods(ast, s, methods, 0);
                    match done {
                        Err(e) => (r6, Err(e)),
                        Ok(_) => (
                            ResolverView { current_class: self.current_class, ..r6.end_scope() },
                            Ok(()),
                        ),
                    }
                },
            },
        }
    }

    /// Resolves the statement `s`.
    #[verifier::opaque]
    pub open spec fn stmt(self, ast: AstView, s: usize) -> Resolved
        decreases s, 1nat, 0nat,
    {
        if s >= ast.stmts.len() {
            self.stalled()
        } else {
            match ast.stmts[s as int] {
                StmtView::Expression(e) => self.expr(ast, e),
                StmtView::Print(e) => self.expr(ast, e),
                StmtView::Declaration(id, init) => {
                    let (r1, declared) = self.declare(id);
                    let (r2, res) = r1.opt_expr(ast, init);
                    if let Err(e) = declared {
                        (r1, Err(e))
                    } else if let Err(e) = res {
                        (r2, Err(e))
                    } else {
                        (r2.define(id), Ok(()))
                    }
                },
                StmtView::Block(body) => {
                    let (r, res) = self.begin_scope().stmts(ast, s, body, 0);
                    match res {
                        Err(e) => (r, Err(e)),
                        Ok(_) => (r.end_scope(), Ok(())),
                    }
                },
                StmtView::If(cond, then_stmt, else_stmt) => {
                    let (r1, res) = self.expr(ast, cond);
                    let branches = match else_stmt {
                        Some(else_stmt) => seq![then_stmt, else_stmt],
                        None => seq![then_stmt],
                    };
                    match res {
                        Err(e) => (r1, Err(e)),
                        Ok(_) => r1.stmts(ast, s, branches, 0),
                    }
                },
                StmtView::While(cond, body) => {
                    let inside = ResolverView { loop_depth: self.loop_depth + 1, ..self };
                    let (r1, res) = inside.expr(ast, cond);
                    let (r2, done) = r1.stmts(ast, s, seq![body], 0);
                    if let Err(e) = res {
                        (r1, Err(e))
                    } else if let Err(e) = done {
                        (r2, Err(e))
                    } else {
                        (ResolverView { loop_depth: (r2.loop_depth - 1) as nat, ..r2 }, Ok(()))
                    }
                },
                StmtView::Break(token) => if self.loop_depth == 0 {
                    (self, Err(ErrorView::Break(token.line)))
                } else {
                    (self, Ok(()))
                },
                StmtView::Function(name, params, body) => {
                    let (r1, declared) = self.declare(name);
                    match declared {
                        Err(e) => (r1, Err(e)),
                        Ok(_) => r1.define(name).function(
                            ast,
                            s,
                            params,
                            body,
                            FunctionType::Function,
                        ),
                    }
                },
                StmtView::Return(keyword, val) => if self.current_func == FunctionType::Outside {
                    (
                        self,
                        Err(
                            ErrorView::Parse(
                                keyword.line,
                                "cannot return from top-level code"@,
                                keyword.lexeme,
                            ),
                        ),
                    )
                } else if val is Some && self.current_func == FunctionType::Initializer {
                    (
                        self,
                        Err(
                            ErrorView::Parse(
                                keyword.line,
                                "Cannot return a value from an initializer"@,
                                keyword.lexeme,
                            ),
                        ),
                    )
                } else {
                    self.opt_expr(ast, val)
                },
                StmtView::Class(name, parent, methods) => self.visit_class(
                    ast,
                    s,
                    name,
                    parent,
                    methods,
                ),
            }
        }
    }

    /// Resolving has left the resolver where it was but for the scopes'
    /// contents and the side table.
    pub open spec fn balanced(self, later: ResolverView) -> bool {
        &&& later.scopes.len() == self.scopes.len()
        &&& later.current_func == self.current_func
        &&& later.current_class == self.current_class
        &&& later.loop_depth == self.loop_depth
    }
}


/// If a name is declared at some distance, that many scopes are open.
pub proof fn lemma_search(scopes: Seq<Map<Seq<char>, bool>>, name: Seq<char>, k: nat)
    requires
        scopes.len() <= usize::MAX,
    ensures
        search(scopes, name, k) matches Some(d) ==> (k <= d < scopes.len() && scopes[scopes.len() - 1
            - d].contains_key(name)),
    decreases scopes.len() - k,
{
    if k < scopes.len() && !scopes[scopes.len() - 1 - k].contains_key(name) {
        lemma_search(scopes, name, k + 1);
    }
}

pub struct Resolver {
    pub scopes: Vec<Table<bool>>,
    pub current_func: FunctionType,
    pub current_class: ClassType,
    pub loop_depth: usize,
    pub locals: Locals,
}

impl View for Resolver {
    type V = ResolverView;

    open spec fn view(&self) -> ResolverView {
        ResolverView {
            scopes: Seq::new(self.scopes@.len(), |i: int| self.scopes@[i]@),
            current_func: self.current_func,
            current_class: self.current_class,
            loop_depth: self.loop_depth as nat,
            locals: self.locals@,
        }
    }
}

impl Resolver {
    /// Every scope's table is in order.
    pub open spec fn wf(&self) -> bool {
        forall|i: int| 0 <= i < self.scopes@.len() ==> (#[trigger] self.scopes@[i]).wf()
    }

    /// A resolver at the top level of a program, filling the table `locals`.
    pub fn new(locals: Locals) -> (r: Self)
        ensures
            r.wf(),
            r@ == ResolverView::start(locals@),
    {
        let r = Resolver {
            scopes: Vec::new(),
            current_func: FunctionType::Outside,
            current_class: ClassType::Outside,
            loop_depth: 0,
            locals,
        };
        assert(r@.scopes =~= Seq::empty());
        r
    }

    /// Resolves the statement `stmt` of `ast` as a top-level statement,
    /// adding to the side table `locals`. The table comes back as it stands
    /// after the walk, together with the first error if there was one.
    pub fn resolve(locals: Locals, ast: &Ast, stmt: usize) -> (r: (Locals, Result<(), RloxError>))
        requires
            ast.wf(),
            stmt < ast@.stmts.len(),
        ensures
            r.0@ == ResolverView::start(locals@).stmt(ast@, stmt).0.locals,
            unit_result_view(r.1) == ResolverView::start(locals@).stmt(ast@, stmt).1,
    {
        let n = ast.n_stmts();
        let mut resolver = Resolver::new(locals);
        let res = resolver.stmt(ast, stmt);
        (resolver.locals, res)
    }

    fn begin_scope(&mut self)
        requires
            old(self).wf(),
        ensures
            final(self).wf(),
            final(self)@ == old(self)@.begin_scope(),
    {
        self.scopes.push(Table::new());
        assert(self@.scopes =~= old(self)@.begin_scope().scopes);
    }

    fn end_scope(&mut self)
        requires
            old(self).wf(),
        ensures
            final(self).wf(),
            final(self)@ == old(self)@.end_scope(),
    {
        if self.scopes.len() > 0 {
            self.scopes.pop();
            assert(self@.scopes =~= old(self)@.end_scope().scopes);
        }
    }

    fn put(&mut self, name: &String, defined: bool)
        requires
            old(self).wf(),
        ensures
            final(self).wf(),
            final(self)@ == old(self)@.put(name@, defined),
    {
        let n = self.scopes.len();
        if n > 0 {
            self.scopes[n - 1].insert(name, defined);
            assert(self@.scopes =~= old(self)@.put(name@, defined).scopes);
        }
    }

    fn declare(&mut self, id: &Token) -> (r: Result<(), RloxError>)
        requires
            old(self).wf(),
        ensures
            final(self).wf(),
            (final(self)@, unit_result_view(r)) == old(self)@.declare(id@),
    {
        let n = self.scopes.len();
        if n > 0 && self.scopes[n - 1].contains_key(&id.lexeme) {
            return Err(
                RloxError::parse(
                    id.line,
                    "variable already defined with this name in this scope",
                    &id.lexeme,
                ),
            );
        }
        self.put(&id.lexeme, false);
        Ok(())
    }

    fn define(&mut self, id: &Token)
        requires
            old(self).wf(),
        ensures
            final(self).wf(),
            final(self)@ == old(self)@.define(id@),
    {
        self.put(&id.lexeme, true);
    }

    fn resolve_local(&mut self, id: &Token, expr: usize)
        requires
            old(self).wf(),
            expr < usize::MAX,
        ensures
            final(self).wf(),
            final(self)@ == old(self)@.resolve_local(expr, id@.lexeme),
    {
        let len = self.scopes.len();
        let mut k: usize = 0;
        assert(self@.scopes.len() == len);
        while k < len
            invariant
                self.wf(),
                self@ == old(self)@,
                expr < usize::MAX,
                len == self.scopes@.len(),
                k <= len,
                distance(self@.scopes, id@.lexeme) == search(self@.scopes, id@.lexeme, k as nat),
            decreases len - k,
        {
            if self.scopes[len - 1 - k].contains_key(&id.lexeme) {
                self.locals.resolve(expr, k);
                return ;
            }
            k += 1;
        }
    }

    fn in_own_initializer(&self, id: &Token) -> (r: bool)
        requires
            self.wf(),
        ensures
            r == self@.in_own_initializer(id@.lexeme),
    {
        let n = self.scopes.len();
        if n == 0 {
            return false;
        }
        match self.scopes[n - 1].get(&id.lexeme) {
            Some(defined) => !*defined,
            None => false,
        }
    }

    /// Resolves the operands `list[..]` of the expression `parent`.
    fn exprs(&mut self, ast: &Ast, parent: usize, list: &[usize]) -> (r: Result<(), RloxError>)
        requires
            old(self).wf(),
            ast.wf(),
            parent <= ast@.exprs.len(),
            forall|k: int| 0 <= k < list@.len() ==> list@[k] < parent,
        ensures
            final(self).wf(),
            (final(self)@, unit_result_view(r)) == old(self)@.exprs(ast@, parent, list@, 0),
            r is Ok ==> old(self)@.balanced(final(self)@),
        decreases parent, 0nat, list@.len(),
    {
        let mut i: usize = 0;
        while i < list.len()
            invariant
                self.wf(),
                ast.wf(),
                i <= list@.len(),
                parent <= ast@.exprs.len(),
                forall|k: int| 0 <= k < list@.len() ==> list@[k] < parent,
                old(self)@.balanced(self@),
                old(self)@.exprs(ast@, parent, list@, 0) == self@.exprs(ast@, parent, list@, i as nat),
            decreases list@.len() - i,
        {
            reveal(ResolverView::exprs);
            reveal(ResolverView::expr);
            if let Err(e) = self.expr(ast, list[i]) {
                return Err(e);
            }
            i += 1;
        }
        reveal(ResolverView::exprs);
        reveal(ResolverView::expr);
        Ok(())
    }

    /// Resolves one expression.
    #[verifier::rlimit(100)]
    fn expr(&mut self, ast: &Ast, e: usize) -> (r: Result<(), RloxError>)
        requires
            old(self).wf(),
            ast.wf(),
            e < ast@.exprs.len(),
        ensures
            final(self).wf(),
            (final(self)@, unit_result_view(r)) == old(self)@.expr(ast@, e),
            r is Ok ==> old(self)@.balanced(final(self)@),
        decreases e, 1nat, 0nat,
    {
        reveal(ResolverView::expr);
        reveal(ResolverView::exprs);
        let n = ast.n_exprs();
        let ghost node = ast@.exprs[e as int];
        assert(node.wf(e as int));
        match ast.expr(e) {
            Expr::Identifier(id) => self.visit_identifier(id, e),
            Expr::Literal(_) => Ok(()),
            Expr::Logical(lhs, _, rhs) => {
                let list = [*lhs, *rhs];
                assert(list@ =~= seq![*lhs, *rhs]);
                assert(node.children()[0] == *lhs && node.children()[1] == *rhs);
                self.exprs(ast, e, &list)
            },
            Expr::Binary(lhs, _, rhs) => {
                let list = [*lhs, *rhs];
                assert(list@ =~= seq![*lhs, *rhs]);
                assert(node.children()[0] == *lhs && node.children()[1] == *rhs);
                self.exprs(ast, e, &list)
            },
            Expr::Grouping(inner) => {
                let list = [*inner];
                assert(list@ =~= seq![*inner]);
                assert(node.children()[0] == *inner);
                self.exprs(ast, e, &list)
            },
            Expr::Unary(_, rhs) => {
                let list = [*rhs];
                assert(list@ =~= seq![*rhs]);
                assert(node.children()[0] == *rhs);
                self.exprs(ast, e, &list)
            },
            Expr::Assignment(id, val) => {
                let list = [*val];
                assert(list@ =~= seq![*val]);
                assert(node.children()[0] == *val);
                if let Err(err) = self.exprs(ast, e, &list) {
                    return Err(err);
                }
                self.resolve_local(id, e);
                Ok(())
            },
            Expr::Call(callee, _, args) => {
                let mut list: Vec<usize> = Vec::new();
                list.push(*callee);
                let mut k: usize = 0;
                while k < args.len()
                    invariant
                        k <= args@.len(),
                        list@ == seq![*callee] + args@.take(k as int),
                    decreases args@.len() - k,
                {
                    list.push(args[k]);
                    k += 1;
                    assert(args@.take(k as int) =~= args@.take(k - 1).push(args@[k - 1]));
                    assert(list@ =~= seq![*callee] + args@.take(k as int));
                }
                assert(args@.take(k as int) =~= args@);
                assert forall|j: int| 0 <= j < list@.len() implies list@[j] < e by {
                    assert(node.children()[j] == list@[j]);
                }
                self.exprs(ast, e, list.as_slice())
            },
            Expr::Get(object, _) => {
                let list = [*object];
                assert(list@ =~= seq![*object]);
                assert(node.children()[0] == *object);
                self.exprs(ast, e, &list)
            },
            Expr::SetField(object, _, val) => {
                let list = [*val, *object];
                assert(list@ =~= seq![*val, *object]);
                assert(node.children()[0] == *object && node.children()[1] == *val);
                self.exprs(ast, e, &list)
            },
            Expr::This(token) => {
                if self.current_class == ClassType::Outside {
                    return Err(
                        RloxError::parse(
                            token.line,
                            "Cannot use 'this' outside of a class",
                            &token.lexeme,
                        ),
                    );
                }
                self.resolve_local(token, e);
                Ok(())
            },
            Expr::Super(keyword, _) => {
                if self.current_class != ClassType::Subclass {
                    return Err(
                        RloxError::parse(
                            keyword.line,
                            "Cannot use 'super' outside of a subclass",
                            &keyword.lexeme,
                        ),
                    );
                }
                self.resolve_local(keyword, e);
                Ok(())
            },
        }
    }

    fn visit_identifier(&mut self, id: &Token, expr: usize) -> (r: Result<(), RloxError>)
        requires
            old(self).wf(),
            expr < usize::MAX,
        ensures
            final(self).wf(),
            old(self)@.balanced(final(self)@),
            final(self)@ == (if old(self)@.in_own_initializer(id@.lexeme) {
                old(self)@
            } else {
                old(self)@.resolve_local(expr, id@.lexeme)
            }),
            unit_result_view(r) == (if old(self)@.in_own_initializer(id@.lexeme) {
                Err::<(), ErrorView>(
                    ErrorView::Parse(
                        id@.line,
                        "Cannot read local variable in its own initializer"@,
                        id@.lexeme,
                    ),
                )
            } else {
                Ok::<(), ErrorView>(())
            }),
    {
        if self.in_own_initializer(id) {
            return Err(
                RloxError::parse(
                    id.line,
                    "Cannot read local variable in its own initializer",
                    &id.lexeme,
                ),
            );
        }
        self.resolve_local(id, expr);
        Ok(())
    }

    fn opt_expr(&mut self, ast: &Ast, e: Option<usize>) -> (r: Result<(), RloxError>)
        requires
            old(self).wf(),
            ast.wf(),
            e matches Some(e) ==> e < ast@.exprs.len(),
        ensures
            final(self).wf(),
            (final(self)@, unit_result_view(r)) == old(self)@.opt_expr(ast@, e),
            r is Ok ==> old(self)@.balanced(final(self)@),
    {
        match e {
            Some(e) => self.expr(ast, e),
            None => Ok(()),
        }
    }

    fn params(&mut self, list: &Vec<Token>) -> (r: Result<(), RloxError>)
        requires
            old(self).wf(),
        ensures
            final(self).wf(),
            (final(self)@, unit_result_view(r)) == old(self)@.params(token_views(list@), 0),
            r is Ok ==> old(self)@.balanced(final(self)@),
    {
        let mut i: usize = 0;
        while i < list.len()
            invariant
                self.wf(),
                i <= list@.len(),
                old(self)@.balanced(self@),
                old(self)@.params(token_views(list@), 0) == self@.params(
                    token_views(list@),
                    i as nat,
                ),
            decreases list@.len() - i,
        {
            if let Err(e) = self.declare(&list[i]) {
                return Err(e);
            }
            self.define(&list[i]);
            i += 1;
        }
        Ok(())
    }

    fn function(
        &mut self,
        ast: &Ast,
        parent: usize,
        params: &Vec<Token>,
        body: usize,
        kind: FunctionType,
    ) -> (r: Result<(), RloxError>)
        requires
            old(self).wf(),
            ast.wf(),
            body < parent,
            parent < ast@.stmts.len(),
            old(self).loop_depth + parent <= usize::MAX,
        ensures
            final(self).wf(),
            (final(self)@, unit_result_view(r)) == old(self)@.function(
                ast@,
                parent,
                token_views(params@),
                body,
                kind,
            ),
            r is Ok ==> old(self)@.balanced(final(self)@),
        decreases parent, 0nat, 0nat,
    {
        reveal(ResolverView::function);
        reveal(ResolverView::stmt);
        let prev = self.current_func;
        self.current_func = kind;
        self.begin_scope();
        if let Err(e) = self.params(params) {
            return Err(e);
        }
        if let Err(e) = self.stmt(ast, body) {
            return Err(e);
        }
        self.end_scope();
        self.current_func = prev;
        Ok(())
    }

    /// Resolves the statements `list[..]` found under the statement `parent`.
    fn stmts(&mut self, ast: &Ast, parent: usize, list: &[usize]) -> (r: Result<(), RloxError>)
        requires
            old(self).wf(),
            ast.wf(),
            parent < ast@.stmts.len(),
            forall|k: int| 0 <= k < list@.len() ==> list@[k] < parent,
            old(self).loop_depth + parent <= usize::MAX,
        ensures
            final(self).wf(),
            (final(self)@, unit_result_view(r)) == old(self)@.stmts(ast@, parent, list@, 0),
            r is Ok ==> old(self)@.balanced(final(self)@),
        decreases parent, 0nat, list@.len(),
    {
        let mut i: usize = 0;
        while i < list.len()
            invariant
                self.wf(),
                ast.wf(),
                i <= list@.len(),
                parent < ast@.stmts.len(),
                forall|k: int| 0 <= k < list@.len() ==> list@[k] < parent,
                old(self)@.balanced(self@),
                old(self).loop_depth + parent <= usize::MAX,
                old(self)@.stmts(ast@, parent, list@, 0) == self@.stmts(ast@, parent, list@, i as nat),
            decreases list@.len() - i,
        {
            reveal(ResolverView::stmts);
            reveal(ResolverView::stmt);
            if let Err(e) = self.stmt(ast, list[i]) {
                return Err(e);
            }
            i += 1;
        }
        reveal(ResolverView::stmts);
        reveal(ResolverView::stmt);
        Ok(())
    }

    /// Resolves the methods `list[..]` of the class declared at `parent`.
    fn methods(&mut self, ast: &Ast, parent: usize, list: &Vec<usize>) -> (r: Result<(), RloxError>)
        requires
            old(self).wf(),
            ast.wf(),
            parent < ast@.stmts.len(),
            forall|k: int| 0 <= k < list@.len() ==> list@[k] < parent,
            old(self).loop_depth + parent <= usize::MAX,
        ensures
            final(self).wf(),
            (final(self)@, unit_result_view(r)) == old(self)@.methods(ast@, parent, list@, 0),
            r is Ok ==> old(self)@.balanced(final(self)@),
        decreases parent, 0nat, list@.len(),
    {
        let mut i: usize = 0;
        while i < list.len()
            invariant
                self.wf(),
                ast.wf(),
                i <= list@.len(),
                parent < ast@.stmts.len(),
                forall|k: int| 0 <= k < list@.len() ==> list@[k] < parent,
                old(self)@.balanced(self@),
                old(self).loop_depth + parent <= usize::MAX,
                old(self)@.methods(ast@, parent, list@, 0) == self@.methods(
                    ast@,
                    parent,
                    list@,
                    i as nat,
                ),
            decreases list@.len() - i,
        {
            reveal(ResolverView::methods);
            reveal(ResolverView::function);
            let m = list[i];
            assert(ast@.stmts[m as int].wf(m as int, ast@.exprs.len() as int));
            match ast.stmt(m) {
                Stmt::Function(name, params, body) => {
                    assert(ast@.stmts[m as int].stmts()[0] == *body);
                    let kind = if name.lexeme == "init".to_string() {
                        FunctionType::Initializer
                    } else {
                        FunctionType::Method
                    };
                    if let Err(e) = self.function(ast, parent, params, *body, kind) {
                        return Err(e);
                    }
                },
                _ => {
                    return Err(RloxError::Parse(0, "".to_string(), "".to_string()));
                },
            }
            i += 1;
        }
        reveal(ResolverView::methods);
        reveal(ResolverView::function);
        Ok(())
    }

    fn visit_class(
        &mut self,
        ast: &Ast,
        s: usize,
        name: &Token,
        parent: Option<usize>,
        methods: &Vec<usize>,
    ) -> (r: Result<(), RloxError>)
        requires
            old(self).wf(),
            ast.wf(),
            s < ast@.stmts.len(),
            parent matches Some(p) ==> p < ast@.exprs.len(),
            forall|k: int| 0 <= k < methods@.len() ==> methods@[k] < s,
            old(self).loop_depth + s < usize::MAX,
        ensures
            final(self).wf(),
            (final(self)@, unit_result_view(r)) == old(self)@.visit_class(
                ast@,
                s,
                name@,
                parent,
                methods@,
            ),
            r is Ok ==> old(self)@.balanced(final(self)@),
        decreases s, 0nat, methods@.len() + 1,
    {
        reveal(ResolverView::visit_class);
        reveal(ResolverView::methods);
        let prev = self.current_class;
        if let Err(e) = self.declare(name) {
            return Err(e);
        }
        self.define(name);
        match parent {
            Some(p) => {
                if let Expr::Identifier(token) = ast.expr(p) {
                    if token.lexeme == name.lexeme {
                        return Err(
                            RloxError::parse(
                                token.line,
                                "A class cannot inherit from itself",
                                &name.lexeme,
                            ),
                        );
                    }
                }
                self.current_class = ClassType::Subclass;
                if let Err(e) = self.expr(ast, p) {
                    return Err(e);
                }
                self.begin_scope();
                self.put(&"super".to_string(), true);
                self.begin_scope();
                self.put(&"this".to_string(), true);
                if let Err(e) = self.methods(ast, s, methods) {
                    return Err(e);
                }
                self.end_scope();
                self.end_scope();
                self.current_class = prev;
                Ok(())
            },
            None => {
                self.current_class = ClassType::Class;
                self.begin_scope();
                self.put(&"this".to_string(), true);
                if let Err(e) = self.methods(ast, s, methods) {
                    return Err(e);
                }
                self.end_scope();
                self.current_class = prev;
                Ok(())
            },
        }
    }

    /// Resolves one statement.
    #[verifier::rlimit(100)]
    fn stmt(&mut self, ast: &Ast, s: usize) -> (r: Result<(), RloxError>)
        requires
            old(self).wf(),
            ast.wf(),
            s < ast@.stmts.len(),
            old(self).loop_depth + s < usize::MAX,
        ensures
            final(self).wf(),
            (final(self)@, unit_result_view(r)) == old(self)@.stmt(ast@, s),
            r is Ok ==> old(self)@.balanced(final(self)@),
        decreases s, 1nat, 0nat,
    {
        reveal(ResolverView::stmt);
        reveal(ResolverView::stmts);
        reveal(ResolverView::function);
        reveal(ResolverView::visit_class);
        let ghost node = ast@.stmts[s as int];
        assert(node.wf(s as int, ast@.exprs.len() as int));
        match ast.stmt(s) {
            Stmt::Expression(e) => {
                assert(node.exprs()[0] == *e);
                self.expr(ast, *e)
            },
            Stmt::Print(e) => {
                assert(node.exprs()[0] == *e);
                self.expr(ast, *e)
            },
            Stmt::Declaration(id, init) => {
                if let Err(e) = self.declare(id) {
                    return Err(e);
                }
                if let Some(init) = init {
                    assert(node.exprs()[0] == *init);
                }
                if let Err(e) = self.opt_expr(ast, *init) {
                    return Err(e);
                }
                self.define(id);
                Ok(())
            },
            Stmt::Block(body) => {
                self.begin_scope();
                assert forall|k: int| 0 <= k < body@.len() implies body@[k] < s by {
                    assert(node.stmts()[k] == body@[k]);
                }
                if let Err(e) = self.stmts(ast, s, body.as_slice()) {
                    return Err(e);
                }
                self.end_scope();
                Ok(())
            },
            Stmt::If(cond, then_stmt, else_stmt) => {
                assert(node.exprs()[0] == *cond);
                if let Err(e) = self.expr(ast, *cond) {
                    return Err(e);
                }
                assert(node.stmts()[0] == *then_stmt);
                match else_stmt {
                    Some(else_stmt) => {
                        assert(node.stmts()[1] == *else_stmt);
                        let list = [*then_stmt, *else_stmt];
                        assert(list@ =~= seq![*then_stmt, *else_stmt]);
                        self.stmts(ast, s, &list)
                    },
                    None => {
                        let list = [*then_stmt];
                        assert(list@ =~= seq![*then_stmt]);
                        self.stmts(ast, s, &list)
                    },
                }
            },
            Stmt::While(cond, body) => {
                assert(node.exprs()[0] == *cond);
                assert(node.stmts()[0] == *body);
                self.loop_depth += 1;
                if let Err(e) = self.expr(ast, *cond) {
                    return Err(e);
                }
                let list = [*body];
                assert(list@ =~= seq![*body]);
                if let Err(e) = self.stmts(ast, s, &list) {
                    return Err(e);
                }
                self.loop_depth -= 1;
                Ok(())
            },
            Stmt::Break(token) => {
                if self.loop_depth == 0 {
                    return Err(RloxError::Break(token.line));
                }
                Ok(())
            },
            Stmt::Function(name, params, body) => {
                assert(node.stmts()[0] == *body);
                if let Err(e) = self.declare(name) {
                    return Err(e);
                }
                self.define(name);
                self.function(ast, s, params, *body, FunctionType::Function)
            },
            Stmt::Return(keyword, val) => {
                if self.current_func == FunctionType::Outside {
                    return Err(
                        RloxError::parse(
                            keyword.line,
                            "cannot return from top-level code",
                            &keyword.lexeme,
                        ),
                    );
                }
                if val.is_some() && self.current_func == FunctionType::Initializer {
                    return Err(
                        RloxError::parse(
                            keyword.line,
                            "Cannot return a value from an initializer",
                            &keyword.lexeme,
                        ),
                    );
                }
                if let Some(val) = val {
                    assert(node.exprs()[0] == *val);
                }
                self.opt_expr(ast, *val)
            },
            Stmt::Class(name, parent, methods) => {
                if let Some(p) = parent {
                    assert(node.exprs()[0] == *p);
                }
                assert forall|k: int| 0 <= k < methods@.len() implies methods@[k] < s by {
                    assert(node.stmts()[k] == methods@[k]);
                }
                self.visit_class(ast, s, name, *parent, methods)
            },
        }
    }
}

} // verus!
