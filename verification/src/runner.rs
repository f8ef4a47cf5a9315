//! The pipeline as one machine: source text goes in, actions for the host
//! come out.
//!
//! A `Runner` holds a parser and an evaluator. While the evaluator has a
//! statement loaded, a step of the runner is a step of the evaluator. When
//! it has none, a step parses the next statement of the input, resolves it
//! and loads it. An error of the scanner or the parser is reported and
//! passed over; an error of the resolver or the evaluator ends the input.
//!
//! A runner is sound (`crate::binding::healthy`) when every reference that
//! the resolver gave a depth will find its variable in the frame at that
//! depth. A new runner is sound, and each method keeps it so, as long as
//! the machine has room and the statements of the input are bound well
//! (`crate::binding::bound_well`): no reference is resolved to the scope
//! of a declaration that stands alone under an `if` or a `while`, nor to a
//! variable within its own initializer. A reference that is so resolved is
//! still read and written at its depth and nowhere else: it yields what
//! the frame there binds under its name, or else a runtime error
//! (`crate::binding::law_resolved_variable_is_read_at_its_depth`).

use vstd::prelude::*;
use crate::ast::Ast;
use crate::binding::{
    healthy, law_runner_reply_stays_healthy, law_runner_starts_healthy, law_runner_stays_healthy,
    lemma_runner_evaluates, parses_well, runs_well, steps_well,
};
use crate::forest::{forest, low_stmt};
use crate::interpreter::Interpreter;
use crate::locals::Locals;
use crate::machine::{Action, ActionView, Control};
use crate::parser::{ParseState, Parser};
use crate::preservation::blocks_fit;
use crate::resolver::{Resolver, ResolverView};
use crate::scanner::{Scanner, ScannerView};
use crate::stmt::Stmt;
use crate::semantics::InterpreterView;

verus! {

/// The runner as a mathematical value.
pub struct RunnerView {
    pub parser: ParseState,
    pub interpreter: InterpreterView,
}

impl RunnerView {
    /// A runner that has been given no input yet.
    pub open spec fn start(repl: bool) -> RunnerView {
        RunnerView {
            parser: ParseState {
                tokens: ScannerView::start(Seq::empty()).drain(),
                pos: 0,
                ast: crate::ast::AstView::empty(),
            }.skip_rest(),
            interpreter: InterpreterView::start(repl),
        }
    }

    /// The runner at the start of the input `src`. What earlier inputs
    /// defined is kept.
    pub open spec fn feed(self, src: Seq<char>) -> RunnerView {
        RunnerView {
            parser: ParseState {
                tokens: ScannerView::start(src).drain(),
                pos: 0,
                ast: self.parser.ast,
            },
            ..self
        }
    }

    /// The step of a runner whose evaluator is at rest: the next statement
    /// is parsed, resolved and loaded.
    pub open spec fn advance(self) -> (RunnerView, ActionView) {
        let (parser, next) = self.parser.next();
        match next {
            None => (RunnerView { parser, ..self }, ActionView::Finished),
            Some(Err(e)) => (RunnerView { parser, ..self }, ActionView::Report(e)),
            Some(Ok(stmt)) => {
                let (resolver, res) = ResolverView::start(self.interpreter.locals).stmt(
                    parser.ast,
                    stmt,
                );
                let resolved = InterpreterView { locals: resolver.locals, ..self.interpreter };
                match res {
                    Err(e) => (
                        RunnerView { parser: parser.skip_rest(), interpreter: resolved },
                        ActionView::Failed(e),
                    ),
                    Ok(_) => (
                        RunnerView { parser, interpreter: resolved.load(stmt) },
                        ActionView::Proceed,
                    ),
                }
            },
        }
    }

    /// One step of the runner.
    pub open spec fn step(self) -> (RunnerView, ActionView) {
        if self.interpreter.control is Idle {
            self.advance()
        } else {
            let (interpreter, action) = self.interpreter.step(self.parser.ast);
            match action {
                ActionView::Finished => (RunnerView { interpreter, ..self }, ActionView::Proceed),
                ActionView::Failed(e) => (
                    RunnerView { parser: self.parser.skip_rest(), interpreter },
                    ActionView::Failed(e),
                ),
                _ => (RunnerView { interpreter, ..self }, action),
            }
        }
    }

    /// Up to `fuel` steps, stopping early at the first step that has
    /// something for the host.
    pub open spec fn run(self, fuel: nat) -> (RunnerView, ActionView)
        decreases fuel,
    {
        if fuel == 0 {
            (self, ActionView::Proceed)
        } else {
            let (next, action) = self.step();
            if action is Proceed {
                next.run((fuel - 1) as nat)
            } else {
                (next, action)
            }
        }
    }

    /// The host's answer to the question the evaluator waits on.
    pub open spec fn reply(self, n: u64) -> RunnerView {
        RunnerView { interpreter: self.interpreter.reply(n), ..self }
    }
}

/// No block of a stored syntax has more statements than can be counted.
pub proof fn lemma_stored_blocks_fit(ast: &Ast)
    ensures
        blocks_fit(ast@),
{
    assert forall|s: int| 0 <= s < ast@.stmts.len() implies (#[trigger] ast@.stmts[s]).stmts().len()
        <= usize::MAX by {
        let node = ast.stmts@[s];
        assert(ast@.stmts[s] == node@);
        match node {
            Stmt::Block(body) => {
                assert(body@.len() == body.len());
            },
            Stmt::Class(_, _, methods) => {
                assert(methods@.len() == methods.len());
            },
            _ => {},
        }
    }
}

/// The parser and the evaluator of one session.
pub struct Pipeline {
    pub parser: Parser,
    pub interpreter: Interpreter,
}

impl View for Pipeline {
    type V = RunnerView;

    open spec fn view(&self) -> RunnerView {
        RunnerView { parser: self.parser@, interpreter: self.interpreter@ }
    }
}

impl Pipeline {
    pub open spec fn wf(&self) -> bool {
        self.parser.wf() && self.interpreter.wf()
    }

    pub fn new(repl: bool) -> (p: Self)
        ensures
            p.wf(),
            p@ == RunnerView::start(repl),
            healthy(p@),
    {
        proof {
            reveal_strlit("");
            assert(""@ =~= Seq::<char>::empty());
            law_runner_starts_healthy(repl);
        }
        let mut parser = Parser::new(Scanner::new(""));
        parser.skip_rest();
        Pipeline { parser, interpreter: Interpreter::new(repl) }
    }

    pub fn feed(&mut self, src: &str)
        requires
            old(self).wf(),
            src@.len() < usize::MAX,
        ensures
            final(self).wf(),
            final(self)@ == old(self)@.feed(src@),
            healthy(old(self)@) ==> healthy(final(self)@),
    {
        self.parser.feed(Scanner::new(src));
    }

    fn advance(&mut self) -> (a: Action)
        requires
            old(self).wf(),
        ensures
            final(self).wf(),
            (final(self)@, a@) == old(self)@.advance(),
            parses_well(old(self)@),
    {
        let next = self.parser.next();
        proof {
            reveal(forest);
            reveal(low_stmt);
        }
        match next {
            None => Action::Finished,
            Some(Err(e)) => Action::Report(e),
            Some(Ok(stmt)) => {
                let mut locals = Locals::new();
                std::mem::swap(&mut self.interpreter.locals, &mut locals);
                let (locals, res) = Resolver::resolve(locals, &self.parser.ast, stmt);
                self.interpreter.locals = locals;
                match res {
                    Err(e) => {
                        self.parser.skip_rest();
                        Action::Failed(e)
                    },
                    Ok(_) => {
                        self.interpreter.load(stmt);
                        Action::Proceed
                    },
                }
            },
        }
    }

    pub fn step(&mut self) -> (a: Action)
        requires
            old(self).wf(),
        ensures
            final(self).wf(),
            (final(self)@, a@) == old(self)@.step(),
            healthy(old(self)@) && steps_well(old(self)@) ==> healthy(final(self)@),
    {
        proof {
            lemma_stored_blocks_fit(&self.parser.ast);
        }
        if let Control::Idle = &self.interpreter.control {
            let a = self.advance();
            proof {
                if healthy(old(self)@) && steps_well(old(self)@) {
                    law_runner_stays_healthy(old(self)@);
                }
            }
            return a;
        }
        proof {
            if healthy(old(self)@) && steps_well(old(self)@) {
                lemma_runner_evaluates(old(self)@);
            }
        }
        match self.interpreter.step(&self.parser.ast) {
            Action::Finished => Action::Proceed,
            Action::Failed(e) => {
                self.parser.skip_rest();
                Action::Failed(e)
            },
            action => action,
        }
    }

    pub fn run(&mut self, fuel: usize) -> (a: Action)
        requires
            old(self).wf(),
        ensures
            final(self).wf(),
            (final(self)@, a@) == old(self)@.run(fuel as nat),
            healthy(old(self)@) && runs_well(old(self)@, fuel as nat) ==> healthy(final(self)@),
    {
        let mut left = fuel;
        while left > 0
            invariant
                self.wf(),
                old(self)@.run(fuel as nat) == self@.run(left as nat),
                healthy(old(self)@) && runs_well(old(self)@, fuel as nat) ==> healthy(self@) && runs_well(
                    self@,
                    left as nat,
                ),
            decreases left,
        {
            let action = self.step();
            match action {
                Action::Proceed => {
                    left -= 1;
                },
                _ => {
                    return action;
                },
            }
        }
        Action::Proceed
    }

    pub fn reply(&mut self, n: u64)
        requires
            old(self).wf(),
        ensures
            final(self).wf(),
            final(self)@ == old(self)@.reply(n),
            healthy(old(self)@) ==> healthy(final(self)@),
    {
        proof {
            if healthy(self@) {
                law_runner_reply_stays_healthy(self@, n);
            }
        }
        self.interpreter.reply(n);
    }
}

/// A session with the interpreter, safe to drive from anywhere: its state
/// can only be reached through its methods, and none of them asks anything
/// of its caller but that an input fits in memory.
pub struct Runner {
    inner: Option<Pipeline>,
}

impl View for Runner {
    type V = RunnerView;

    closed spec fn view(&self) -> RunnerView {
        match self.inner {
            Some(p) => p@,
            None => RunnerView::start(false),
        }
    }
}

impl Runner {
    #[verifier::type_invariant]
    spec fn wf(self) -> bool {
        self.inner matches Some(p) ==> p.wf()
    }

    /// A runner with no input. In REPL mode a top-level expression
    /// statement prints its value.
    pub fn new(repl: bool) -> (r: Self)
        ensures
            r@ == RunnerView::start(repl),
            healthy(r@),
    {
        Runner { inner: Some(Pipeline::new(repl)) }
    }

    /// Takes the pipeline out, leaving nothing in its place.
    fn take(&mut self) -> (p: Pipeline)
        ensures
            p.wf(),
            p@ == old(self)@,
            final(self).inner is None,
    {
        proof {
            use_type_invariant(&*self);
        }
        let mut inner: Option<Pipeline> = None;
        std::mem::swap(&mut inner, &mut self.inner);
        match inner {
            Some(p) => p,
            None => Pipeline::new(false),
        }
    }

    /// Starts on the input `src`. What is left of an earlier input is
    /// dropped; what earlier inputs defined is kept.
    pub fn feed(&mut self, src: &str)
        requires
            src@.len() < usize::MAX,
        ensures
            final(self)@ == old(self)@.feed(src@),
            healthy(old(self)@) ==> healthy(final(self)@),
    {
        let mut p = self.take();
        p.feed(src);
        self.inner = Some(p);
    }

    /// Takes one step. A sound runner stays sound, where the statement that
    /// the step takes up is bound well and the machine has room for the
    /// step.
    pub fn step(&mut self) -> (a: Action)
        ensures
            (final(self)@, a@) == old(self)@.step(),
            healthy(old(self)@) && steps_well(old(self)@) ==> healthy(final(self)@),
    {
        let mut p = self.take();
        let a = p.step();
        self.inner = Some(p);
        a
    }

    /// Takes up to `fuel` steps and stops early at the first one that has
    /// something for the host: an output, a diagnostic, a question, or the
    /// end of the input. `Proceed` comes back if the steps were used up.
    pub fn run(&mut self, fuel: usize) -> (a: Action)
        ensures
            (final(self)@, a@) == old(self)@.run(fuel as nat),
            healthy(old(self)@) && runs_well(old(self)@, fuel as nat) ==> healthy(final(self)@),
    {
        let mut p = self.take();
        let a = p.run(fuel);
        self.inner = Some(p);
        a
    }

    /// Gives the evaluator the host's answer to the question it waits on.
    pub fn reply(&mut self, n: u64)
        ensures
            final(self)@ == old(self)@.reply(n),
            healthy(old(self)@) ==> healthy(final(self)@),
    {
        let mut p = self.take();
        p.reply(n);
        self.inner = Some(p);
    }
}

} // verus!
