//! Diagnostics and the two control signals that travel like them.

use vstd::prelude::*;
use crate::object::{Object, ObjectView};

verus! {

/// Everything that can interrupt the pipeline.
///
/// The first three carry the line, a message and the offending text.
/// `Break` and `Return` are not faults: they are how `break` and `return`
/// leave the statement they are in, and only become diagnostics when nothing
/// is there to catch them.
#[derive(Debug)]
pub enum RloxError {
    Lexical(usize, String, String),
    Parse(usize, String, String),
    Runtime(usize, String, String),
    Break(usize),
    Return(usize, Object),
}

pub enum ErrorView {
    Lexical(usize, Seq<char>, Seq<char>),
    Parse(usize, Seq<char>, Seq<char>),
    Runtime(usize, Seq<char>, Seq<char>),
    Break(usize),
    Return(usize, ObjectView),
}

impl View for RloxError {
    type V = ErrorView;

    open spec fn view(&self) -> ErrorView {
        match self {
            RloxError::Lexical(line, msg, what) => ErrorView::Lexical(*line, msg@, what@),
            RloxError::Parse(line, msg, near) => ErrorView::Parse(*line, msg@, near@),
            RloxError::Runtime(line, msg, near) => ErrorView::Runtime(*line, msg@, near@),
            RloxError::Break(line) => ErrorView::Break(*line),
            RloxError::Return(line, value) => ErrorView::Return(*line, value@),
        }
    }
}

impl ErrorView {
    pub open spec fn line(self) -> usize {
        match self {
            ErrorView::Lexical(line, _, _) => line,
            ErrorView::Parse(line, _, _) => line,
            ErrorView::Runtime(line, _, _) => line,
            ErrorView::Break(line) => line,
            ErrorView::Return(line, _) => line,
        }
    }

    /// The offending text that the diagnostic carries. A signal carries
    /// none.
    pub open spec fn near(self) -> Seq<char> {
        match self {
            ErrorView::Lexical(_, _, what) => what,
            ErrorView::Parse(_, _, near) => near,
            ErrorView::Runtime(_, _, near) => near,
            _ => Seq::empty(),
        }
    }
}

impl Clone for RloxError {
    fn clone(&self) -> (r: Self)
        ensures
            r == *self,
    {
        match self {
            RloxError::Lexical(line, msg, what) => RloxError::Lexical(*line, msg.clone(), what.clone()),
            RloxError::Parse(line, msg, near) => RloxError::Parse(*line, msg.clone(), near.clone()),
            RloxError::Runtime(line, msg, near) => RloxError::Runtime(*line, msg.clone(), near.clone()),
            RloxError::Break(line) => RloxError::Break(*line),
            RloxError::Return(line, value) => RloxError::Return(*line, value.clone()),
        }
    }
}

impl RloxError {
    pub fn lexical(line: usize, msg: &str, what: &String) -> (e: Self)
        ensures
            e@ == ErrorView::Lexical(line, msg@, what@),
    {
        RloxError::Lexical(line, msg.to_string(), what.clone())
    }

    pub fn parse(line: usize, msg: &str, near: &String) -> (e: Self)
        ensures
            e@ == ErrorView::Parse(line, msg@, near@),
    {
        RloxError::Parse(line, msg.to_string(), near.clone())
    }

    pub fn runtime(line: usize, msg: &str, near: &String) -> (e: Self)
        ensures
            e@ == ErrorView::Runtime(line, msg@, near@),
    {
        RloxError::Runtime(line, msg.to_string(), near.clone())
    }

    /// The source line the diagnostic points at.
    pub fn line(&self) -> (r: usize)
        ensures
            r == self@.line(),
    {
        match self {
            RloxError::Lexical(line, _, _) => *line,
            RloxError::Parse(line, _, _) => *line,
            RloxError::Runtime(line, _, _) => *line,
            RloxError::Break(line) => *line,
            RloxError::Return(line, _) => *line,
        }
    }

    /// The offending text that the diagnostic carries.
    pub fn near(&self) -> (r: String)
        ensures
            r@ == self@.near(),
    {
        match self {
            RloxError::Lexical(_, _, what) => what.clone(),
            RloxError::Parse(_, _, near) => near.clone(),
            RloxError::Runtime(_, _, near) => near.clone(),
            _ => {
                let none = String::new();
                assert(none@ =~= Seq::<char>::empty());
                none
            },
        }
    }
}

pub open spec fn result_view<T: View>(r: Result<T, RloxError>) -> Result<T::V, ErrorView> {
    match r {
        Ok(t) => Ok(t@),
        Err(e) => Err(e@),
    }
}

} // verus!
