//! Runtime values.

use vstd::prelude::*;
use vstd::string::StringExecFns;
use crate::functions::Callable;
use crate::number;

verus! {

/// A Lox value.
///
/// Numbers are binary64 bit patterns. Classes and instances are handles into
/// the evaluator's tables; two handles are the same object exactly when they
/// are equal.
#[derive(Debug)]
pub enum Object {
    Nil,
    Bool(bool),
    Number(u64),
    Str(String),
    Func(Callable),
    Class(usize),
    Instance(usize),
}

pub enum ObjectView {
    Nil,
    Bool(bool),
    Number(u64),
    Str(Seq<char>),
    Func(Callable),
    Class(usize),
    Instance(usize),
}

impl View for Object {
    type V = ObjectView;

    open spec fn view(&self) -> ObjectView {
        match self {
            Object::Nil => ObjectView::Nil,
            Object::Bool(b) => ObjectView::Bool(*b),
            Object::Number(n) => ObjectView::Number(*n),
            Object::Str(s) => ObjectView::Str(s@),
            Object::Func(f) => ObjectView::Func(*f),
            Object::Class(c) => ObjectView::Class(*c),
            Object::Instance(i) => ObjectView::Instance(*i),
        }
    }
}

impl ObjectView {
    /// `nil` and `false` are falsey; every other value, `0` and `""` included,
    /// is truthy.
    pub open spec fn is_truthy(self) -> bool {
        match self {
            ObjectView::Nil => false,
            ObjectView::Bool(b) => b,
            _ => true,
        }
    }

    /// Equality as `==` decides it: values of different kinds are never
    /// equal, numbers compare as IEEE-754 says, strings by content, and
    /// functions, classes and instances by identity.
    pub open spec fn equals(self, other: ObjectView) -> bool {
        match (self, other) {
            (ObjectView::Nil, ObjectView::Nil) => true,
            (ObjectView::Bool(a), ObjectView::Bool(b)) => a == b,
            (ObjectView::Number(a), ObjectView::Number(b)) => number::eq_spec(a, b),
            (ObjectView::Str(a), ObjectView::Str(b)) => a == b,
            (ObjectView::Func(a), ObjectView::Func(b)) => a == b,
            (ObjectView::Class(a), ObjectView::Class(b)) => a == b,
            (ObjectView::Instance(a), ObjectView::Instance(b)) => a == b,
            _ => false,
        }
    }
}

impl Clone for Object {
    fn clone(&self) -> (r: Self)
        ensures
            r == *self,
    {
        match self {
            Object::Nil => Object::Nil,
            Object::Bool(b) => Object::Bool(*b),
            Object::Number(n) => Object::Number(*n),
            Object::Str(s) => Object::Str(s.clone()),
            Object::Func(f) => Object::Func(*f),
            Object::Class(c) => Object::Class(*c),
            Object::Instance(i) => Object::Instance(*i),
        }
    }
}

impl Object {
    pub fn is_truthy(&self) -> (r: bool)
        ensures
            r == self@.is_truthy(),
    {
        match self {
            Object::Nil => false,
            Object::Bool(b) => *b,
            _ => true,
        }
    }

    pub fn equals(&self, other: &Object) -> (r: bool)
        ensures
            r == self@.equals(other@),
    {
        match (self, other) {
            (Object::Nil, Object::Nil) => true,
            (Object::Bool(a), Object::Bool(b)) => *a == *b,
            (Object::Number(a), Object::Number(b)) => number::eq_bits(*a, *b),
            (Object::Str(a), Object::Str(b)) => *a == *b,
            (Object::Func(a), Object::Func(b)) => *a == *b,
            (Object::Class(a), Object::Class(b)) => *a == *b,
            (Object::Instance(a), Object::Instance(b)) => *a == *b,
            _ => false,
        }
    }

    /// The concatenation of two strings.
    pub fn concat(a: &String, b: &String) -> (r: Object)
        ensures
            r@ == ObjectView::Str(a@ + b@),
    {
        let mut s = a.clone();
        s.append(b.as_str());
        Object::Str(s)
    }
}

} // verus!
