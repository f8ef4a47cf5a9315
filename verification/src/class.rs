//! Classes and instances.

use vstd::prelude::*;
use crate::functions::{Callable, LoxFunction};
use crate::object::{Object, ObjectView};
use crate::table::Table;

verus! {

/// What kind of class body the resolver is currently inside.
#[derive(Debug, Clone, Copy, PartialEq, Eq, Structural)]
pub enum ClassType {
    /// Not inside any class.
    Outside,
    Class,
    Subclass,
}

/// A class: its name, its superclass, and its own methods by name.
///
/// Classes are kept in one store and named by their index; a superclass
/// was always made before its subclasses.
pub struct LoxClass {
    pub name: String,
    pub parent: Option<usize>,
    pub methods: Table<Object>,
}

pub struct ClassView {
    pub name: Seq<char>,
    pub parent: Option<usize>,
    pub methods: Map<Seq<char>, ObjectView>,
}

impl View for LoxClass {
    type V = ClassView;

    open spec fn view(&self) -> ClassView {
        ClassView { name: self.name@, parent: self.parent, methods: self.methods@ }
    }
}

impl LoxClass {
    pub fn new(name: String, parent: Option<usize>, methods: Table<Object>) -> (c: Self)
        ensures
            c == (LoxClass { name, parent, methods }),
    {
        LoxClass { name, parent, methods }
    }
}

/// An instance: its class, which never changes, and its fields by name.
pub struct LoxInstance {
    pub class: usize,
    pub fields: Table<Object>,
}

pub struct InstanceView {
    pub class: usize,
    pub fields: Map<Seq<char>, ObjectView>,
}

impl View for LoxInstance {
    type V = InstanceView;

    open spec fn view(&self) -> InstanceView {
        InstanceView { class: self.class, fields: self.fields@ }
    }
}

impl LoxInstance {
    /// A new instance of `class`, without fields.
    pub fn new(class: usize) -> (i: Self)
        ensures
            i@ == (InstanceView { class, fields: Map::empty() }),
            i.fields.wf(),
    {
        LoxInstance { class, fields: Table::new() }
    }
}

/// The method `name` of the class `class`: its own, or else the nearest one
/// up the chain of superclasses.
pub open spec fn find_method(classes: Seq<ClassView>, class: usize, name: Seq<char>) -> Option<
    LoxFunction,
>
    decreases class,
{
    if class >= classes.len() {
        None
    } else if classes[class as int].methods.contains_key(name) {
        match classes[class as int].methods[name] {
            ObjectView::Func(Callable::Runtime(f)) => Some(f),
            _ => None,
        }
    } else {
        match classes[class as int].parent {
            Some(p) => if p < class {
                find_method(classes, p, name)
            } else {
                None
            },
            None => None,
        }
    }
}

pub open spec fn class_views(classes: Seq<LoxClass>) -> Seq<ClassView> {
    Seq::new(classes.len(), |i: int| classes[i]@)
}

pub open spec fn instance_views(instances: Seq<LoxInstance>) -> Seq<InstanceView> {
    Seq::new(instances.len(), |i: int| instances[i]@)
}

/// Every class's table is in order and every superclass precedes its
/// subclasses.
pub open spec fn classes_wf(classes: Seq<LoxClass>) -> bool {
    forall|i: int|
        0 <= i < classes.len() ==> (#[trigger] classes[i]).methods.wf() && (classes[i].parent matches Some(
            p,
        ) ==> p < i)
}

pub open spec fn instances_wf(instances: Seq<LoxInstance>) -> bool {
    forall|i: int| 0 <= i < instances.len() ==> (#[trigger] instances[i]).fields.wf()
}

/// Looks `name` up in `class` and then up the chain of its superclasses.
pub fn lookup_method(classes: &Vec<LoxClass>, class: usize, name: &String) -> (r: Option<LoxFunction>)
    requires
        classes_wf(classes@),
    ensures
        r == find_method(class_views(classes@), class, name@),
{
    let mut at = class;
    loop
        invariant
            classes_wf(classes@),
            find_method(class_views(classes@), class, name@) == find_method(
                class_views(classes@),
                at,
                name@,
            ),
        decreases at,
    {
        if at >= classes.len() {
            return None;
        }
        assert(class_views(classes@)[at as int] == classes@[at as int]@);
        match classes[at].methods.get(name) {
            Some(m) => {
                return match m {
                    Object::Func(Callable::Runtime(f)) => Some(*f),
                    _ => None,
                };
            },
            None => match classes[at].parent {
                Some(p) => {
                    at = p;
                },
                None => {
                    return None;
                },
            },
        }
    }
}

} // verus!
