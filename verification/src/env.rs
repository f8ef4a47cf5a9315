//! Environments: the chain of frames that variables live in.
//!
//! Frames are kept in one store and named by their index. A frame's parent
//! was always made before it, so walking up a chain ends. Frame 0 is the
//! global frame; every other frame has a parent. A frame stays in the store
//! for as long as the store lives, so a closure can keep naming it.

use vstd::prelude::*;
use crate::error::{ErrorView, RloxError};
use crate::object::{Object, ObjectView};
use crate::table::Table;
use crate::text::{decimal, decimal_spec, joined};
use crate::tokens::{Token, TokenView};

verus! {

pub struct Frame {
    pub parent: Option<usize>,
    pub bindings: Table<Object>,
}

pub struct FrameView {
    pub parent: Option<usize>,
    pub bindings: Map<Seq<char>, ObjectView>,
}

impl View for Frame {
    type V = FrameView;

    open spec fn view(&self) -> FrameView {
        FrameView { parent: self.parent, bindings: self.bindings@ }
    }
}

pub struct Env {
    pub frames: Vec<Frame>,
}

pub struct EnvView {
    pub frames: Seq<FrameView>,
}

impl View for Env {
    type V = EnvView;

    open spec fn view(&self) -> EnvView {
        EnvView { frames: Seq::new(self.frames@.len(), |i: int| self.frames@[i]@) }
    }
}

/// The error for a chain that is shorter than a recorded depth.
pub open spec fn no_ancestor(id: TokenView, dist: usize) -> ErrorView {
    ErrorView::Runtime(
        id.line,
        "Ancestor is undefined at depth "@ + decimal_spec(dist as nat),
        id.lexeme,
    )
}

/// The error for a name that is not bound where it was looked for.
pub open spec fn undefined(id: TokenView) -> ErrorView {
    ErrorView::Runtime(id.line, "Undefined variable "@ + id.lexeme, id.lexeme)
}

impl EnvView {
    /// The store holding the global frame and nothing else.
    pub open spec fn start() -> EnvView {
        EnvView { frames: seq![FrameView { parent: None, bindings: Map::empty() }] }
    }

    /// Frame 0 has no parent; every other frame has one, made before it.
    pub open spec fn wf(self) -> bool {
        &&& self.frames.len() >= 1
        &&& self.frames[0].parent is None
        &&& forall|i: int|
            1 <= i < self.frames.len() ==> ((#[trigger] self.frames[i]).parent matches Some(p)
                && p < i)
    }

    pub open spec fn has(self, frame: usize) -> bool {
        frame < self.frames.len()
    }

    /// The store with a new, empty frame under `parent`, and its index.
    pub open spec fn push_frame(self, parent: usize) -> (EnvView, usize) {
        (
            EnvView {
                frames: self.frames.push(FrameView { parent: Some(parent), bindings: Map::empty() }),
            },
            self.frames.len() as usize,
        )
    }

    /// The store in which `frame` binds `name` to `val`, whatever it bound
    /// it to before.
    pub open spec fn define(self, frame: usize, name: Seq<char>, val: ObjectView) -> EnvView {
        EnvView {
            frames: self.frames.update(
                frame as int,
                FrameView {
                    bindings: self.frames[frame as int].bindings.insert(name, val),
                    ..self.frames[frame as int]
                },
            ),
        }
    }

    /// The frame `dist` parents up from `frame`, if the chain is that long.
    pub open spec fn ancestor(self, frame: usize, dist: nat) -> Option<usize>
        decreases dist,
    {
        if !self.has(frame) {
            None
        } else if dist == 0 {
            Some(frame)
        } else {
            match self.frames[frame as int].parent {
                Some(p) => self.ancestor(p, (dist - 1) as nat),
                None => None,
            }
        }
    }

    /// The outermost frame of the chain that `frame` is in.
    pub open spec fn root(self, frame: usize) -> usize
        decreases frame,
    {
        match self.frames[frame as int].parent {
            Some(p) => if self.has(frame) && p < frame {
                self.root(p)
            } else {
                frame
            },
            None => frame,
        }
    }

    /// The frame that a reference resolved at `dist` speaks of: the frame
    /// that many parents up, or the outermost frame where no depth was
    /// recorded.
    pub open spec fn target(self, frame: usize, dist: Option<usize>) -> Option<usize> {
        match dist {
            None => Some(self.root(frame)),
            Some(d) => self.ancestor(frame, d as nat),
        }
    }

    /// The nearest frame, from `frame` outwards, that binds `name`.
    pub open spec fn lookup(self, frame: usize, name: Seq<char>) -> Option<usize>
        decreases frame,
    {
        if !self.has(frame) {
            None
        } else if self.frames[frame as int].bindings.contains_key(name) {
            Some(frame)
        } else {
            match self.frames[frame as int].parent {
                Some(p) => if p < frame {
                    self.lookup(p, name)
                } else {
                    None
                },
                None => None,
            }
        }
    }

    /// Reading the variable `id` from the nearest frame that binds it.
    pub open spec fn get(self, frame: usize, id: TokenView) -> Result<ObjectView, ErrorView> {
        match self.lookup(frame, id.lexeme) {
            Some(f) => Ok(self.frames[f as int].bindings[id.lexeme]),
            None => Err(undefined(id)),
        }
    }

    /// Writing `val` to the variable `id` in the nearest frame that binds
    /// it.
    pub open spec fn assign(self, frame: usize, id: TokenView, val: ObjectView) -> (
        EnvView,
        Result<ObjectView, ErrorView>,
    ) {
        match self.lookup(frame, id.lexeme) {
            Some(f) => (self.define(f, id.lexeme, val), Ok(val)),
            None => (self, Err(undefined(id))),
        }
    }

    /// Reading the variable `id` from `frame` at depth `dist`.
    pub open spec fn get_at(self, frame: usize, id: TokenView, dist: Option<usize>) -> Result<
        ObjectView,
        ErrorView,
    > {
        match self.target(frame, dist) {
            None => Err(no_ancestor(id, dist->0)),
            Some(f) => if self.frames[f as int].bindings.contains_key(id.lexeme) {
                Ok(self.frames[f as int].bindings[id.lexeme])
            } else {
                Err(undefined(id))
            },
        }
    }

    /// Writing `val` to the variable `id` from `frame` at depth `dist`: the
    /// binding must exist, and it alone changes.
    pub open spec fn assign_at(
        self,
        frame: usize,
        id: TokenView,
        val: ObjectView,
        dist: Option<usize>,
    ) -> (EnvView, Result<ObjectView, ErrorView>) {
        match self.target(frame, dist) {
            None => (self, Err(no_ancestor(id, dist->0))),
            Some(f) => if self.frames[f as int].bindings.contains_key(id.lexeme) {
                (self.define(f, id.lexeme, val), Ok(val))
            } else {
                (self, Err(undefined(id)))
            },
        }
    }
}

/// In a well-formed store every chain ends at the global frame, and the
/// frames along it are in the store.
pub proof fn lemma_root(env: EnvView, frame: usize)
    requires
        env.wf(),
        env.has(frame),
    ensures
        env.root(frame) == 0,
    decreases frame,
{
    if frame != 0 {
        lemma_root(env, env.frames[frame as int].parent->0);
    }
}

pub proof fn lemma_ancestor(env: EnvView, frame: usize, dist: nat)
    requires
        env.wf(),
        env.has(frame),
    ensures
        env.ancestor(frame, dist) matches Some(f) ==> (env.has(f) && f <= frame),
    decreases dist,
{
    if dist > 0 && frame != 0 {
        lemma_ancestor(env, env.frames[frame as int].parent->0, (dist - 1) as nat);
    }
}

impl Env {
    /// The store is well formed and so is every frame's table.
    pub open spec fn wf(&self) -> bool {
        &&& self@.wf()
        &&& forall|i: int| 0 <= i < self.frames@.len() ==> (#[trigger] self.frames@[i]).bindings.wf()
    }

    /// A store holding the global frame.
    pub fn new() -> (env: Self)
        ensures
            env.wf(),
            env@ == EnvView::start(),
    {
        let mut frames: Vec<Frame> = Vec::new();
        frames.push(Frame { parent: None, bindings: Table::new() });
        let env = Env { frames };
        assert(env@.frames =~= EnvView::start().frames);
        env
    }

    /// Makes an empty frame under `parent`.
    pub fn from(&mut self, parent: usize) -> (id: usize)
        requires
            old(self).wf(),
            old(self)@.has(parent),
        ensures
            final(self).wf(),
            (final(self)@, id) == old(self)@.push_frame(parent),
            id == old(self)@.frames.len(),
    {
        let id = self.frames.len();
        self.frames.push(Frame { parent: Some(parent), bindings: Table::new() });
        assert(self@.frames =~= old(self)@.push_frame(parent).0.frames);
        assert forall|i: int| 1 <= i < self@.frames.len() implies ((
        #[trigger] self@.frames[i]).parent matches Some(p) && p < i) by {
            if i < id {
                assert(self@.frames[i] == old(self)@.frames[i]);
            }
        }
        id
    }

    /// Binds `id`'s name to `val` in `frame`, whether or not it was bound.
    pub fn define(&mut self, frame: usize, id: &Token, val: Object)
        requires
            old(self).wf(),
            old(self)@.has(frame),
        ensures
            final(self).wf(),
            final(self)@ == old(self)@.define(frame, id@.lexeme, val@),
    {
        self.frames[frame].bindings.insert(&id.lexeme, val);
        proof {
            assert(self@.frames =~= old(self)@.define(frame, id@.lexeme, val@).frames);
            assert forall|i: int| 1 <= i < self@.frames.len() implies ((
            #[trigger] self@.frames[i]).parent matches Some(p) && p < i) by {
                assert(self@.frames[i].parent == old(self)@.frames[i].parent);
            }
        }
    }

    pub fn ancestor(&self, frame: usize, dist: usize) -> (r: Option<usize>)
        requires
            self.wf(),
            self@.has(frame),
        ensures
            r == self@.ancestor(frame, dist as nat),
            r matches Some(f) ==> self@.has(f),
    {
        let mut at = frame;
        let mut left = dist;
        while left > 0
            invariant
                self.wf(),
                self@.has(at),
                self@.ancestor(frame, dist as nat) == self@.ancestor(at, left as nat),
            decreases left,
        {
            match self.frames[at].parent {
                Some(p) => {
                    assert(self@.frames[at as int].parent == Some(p));
                    at = p;
                    left -= 1;
                },
                None => {
                    assert(self@.frames[at as int].parent is None);
                    return None;
                },
            }
        }
        Some(at)
    }

    /// The outermost frame of the chain that `frame` is in.
    pub fn get_global(&self, frame: usize) -> (r: usize)
        requires
            self.wf(),
            self@.has(frame),
        ensures
            r == self@.root(frame),
            self@.has(r),
    {
        let mut at = frame;
        loop
            invariant
                self.wf(),
                self@.has(at),
                self@.root(frame) == self@.root(at),
            decreases at,
        {
            match self.frames[at].parent {
                Some(p) => {
                    assert(self@.frames[at as int].parent == Some(p));
                    at = p;
                },
                None => {
                    assert(self@.frames[at as int].parent is None);
                    return at;
                },
            }
        }
    }

    /// The nearest frame, from `frame` outwards, that binds `name`.
    fn lookup(&self, frame: usize, name: &String) -> (r: Option<usize>)
        requires
            self.wf(),
            self@.has(frame),
        ensures
            r == self@.lookup(frame, name@),
            r matches Some(f) ==> self@.has(f) && self@.frames[f as int].bindings.contains_key(name@),
    {
        let mut at = frame;
        loop
            invariant
                self.wf(),
                self@.has(at),
                self@.lookup(frame, name@) == self@.lookup(at, name@),
            decreases at,
        {
            assert(self@.frames[at as int] == self.frames@[at as int]@);
            if self.frames[at].bindings.contains_key(name) {
                return Some(at);
            }
            match self.frames[at].parent {
                Some(p) => {
                    at = p;
                },
                None => {
                    return None;
                },
            }
        }
    }

    /// Reads the variable `id` from the nearest frame, from `frame`
    /// outwards, that binds it.
    pub fn get(&self, frame: usize, id: &Token) -> (r: Result<Object, RloxError>)
        requires
            self.wf(),
            self@.has(frame),
        ensures
            crate::error::result_view(r) == self@.get(frame, id@),
    {
        match self.lookup(frame, &id.lexeme) {
            Some(f) => match self.frames[f].bindings.get(&id.lexeme) {
                Some(v) => Ok(v.clone()),
                None => Err(Env::undefined(id)),
            },
            None => Err(Env::undefined(id)),
        }
    }

    /// Writes `val` to the variable `id` in the nearest frame, from `frame`
    /// outwards, that binds it.
    pub fn assign(&mut self, frame: usize, id: &Token, val: Object) -> (r: Result<Object, RloxError>)
        requires
            old(self).wf(),
            old(self)@.has(frame),
        ensures
            final(self).wf(),
            (final(self)@, crate::error::result_view(r)) == old(self)@.assign(frame, id@, val@),
    {
        match self.lookup(frame, &id.lexeme) {
            Some(f) => {
                let kept = val.clone();
                self.define(f, id, val);
                Ok(kept)
            },
            None => Err(Env::undefined(id)),
        }
    }

    fn target(&self, frame: usize, dist: Option<usize>) -> (r: Option<usize>)
        requires
            self.wf(),
            self@.has(frame),
        ensures
            r == self@.target(frame, dist),
            r matches Some(f) ==> self@.has(f),
    {
        match dist {
            None => Some(self.get_global(frame)),
            Some(d) => self.ancestor(frame, d),
        }
    }

    fn no_ancestor(id: &Token, dist: usize) -> (e: RloxError)
        ensures
            e@ == no_ancestor(id@, dist),
    {
        let depth = decimal(dist);
        RloxError::Runtime(
            id.line,
            joined("Ancestor is undefined at depth ", depth.as_str()),
            id.lexeme.clone(),
        )
    }

    fn undefined(id: &Token) -> (e: RloxError)
        ensures
            e@ == undefined(id@),
    {
        RloxError::Runtime(
            id.line,
            joined("Undefined variable ", id.lexeme.as_str()),
            id.lexeme.clone(),
        )
    }

    /// Reads the variable `id`, seen from `frame`, in the frame `dist`
    /// parents up, or in the global frame where `dist` is absent.
    pub fn get_at(&self, frame: usize, id: &Token, dist: Option<usize>) -> (r: Result<
        Object,
        RloxError,
    >)
        requires
            self.wf(),
            self@.has(frame),
        ensures
            crate::error::result_view(r) == self@.get_at(frame, id@, dist),
    {
        match self.target(frame, dist) {
            None => match dist {
                Some(d) => Err(Env::no_ancestor(id, d)),
                None => Err(Env::undefined(id)),
            },
            Some(f) => match self.frames[f].bindings.get(&id.lexeme) {
                Some(v) => Ok(v.clone()),
                None => Err(Env::undefined(id)),
            },
        }
    }

    /// Writes `val` to the variable `id`, seen from `frame`, in the frame
    /// `dist` parents up, or in the global frame where `dist` is absent.
    pub fn assign_at(&mut self, frame: usize, id: &Token, val: Object, dist: Option<usize>) -> (r:
        Result<Object, RloxError>)
        requires
            old(self).wf(),
            old(self)@.has(frame),
        ensures
            final(self).wf(),
            (final(self)@, crate::error::result_view(r)) == old(self)@.assign_at(
                frame,
                id@,
                val@,
                dist,
            ),
    {
        match self.target(frame, dist) {
            None => match dist {
                Some(d) => Err(Env::no_ancestor(id, d)),
                None => Err(Env::undefined(id)),
            },
            Some(f) => if self.frames[f].bindings.contains_key(&id.lexeme) {
                let kept = val.clone();
                self.define(f, id, val);
                Ok(kept)
            } else {
                Err(Env::undefined(id))
            },
        }
    }
}

} // verus!
