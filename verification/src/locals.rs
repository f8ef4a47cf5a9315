//! The resolver's side table: for each variable reference that was found in
//! some scope, how many scopes lie between the reference and that scope.
//!
//! The table is indexed by the reference's node index, so it holds at most
//! one depth for each node.

use vstd::prelude::*;

verus! {

pub struct Locals {
    pub depths: Vec<Option<usize>>,
}

impl View for Locals {
    type V = Map<usize, usize>;

    open spec fn view(&self) -> Map<usize, usize> {
        Map::new(
            |e: usize| e < self.depths@.len() && self.depths@[e as int] is Some,
            |e: usize| self.depths@[e as int]->0,
        )
    }
}

impl Locals {
    pub fn new() -> (l: Self)
        ensures
            l@ == Map::<usize, usize>::empty(),
    {
        let l = Locals { depths: Vec::new() };
        assert(l@ =~= Map::<usize, usize>::empty());
        l
    }

    /// The depth recorded for the node `expr`, if one was.
    pub fn get(&self, expr: usize) -> (r: Option<usize>)
        ensures
            r == (if self@.contains_key(expr) {
                Some(self@[expr])
            } else {
                None
            }),
    {
        if expr < self.depths.len() {
            self.depths[expr]
        } else {
            None
        }
    }

    /// Records `depth` for the node `expr`.
    pub fn resolve(&mut self, expr: usize, depth: usize)
        requires
            expr < usize::MAX,
        ensures
            final(self)@ == old(self)@.insert(expr, depth),
    {
        while self.depths.len() <= expr
            invariant
                self@ == old(self)@,
                old(self).depths@.len() <= self.depths@.len(),
            decreases expr + 1 - self.depths@.len(),
        {
            let ghost before = self@;
            self.depths.push(None);
            assert(self@ =~= before);
        }
        let ghost before = self@;
        self.depths[expr] = Some(depth);
        assert(self@ =~= before.insert(expr, depth));
    }
}

/// The side table is a function: a node has at most one depth.
pub proof fn law_side_table_is_a_function(l: Locals, expr: usize, d1: usize, d2: usize)
    requires
        l@.contains_pair(expr, d1),
        l@.contains_pair(expr, d2),
    ensures
        d1 == d2,
{
}

} // verus!
