use crate::pass::{ErasedPass, Pass};
use vstd::prelude::*;

verus! {

/// An ordered, append-only collection of type-erased passes sharing one
/// configuration type. Insertion order is execution order.
#[verifier::reject_recursive_types(Config)]
pub struct Pipeline<Config> {
    pub passes: Vec<Box<dyn ErasedPass<Config>>>,
}

impl<Config> Pipeline<Config> {
    /// An empty pipeline.
    pub fn new() -> (r: Self)
        ensures
            r.passes@.len() == 0,
    {
        Pipeline { passes: Vec::new() }
    }

    /// Append a pass; it runs after every pass already added. The trusted
    /// `push_pass` pins the appended element as the boxed pass; the boxed
    /// value has no name in this signature, so the clauses here state the
    /// growth and the preserved prefix. Nothing is returned: a returned
    /// `&mut self` for call chaining could not carry this postcondition.
    pub fn add_pass<P: Pass<Config = Config> + 'static>(&mut self, pass: P)
        ensures
            final(self).passes@.len() == old(self).passes@.len() + 1,
            forall|i: int|
                0 <= i < old(self).passes@.len() ==> final(self).passes@[i]
                    == old(self).passes@[i],
    {
        let boxed: Box<dyn ErasedPass<Config>> = Box::new(pass);
        push_pass(&mut self.passes, boxed);
    }

    /// The passes, in execution order.
    pub fn passes(&self) -> (r: &Vec<Box<dyn ErasedPass<Config>>>)
        ensures
            r == &self.passes,
    {
        &self.passes
    }

    /// How many passes the pipeline holds.
    pub fn len(&self) -> (r: usize)
        ensures
            r == self.passes@.len(),
    {
        self.passes.len()
    }

    /// True when the pipeline holds no pass.
    pub fn is_empty(&self) -> (r: bool)
        ensures
            r == (self.passes@.len() == 0),
    {
        self.passes.len() == 0
    }
}

/// Relies on std's Vec::push: the new list is the old one with the given
/// element appended. The verifier's own push specification does not
/// instantiate for a boxed trait object element, so the one call stands
/// behind this wrapper; the length and prefix clauses restate what the first
/// clause implies, in a form the solver can use for such an element.
#[verifier::external_body]
fn push_pass<Config>(
    passes: &mut Vec<Box<dyn ErasedPass<Config>>>,
    pass: Box<dyn ErasedPass<Config>>,
)
    ensures
        final(passes)@ == old(passes)@.push(pass),
        final(passes)@.len() == old(passes)@.len() + 1,
        forall|i: int| 0 <= i < old(passes)@.len() ==> final(passes)@[i] == old(passes)@[i],
{
    passes.push(pass);
}

impl<Config> Default for Pipeline<Config> {
    /// An empty pipeline.
    fn default() -> (r: Self)
        ensures
            r.passes@.len() == 0,
    {
        Pipeline::new()
    }
}

} // verus!
