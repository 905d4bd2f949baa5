//! The typing context: the parameter types of the binders in scope.

use std::collections::VecDeque;
use vstd::prelude::*;
use crate::simply_typed_lambda::typing::Type;

verus! {

/// The types of the enclosing binders, most recent first, so that the
/// position of a type is the de Bruijn index of its variable.
#[derive(Debug)]
pub struct Context {
    inner: VecDeque<Type>,
}

impl View for Context {
    type V = Seq<Type>;

    closed spec fn view(&self) -> Seq<Type> {
        self.inner@
    }
}

impl Context {
    /// The context with no binder in scope.
    pub fn new() -> (r: Self)
        ensures
            r@ == Seq::<Type>::empty(),
    {
        Context { inner: VecDeque::new() }
    }

    /// Brings a binder of type `ty` into scope at index 0.
    pub fn push(&mut self, ty: Type)
        ensures
            final(self)@ == seq![ty] + old(self)@,
    {
        self.inner.push_front(ty);
    }

    /// Takes the most recent binder out of scope. An empty context stays
    /// empty.
    pub fn pop(&mut self)
        ensures
            old(self)@.len() > 0 ==> final(self)@ == old(self)@.drop_first(),
            old(self)@.len() == 0 ==> final(self)@ == old(self)@,
    {
        let _ = self.inner.pop_front();
    }

    /// The number of binders in scope.
    pub fn len(&self) -> (r: usize)
        ensures
            r == self@.len(),
    {
        broadcast use vstd::std_specs::vecdeque::group_vec_dequeue_axioms;

        self.inner.len()
    }

    /// The type of the variable with de Bruijn index `index`.
    pub fn get(&self, index: usize) -> (r: Type)
        requires
            index < self@.len(),
        ensures
            r == self@[index as int],
    {
        broadcast use vstd::std_specs::vecdeque::group_vec_dequeue_axioms;

        self.inner[index].clone()
    }
}

} // verus!
