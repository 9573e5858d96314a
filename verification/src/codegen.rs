//! Lifting the code of a module into another representation.

use vstd::prelude::*;

verus! {

/// Why code could not be lifted.
#[derive(Debug, Clone, Copy, PartialEq, Eq)]
pub enum LiftError {
    /// The code at the offset is not supported.
    Unsupported,
}

/// The state of lifting a module: where the code comes from, and the module
/// that the lifted code goes to.
pub struct Codegen<'a, I, O> {
    pub input: I,
    pub output: &'a mut O,
}

impl<'a, I, O> Codegen<'a, I, O> {
    /// Starts lifting from `input` into `output`.
    pub fn new(input: I, output: &'a mut O) -> (r: Self)
        ensures
            r.input == input,
            *r.output == *old(output),
            *final(r.output) == *final(output),
    {
        Self { input, output }
    }

    /// Lifts the code at `_offset`. Nothing is lifted so far: the call
    /// succeeds and leaves input and output as they are.
    pub fn lift(&mut self, _offset: usize) -> (r: Result<(), LiftError>)
        ensures
            r is Ok,
            *final(self) == *old(self),
    {
        Ok(())
    }
}

} // verus!
