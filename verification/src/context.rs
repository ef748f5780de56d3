//! The pair handed to a command's action: the bound parameters of one
//! dispatch and the application context.
use vstd::prelude::*;

use crate::parameters::Parameters;

verus! {

/// Bound parameters plus the application context, owned together for the
/// duration of one handler call.
pub struct FnContext<C> {
    parameters: Parameters,
    context: C,
}

impl<C> FnContext<C> {
    /// The bound parameters.
    pub closed spec fn spec_parameters(&self) -> Parameters {
        self.parameters
    }

    /// The application context.
    pub closed spec fn spec_ctx(&self) -> C {
        self.context
    }

    /// Pairs one dispatch's parameters with the application context.
    pub fn new(parameters: Parameters, context: C) -> (r: Self)
        ensures
            r.spec_parameters() == parameters,
            r.spec_ctx() == context,
    {
        FnContext { parameters, context }
    }

    /// The bound parameters.
    pub fn args(&self) -> (r: &Parameters)
        ensures
            *r == self.spec_parameters(),
    {
        &self.parameters
    }

    /// Reads the application context.
    pub fn ctx(&self) -> (r: &C)
        ensures
            *r == self.spec_ctx(),
    {
        &self.context
    }

    /// Exclusive access to the application context.
    pub fn ctx_mut(&mut self) -> (r: &mut C)
        ensures
            *r == old(self).spec_ctx(),
            final(self).spec_ctx() == *final(r),
            final(self).spec_parameters() == old(self).spec_parameters(),
    {
        &mut self.context
    }
}

} // verus!
