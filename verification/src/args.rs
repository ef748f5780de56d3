//! Declared command parameters: a name plus a flag that marks the parameter
//! as satisfied by its flag's presence alone.
use vstd::prelude::*;

verus! {

/// Spec-level image of an [`Arg`].
pub struct ArgView {
    pub name: Seq<char>,
    pub standalone: bool,
}

/// A parameter declared on a leaf command: a name, and whether the flag's
/// presence alone satisfies it (no value required).
#[derive(Debug)]
pub struct Arg {
    standalone: bool,
    name: String,
}

impl View for Arg {
    type V = ArgView;

    closed spec fn view(&self) -> ArgView {
        ArgView { name: self.name@, standalone: self.standalone }
    }
}

impl DeepView for Arg {
    type V = ArgView;

    open spec fn deep_view(&self) -> ArgView {
        self.view()
    }
}

impl Arg {
    /// Declares a parameter.
    pub fn new(name: String, standalone: bool) -> (r: Self)
        ensures
            r@.name == name@,
            r@.standalone == standalone,
    {
        Arg { name, standalone }
    }

    /// The parameter's name.
    pub fn name(&self) -> (r: &String)
        ensures
            r@ == self@.name,
    {
        &self.name
    }

    /// Whether the flag's presence alone satisfies the parameter.
    pub fn is_standalone(&self) -> (r: bool)
        ensures
            r == self@.standalone,
    {
        self.standalone
    }
}

} // verus!
