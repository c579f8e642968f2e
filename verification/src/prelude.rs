use vstd::prelude::*;

verus! {

/// Fallible conversion from a source value, used for every parsing step of
/// the pipeline: statements into invocations, config entries into aliases,
/// and an invocation plus a dictionary into commands.
pub trait TryParseFrom<T>: Sized {
    type Error;

    fn try_parse_from(value: T) -> Result<Self, Self::Error>;
}

/// In-place positional substitution of arguments into a value.
pub trait Process {
    fn process(&mut self, args: &Vec<String>);
}

} // verus!
