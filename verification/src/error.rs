use vstd::prelude::*;

verus! {

/// Error raised when a statement matches no form of the invocation grammar.
#[derive(Clone, Copy, Debug, PartialEq, Eq, Structural)]
pub enum ParseError {
    Syntax,
}

/// The invocation kind that was incompatible with the shape of the alias
/// value it was resolved against, one variant per offending pairing.
#[derive(Clone, Copy, Debug, PartialEq, Eq, Structural)]
pub enum KindMismatch {
    DeclarativeOnMap,
    ImperativeOnMap,
    ScopedOnNonMap,
    IndexicalOnNonList,
    SelectiveOnNonMap,
}

/// Error raised while resolving an invocation against an alias dictionary.
/// Every variant is fatal to the resolution run: no partial command list is
/// ever produced.
#[derive(Clone, Copy, Debug, PartialEq, Eq, Structural)]
pub enum ResolveError {
    /// No alias with the requested name exists at the current level.
    Lookup,
    /// The invocation kind is incompatible with the alias value's shape.
    KindMismatch(KindMismatch),
}

impl ParseError {
    pub fn message(&self) -> (r: String)
        ensures
            r@ == "invalid invocation syntax"@,
    {
        String::from_str("invalid invocation syntax")
    }
}

impl ResolveError {
    pub fn message(&self) -> (r: String)
        ensures
            (match self {
                ResolveError::Lookup => r@ == "alias not found"@,
                ResolveError::KindMismatch(m) => match m {
                    KindMismatch::DeclarativeOnMap => r@
                        == "cannot invoke map alias declaratively"@,
                    KindMismatch::ImperativeOnMap => r@ == "cannot invoke map alias imperatively"@,
                    KindMismatch::ScopedOnNonMap => r@
                        == "only map aliases can be invoked with a scope"@,
                    KindMismatch::IndexicalOnNonList => r@ == "only list aliases can be indexed"@,
                    KindMismatch::SelectiveOnNonMap => r@
                        == "only map aliases can be invoked selectively"@,
                },
            }),
    {
        match self {
            ResolveError::Lookup => String::from_str("alias not found"),
            ResolveError::KindMismatch(m) => match m {
                KindMismatch::DeclarativeOnMap => String::from_str(
                    "cannot invoke map alias declaratively",
                ),
                KindMismatch::ImperativeOnMap => String::from_str(
                    "cannot invoke map alias imperatively",
                ),
                KindMismatch::ScopedOnNonMap => String::from_str(
                    "only map aliases can be invoked with a scope",
                ),
                KindMismatch::IndexicalOnNonList => String::from_str(
                    "only list aliases can be indexed",
                ),
                KindMismatch::SelectiveOnNonMap => String::from_str(
                    "only map aliases can be invoked selectively",
                ),
            },
        }
    }
}

} // verus!
