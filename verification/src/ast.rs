//! Settings of structural search.
use vstd::prelude::*;

verus! {

/// How closely a pattern has to match.
#[derive(Debug, Clone, Copy, PartialEq, Eq, Structural)]
pub enum AstMatchStrictness {
    Cst,
    Smart,
    Ast,
    Relaxed,
    Signature,
    Template,
}

/// The strictness of a search; smart where none is asked for.
pub fn resolve_strictness(value: Option<AstMatchStrictness>) -> (r: AstMatchStrictness)
    ensures
        r == (match value {
            Some(v) => v,
            None => AstMatchStrictness::Smart,
        }),
{
    match value {
        Some(v) => v,
        None => AstMatchStrictness::Smart,
    }
}

} // verus!
