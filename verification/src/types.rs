use vstd::prelude::*;

verus! {

/// The two kinds of value the language knows: 64-bit signed integers and
/// opaque clock ticks.  There is no subtyping; the two are only ever compared
/// for equality.
#[derive(Clone, Copy, Debug, PartialEq, Eq, Structural)]
pub enum Type {
    Int,
    Time,
}

} // verus!
