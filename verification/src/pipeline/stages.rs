use vstd::prelude::*;

verus! {

/// The kind of payload that a block of data carries between stages.
#[derive(Debug, Clone, Copy, PartialEq, Eq, Hash, Structural)]
pub enum DataKind {
    /// No payload.
    Empty,
    /// Real samples.
    F64,
    /// Complex samples.
    ComplexF64,
}

impl Default for DataKind {
    fn default() -> (kind: DataKind)
        ensures
            kind == DataKind::Empty,
    {
        DataKind::Empty
    }
}

} // verus!
