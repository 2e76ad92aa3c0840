//! Options and input checks for writing Arrow IPC files.
use vstd::prelude::*;
use crate::error::RelayError;

verus! {

/// Compression codec for IPC files.
#[derive(Debug, Clone, Copy, PartialEq, Eq, Structural)]
pub enum IPCCompression {
    Zstd,
    Lz4,
}

/// Options for writing IPC files.
#[derive(Debug, Clone, Copy, PartialEq, Eq, Structural)]
pub struct IPCWriteOptions {
    /// Enable compression (zstd or lz4).
    pub compression: Option<IPCCompression>,
    /// Write batch metadata inline or in footer.
    pub inline_metadata: bool,
}

impl Default for IPCWriteOptions {
    fn default() -> (r: Self)
        ensures
            r.compression is None,
            r.inline_metadata,
    {
        IPCWriteOptions { compression: None, inline_metadata: true }
    }
}

/// Message for a write request without batches.
pub open spec fn no_batches_text() -> Seq<char> {
    "cannot write IPC file with no batches"@
}

/// The first batch, after the first one, whose schema differs from the first
/// batch's; `same_as_first[i]` tells whether batch `i` has the first schema.
pub open spec fn is_first_mismatch(same_as_first: Seq<bool>, i: int) -> bool {
    &&& 1 <= i < same_as_first.len()
    &&& !same_as_first[i]
    &&& forall|j: int| 1 <= j < i ==> same_as_first[j]
}

/// Checks a write request of `same_as_first.len()` batches: there must be at
/// least one, and all must share the first batch's schema. On a mismatch the
/// position of the first differing batch is returned.
pub fn check_ipc_batches(same_as_first: &[bool]) -> (r: Result<(), Result<usize, RelayError>>)
    ensures
        same_as_first@.len() == 0 ==> (r matches Err(Err(RelayError::Schema(m))) && m@
            == no_batches_text()),
        same_as_first@.len() > 0 ==> match r {
            Ok(()) => forall|j: int| 1 <= j < same_as_first@.len() ==> same_as_first@[j],
            Err(Ok(i)) => is_first_mismatch(same_as_first@, i as int),
            Err(Err(_)) => false,
        },
{
    if same_as_first.len() == 0 {
        return Err(Err(RelayError::Schema(String::from_str("cannot write IPC file with no batches"))));
    }
    let mut i: usize = 1;
    while i < same_as_first.len()
        invariant
            1 <= i <= same_as_first@.len(),
            forall|j: int| 1 <= j < i ==> same_as_first@[j],
        decreases same_as_first@.len() - i,
    {
        if !same_as_first[i] {
            return Err(Ok(i));
        }
        i += 1;
    }
    Ok(())
}

} // verus!
