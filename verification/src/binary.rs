//! The binary sniff: a file is taken for binary when it holds a null byte.

use vstd::prelude::*;

verus! {

/// Whether `buf` holds at least one null byte.
pub open spec fn has_null_byte(buf: Seq<u8>) -> bool {
    exists|i: int| 0 <= i < buf.len() && buf[i] == 0u8
}

/// Tells whether the content is likely binary, that is, whether it holds a null byte.
pub fn is_likely_binary(buf: &[u8]) -> (binary: bool)
    ensures
        binary == has_null_byte(buf@),
{
    let mut i: usize = 0;
    while i < buf.len()
        invariant
            i <= buf.len(),
            forall|j: int| 0 <= j < i ==> buf@[j] != 0u8,
        decreases buf.len() - i,
    {
        if buf[i] == 0 {
            return true;
        }
        i += 1;
    }
    false
}

} // verus!
