pub mod foreign;
pub mod search;
pub mod store;
pub mod text;

use vstd::prelude::*;

verus! {

/// True when `data` counts as binary content: a zero byte occurs among its
/// first 8192 bytes.
pub open spec fn spec_is_binary(data: Seq<u8>) -> bool {
    exists|i: int| 0 <= i < data.len() && i < 8192 && data[i] == 0
}

/// Classifies `data` as binary when a zero byte occurs among its first 8192
/// bytes.
pub fn is_binary(data: &Vec<u8>) -> (r: bool)
    ensures
        r == spec_is_binary(data@),
{
    let limit: usize = if data.len() < 8192 {
        data.len()
    } else {
        8192
    };
    let mut i: usize = 0;
    while i < limit
        invariant
            i <= limit,
            limit <= data.len(),
            limit <= 8192,
            data.len() >= 8192 ==> limit == 8192,
            data.len() < 8192 ==> limit == data.len(),
            forall|j: int| 0 <= j < i ==> data@[j] != 0,
        decreases limit - i,
    {
        if data[i] == 0 {
            return true;
        }
        i += 1;
    }
    false
}

} // verus!
