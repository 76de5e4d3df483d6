//! Conversions from byte strings to arrays of a fixed length.

use vstd::prelude::*;
use crate::errors::Error;

verus! {

/// The 32 bytes of `raw` as an array; `InvalidU8Length` with the length
/// found when `raw` is not 32 bytes long.
pub fn convert_u8_to_u832(raw: &[u8]) -> (r: Result<[u8; 32], Error>)
    ensures
        raw@.len() == 32 ==> r is Ok && r->Ok_0@ == raw@,
        raw@.len() != 32 ==> r == Err::<[u8; 32], Error>(Error::InvalidU8Length(raw.len())),
{
    if raw.len() != 32 {
        return Err(Error::InvalidU8Length(raw.len()));
    }
    let mut out = [0u8; 32];
    let mut i: usize = 0;
    while i < 32
        invariant
            i <= 32,
            raw@.len() == 32,
            forall|j: int| 0 <= j < i ==> out@[j] == raw@[j],
        decreases 32 - i,
    {
        out[i] = raw[i];
        i += 1;
    }
    assert(out@ =~= raw@);
    Ok(out)
}

/// The 64 bytes of `raw` as an array; `InvalidU8Length` with the length
/// found when `raw` is not 64 bytes long.
pub fn convert_u8_to_u864(raw: &[u8]) -> (r: Result<[u8; 64], Error>)
    ensures
        raw@.len() == 64 ==> r is Ok && r->Ok_0@ == raw@,
        raw@.len() != 64 ==> r == Err::<[u8; 64], Error>(Error::InvalidU8Length(raw.len())),
{
    if raw.len() != 64 {
        return Err(Error::InvalidU8Length(raw.len()));
    }
    let mut out = [0u8; 64];
    let mut i: usize = 0;
    while i < 64
        invariant
            i <= 64,
            raw@.len() == 64,
            forall|j: int| 0 <= j < i ==> out@[j] == raw@[j],
        decreases 64 - i,
    {
        out[i] = raw[i];
        i += 1;
    }
    assert(out@ =~= raw@);
    Ok(out)
}

} // verus!
