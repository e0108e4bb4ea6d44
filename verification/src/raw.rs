//! The raw sound adapter: bytes move in and out of banks verbatim.

use vstd::prelude::*;

use crate::bank::SoundEntry;
use crate::error::Error;

verus! {

/// Import a raw sound file into a bank under construction: the bytes are
/// appended verbatim and only the entry's size is updated; the caller
/// keeps the sample rate. Raw sounds are never flagged as non-mono.
pub fn import_raw(bytes: &Vec<u8>, sentry: &mut SoundEntry, out: &mut Vec<u8>) -> (r: Result<
    bool,
    Error,
>)
    ensures
        r == Ok::<bool, Error>(false),
        final(out)@ == old(out)@ + bytes@,
        *final(sentry) == (SoundEntry { size: bytes@.len() as usize, ..*old(sentry) }),
{
    sentry.size = bytes.len();
    out.extend_from_slice(bytes.as_slice());
    Ok(false)
}

} // verus!
