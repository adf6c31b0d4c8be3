//! Placeholder notification sounds: fixed-length silent buffers handed to
//! the audio layer when a timer phase ends.

use vstd::prelude::*;

verus! {

/// A silent buffer of the given length.
fn silent_buffer(len: usize) -> (r: Vec<u8>)
    ensures
        r@.len() == len,
        forall|i: int| 0 <= i < r@.len() ==> r@[i] == 0u8,
{
    let mut v: Vec<u8> = Vec::new();
    let mut k: usize = 0;
    while k < len
        invariant
            k <= len,
            v@.len() == k,
            forall|i: int| 0 <= i < v@.len() ==> v@[i] == 0u8,
        decreases len - k,
    {
        v.push(0u8);
        k = k + 1;
    }
    v
}

/// The sound played when a work interval completes.
pub fn generate_work_complete_sound() -> (r: Vec<u8>)
    ensures
        r@.len() == 1000,
        forall|i: int| 0 <= i < r@.len() ==> r@[i] == 0u8,
{
    silent_buffer(1000)
}

/// The sound played when a break completes.
pub fn generate_break_complete_sound() -> (r: Vec<u8>)
    ensures
        r@.len() == 1000,
        forall|i: int| 0 <= i < r@.len() ==> r@[i] == 0u8,
{
    silent_buffer(1000)
}

/// The short tick sound.
pub fn generate_tick_sound() -> (r: Vec<u8>)
    ensures
        r@.len() == 100,
        forall|i: int| 0 <= i < r@.len() ==> r@[i] == 0u8,
{
    silent_buffer(100)
}

} // verus!
