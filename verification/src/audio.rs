//! Loading the audio payload into a buffer of one byte per pixel.

use vstd::prelude::*;
use vstd::slice::slice_to_vec;
use crate::error::PipelineError;

verus! {

/// `audio` followed by zeros, `capacity` bytes in all.
pub open spec fn padded(audio: Seq<u8>, capacity: nat) -> Seq<u8> {
    Seq::new(capacity, |i: int| if i < audio.len() { audio[i] } else { 0u8 })
}

/// Copies the audio into a zero-filled buffer of `capacity` bytes.
///
/// The audio is not interpreted. Audio longer than `capacity` is refused, not
/// truncated.
pub fn load_audio(file_bytes: &[u8], capacity: usize) -> (result: Result<Vec<u8>, PipelineError>)
    ensures
        match result {
            Ok(buf) => file_bytes@.len() <= capacity && buf@ == padded(file_bytes@, capacity as nat),
            Err(e) => {
                &&& e matches PipelineError::PayloadTooLarge { actual, capacity: room }
                &&& actual == file_bytes@.len()
                &&& room == capacity
                &&& actual > room
            },
        },
{
    if file_bytes.len() > capacity {
        return Err(PipelineError::PayloadTooLarge { actual: file_bytes.len(), capacity });
    }
    let mut buf = slice_to_vec(file_bytes);
    buf.resize(capacity, 0u8);
    assert(buf@ =~= padded(file_bytes@, capacity as nat)) by {
        assert forall|i: int| 0 <= i < capacity implies buf@[i] == padded(
            file_bytes@,
            capacity as nat,
        )[i] by {
            if i < file_bytes@.len() {
                assert(buf@.subrange(0, file_bytes@.len() as int)[i] == file_bytes@[i]);
            }
        }
    }
    Ok(buf)
}

} // verus!
