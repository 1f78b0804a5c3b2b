//! Merging the audio bytes with the mask planes.

use vstd::prelude::*;
use crate::error::PipelineError;
use crate::mask::{is_partition, one_plane_active, planes_of};

verus! {

/// The bits of a painted byte that carry audio.
pub const AUDIO_BITS: u8 = 0xFC;

/// The first plane that is non-zero at position `i`, if any.
pub open spec fn active_mask(planes: Seq<Seq<u8>>, i: int) -> Option<u8> {
    if planes[0][i] > 0 {
        Some(0u8)
    } else if planes[1][i] > 0 {
        Some(1u8)
    } else if planes[2][i] > 0 {
        Some(2u8)
    } else if planes[3][i] > 0 {
        Some(3u8)
    } else {
        None
    }
}

/// An audio byte with its low two bits replaced by a mask number.
pub open spec fn painted_byte(audio: u8, mask_idx: u8) -> u8 {
    (audio & 0xFC) | mask_idx
}

/// The painted buffer: every audio byte merged with the number of the plane
/// that is active at its position.
pub open spec fn painted(audio: Seq<u8>, planes: Seq<Seq<u8>>) -> Seq<u8> {
    Seq::new(audio.len(), |i: int| painted_byte(audio[i], active_mask(planes, i).unwrap()))
}

/// `i` is the first position at which no plane is active.
pub open spec fn is_first_uncovered(planes: Seq<Seq<u8>>, n: nat, i: int) -> bool {
    &&& 0 <= i < n
    &&& active_mask(planes, i) is None
    &&& forall|j: int| 0 <= j < i ==> active_mask(planes, j) is Some
}

/// A painted byte keeps the audio's high six bits and holds the mask number
/// in its low two.
pub proof fn lemma_painted_byte(audio: u8, mask_idx: u8)
    requires
        mask_idx < 4,
    ensures
        painted_byte(audio, mask_idx) & 0xFC == audio & 0xFC,
        painted_byte(audio, mask_idx) & 0x03 == mask_idx,
        painted_byte(audio, mask_idx) % 4 == mask_idx,
        painted_byte(audio, mask_idx) / 4 == audio / 4,
        painted_byte(audio, mask_idx) >> 2 == audio >> 2,
        painted_byte(painted_byte(audio, mask_idx), mask_idx) == painted_byte(audio, mask_idx),
{
    assert(((audio & 0xFC) | mask_idx) >> 2 == audio >> 2) by (bit_vector)
        requires
            mask_idx < 4,
    ;
    assert(((((audio & 0xFC) | mask_idx) & 0xFC) | mask_idx) == ((audio & 0xFC) | mask_idx))
        by (bit_vector)
        requires
            mask_idx < 4,
    ;
    assert(((audio & 0xFC) | mask_idx) & 0xFC == audio & 0xFC) by (bit_vector)
        requires
            mask_idx < 4,
    ;
    assert(((audio & 0xFC) | mask_idx) & 0x03 == mask_idx) by (bit_vector)
        requires
            mask_idx < 4,
    ;
    assert(((audio & 0xFC) | mask_idx) % 4 == mask_idx) by (bit_vector)
        requires
            mask_idx < 4,
    ;
    assert(((audio & 0xFC) | mask_idx) / 4 == audio / 4) by (bit_vector)
        requires
            mask_idx < 4,
    ;
}

/// The plane that `active_mask` names is non-zero at that position.
pub proof fn lemma_active_mask(planes: Seq<Seq<u8>>, i: int)
    requires
        active_mask(planes, i) is Some,
    ensures
        active_mask(planes, i).unwrap() < 4,
        planes[active_mask(planes, i).unwrap() as int][i] != 0,
{
}

/// In a painted buffer every byte keeps the high six bits of its audio byte,
/// and its low two bits are the number of a plane that is non-zero at its
/// position: the first such plane.
pub proof fn lemma_painted(audio: Seq<u8>, planes: Seq<Seq<u8>>)
    requires
        forall|i: int| 0 <= i < audio.len() ==> active_mask(planes, i) is Some,
    ensures
        forall|i: int|
            0 <= i < audio.len() ==> {
                &&& #[trigger] painted(audio, planes)[i] & 0xFC == audio[i] & 0xFC
                &&& painted(audio, planes)[i] >> 2 == audio[i] >> 2
                &&& Some(painted(audio, planes)[i] & 0x03) == active_mask(planes, i)
                &&& Some(painted(audio, planes)[i] % 4) == active_mask(planes, i)
                &&& planes[(painted(audio, planes)[i] % 4) as int][i] != 0
            },
{
    assert forall|i: int| 0 <= i < audio.len() implies {
        &&& #[trigger] painted(audio, planes)[i] & 0xFC == audio[i] & 0xFC
        &&& painted(audio, planes)[i] >> 2 == audio[i] >> 2
        &&& Some(painted(audio, planes)[i] & 0x03) == active_mask(planes, i)
        &&& Some(painted(audio, planes)[i] % 4) == active_mask(planes, i)
        &&& planes[(painted(audio, planes)[i] % 4) as int][i] != 0
    } by {
        lemma_active_mask(planes, i);
        lemma_painted_byte(audio[i], active_mask(planes, i).unwrap());
    }
}

/// Painting is idempotent: painting a painted buffer again, with the same
/// planes, changes nothing.
pub proof fn lemma_repainting(audio: Seq<u8>, planes: Seq<Seq<u8>>)
    requires
        forall|i: int| 0 <= i < audio.len() ==> active_mask(planes, i) is Some,
    ensures
        painted(painted(audio, planes), planes) == painted(audio, planes),
{
    let once = painted(audio, planes);
    let twice = painted(once, planes);
    assert forall|i: int| 0 <= i < audio.len() implies twice[i] == once[i] by {
        lemma_active_mask(planes, i);
        lemma_painted_byte(audio[i], active_mask(planes, i).unwrap());
    }
    assert(twice =~= once);
}

/// There is at most one first uncovered position, so the error that painting
/// returns is fixed by the planes.
pub proof fn lemma_first_uncovered_is_unique(planes: Seq<Seq<u8>>, n: nat, i: int, j: int)
    requires
        is_first_uncovered(planes, n, i),
        is_first_uncovered(planes, n, j),
    ensures
        i == j,
{
    if i < j {
        assert(active_mask(planes, i) is Some);
    } else if j < i {
        assert(active_mask(planes, j) is Some);
    }
}

/// The number of the first of the four masks that is non-zero at `i`.
pub fn find_active_mask(masks: &[Vec<u8>; 4], i: usize) -> (found: Option<u8>)
    requires
        forall|k: int| 0 <= k < 4 ==> i < (#[trigger] masks@[k])@.len(),
    ensures
        found == active_mask(planes_of(masks), i as int),
{
    let mut k: u8 = 0;
    while k < 4
        invariant
            k <= 4,
            forall|j: int| 0 <= j < 4 ==> i < (#[trigger] masks@[j])@.len(),
            forall|j: int| 0 <= j < k ==> (#[trigger] planes_of(masks)[j])[i as int] == 0,
        decreases 4 - k,
    {
        assert(planes_of(masks)[k as int] == masks@[k as int]@);
        if masks[k as usize][i] > 0 {
            return Some(k);
        }
        k += 1;
    }
    None
}

/// Paints the mask numbers into the audio.
///
/// Byte `i` of the result is `(audio_bytes[i] & 0xFC) | m`, where `m` is the
/// number of the first mask that is non-zero at `i`. The call fails at the first
/// position where no mask is, and then returns no buffer at all. Masks may be
/// longer than the audio; what lies beyond its end is not looked at.
pub fn paint_audio_bytes(audio_bytes: &[u8], masks: &[Vec<u8>; 4]) -> (result: Result<
    Vec<u8>,
    PipelineError,
>)
    requires
        forall|k: int| 0 <= k < 4 ==> (#[trigger] masks@[k])@.len() >= audio_bytes@.len(),
    ensures
        result is Ok <==> forall|i: int|
            0 <= i < audio_bytes@.len() ==> active_mask(planes_of(masks), i) is Some,
        result matches Ok(bytes) ==> {
            &&& bytes@ == painted(audio_bytes@, planes_of(masks))
            &&& forall|i: int|
                0 <= i < audio_bytes@.len() ==> {
                    &&& #[trigger] bytes@[i] & 0xFC == audio_bytes@[i] & 0xFC
                    &&& bytes@[i] >> 2 == audio_bytes@[i] >> 2
                    &&& Some(bytes@[i] & 0x03) == active_mask(planes_of(masks), i)
                    &&& Some(bytes@[i] % 4) == active_mask(planes_of(masks), i)
                    &&& masks@[(bytes@[i] % 4) as int]@[i] != 0
                }
        },
        result matches Err(e) ==> {
            &&& e matches PipelineError::MaskCoverage { index }
            &&& is_first_uncovered(planes_of(masks), audio_bytes@.len(), index as int)
        },
{
    let n = audio_bytes.len();
    let mut bytes: Vec<u8> = Vec::with_capacity(n);
    let mut i: usize = 0;
    while i < n
        invariant
            i <= n,
            n == audio_bytes@.len(),
            forall|k: int| 0 <= k < 4 ==> (#[trigger] masks@[k])@.len() >= n,
            bytes@.len() == i,
            forall|j: int| 0 <= j < i ==> active_mask(planes_of(masks), j) is Some,
            forall|j: int|
                0 <= j < i ==> #[trigger] bytes@[j] == painted_byte(
                    audio_bytes@[j],
                    active_mask(planes_of(masks), j).unwrap(),
                ),
        decreases n - i,
    {
        match find_active_mask(masks, i) {
            Some(mask_idx) => {
                bytes.push((audio_bytes[i] & AUDIO_BITS) | mask_idx);
            },
            None => {
                return Err(PipelineError::MaskCoverage { index: i });
            },
        }
        i += 1;
    }
    proof {
        assert(bytes@ =~= painted(audio_bytes@, planes_of(masks)));
        lemma_painted(audio_bytes@, planes_of(masks));
        assert forall|i: int| 0 <= i < n implies masks@[(#[trigger] bytes@[i] % 4) as int]@[i]
            != 0 by {
            let m = (bytes@[i] % 4) as int;
            assert(planes_of(masks)[m] == masks@[m]@);
        }
    }
    Ok(bytes)
}

/// Where the planes partition the positions, painting succeeds: some plane is
/// active everywhere.
pub proof fn lemma_partition_is_covered(planes: Seq<Seq<u8>>, n: nat)
    requires
        is_partition(planes, n),
    ensures
        forall|i: int| 0 <= i < n ==> active_mask(planes, i) is Some,
{
    assert forall|i: int| 0 <= i < n implies active_mask(planes, i) is Some by {
        assert(one_plane_active(planes, i));
    }
}

} // verus!
