//! The voicing rule of the pitch contour.
use vstd::prelude::*;

verus! {

/// Keeps each frame's pitch where the frame is voiced and puts `unvoiced` in
/// its place elsewhere, whatever the pitch held there.
pub fn voiced_only<T: Copy>(pitch: &Vec<T>, vuv: &Vec<bool>, unvoiced: T) -> (r: Vec<T>)
    requires
        pitch.len() == vuv.len(),
    ensures
        r.len() == pitch.len(),
        forall|k: int|
            0 <= k < r.len() ==> #[trigger] r[k] == if vuv[k] {
                pitch[k]
            } else {
                unvoiced
            },
{
    let mut r: Vec<T> = Vec::with_capacity(pitch.len());
    let mut k: usize = 0;
    while k < pitch.len()
        invariant
            pitch.len() == vuv.len(),
            k <= pitch.len(),
            r.len() == k,
            forall|j: int|
                0 <= j < k ==> #[trigger] r[j] == if vuv[j] {
                    pitch[j]
                } else {
                    unvoiced
                },
        decreases pitch.len() - k,
    {
        if vuv[k] {
            r.push(pitch[k]);
        } else {
            r.push(unvoiced);
        }
        k += 1;
    }
    r
}

} // verus!
