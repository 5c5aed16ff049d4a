//! Frame counts of skeletal motions.
use vstd::prelude::*;

verus! {

/// Largest last frame over `tracks` (a track without frames counts as 0).
pub open spec fn max_last_frame(tracks: Seq<Option<u32>>) -> u32
    decreases tracks.len(),
{
    if tracks.len() == 0 {
        0
    } else {
        let rest = max_last_frame(tracks.drop_last());
        let last = match tracks.last() { Some(f) => f, None => 0 };
        if last > rest { last } else { rest }
    }
}

/// The number of the last frame of a motion, given the last frame of each of
/// its translation and rotation tracks. Both maxima are taken over the
/// translation tracks, so the rotation tracks do not change the result.
pub fn max_frame_num(translation_last_frames: &Vec<Option<u32>>, rotation_last_frames: &Vec<Option<u32>>) -> (r: u32)
    ensures
        r == max_last_frame(translation_last_frames@),
{
    let t_max = max_of(translation_last_frames);
    let r_max = max_of(translation_last_frames);
    if t_max > r_max { t_max } else { r_max }
}

fn max_of(tracks: &Vec<Option<u32>>) -> (r: u32)
    ensures
        r == max_last_frame(tracks@),
{
    let mut best: u32 = 0;
    let mut i: usize = 0;
    while i < tracks.len()
        invariant
            i <= tracks@.len(),
            best == max_last_frame(tracks@.subrange(0, i as int)),
        decreases tracks@.len() - i,
    {
        let f = match tracks[i] {
            Some(f) => f,
            None => 0,
        };
        assert(tracks@.subrange(0, i + 1).drop_last() =~= tracks@.subrange(0, i as int));
        if f > best {
            best = f;
        }
        i += 1;
    }
    assert(tracks@.subrange(0, tracks@.len() as int) =~= tracks@);
    best
}

/// The last frame is at least the last frame of every translation track.
pub proof fn lemma_max_frame_bounds(tracks: Seq<Option<u32>>, i: int)
    requires
        0 <= i < tracks.len(),
    ensures
        match tracks[i] { Some(f) => f <= max_last_frame(tracks), None => true },
    decreases tracks.len(),
{
    if i < tracks.len() - 1 {
        lemma_max_frame_bounds(tracks.drop_last(), i);
        assert(tracks.drop_last()[i] == tracks[i]);
    }
}

} // verus!
