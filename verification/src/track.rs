//! The choice of the track to inspect.

use vstd::prelude::*;

verus! {

/// Handler type of a video track, `vide`.
pub const VIDEO_HANDLER: u32 = 0x7669_6465;

/// Track `i` is the one video track among the tracks with these handler
/// types.
pub open spec fn only_video_track(handlers: Seq<u32>, i: int) -> bool {
    &&& 0 <= i < handlers.len()
    &&& handlers[i] == VIDEO_HANDLER
    &&& forall|j: int| 0 <= j < handlers.len() && j != i ==> handlers[j] != VIDEO_HANDLER
}

/// Finds the video track of a file from the handler types of its tracks.
/// There must be exactly one: with none or with several the result is `None`.
pub fn find_video_track(handlers: &[u32]) -> (r: Option<usize>)
    ensures
        r matches Some(i) ==> only_video_track(handlers@, i as int),
        r is None ==> forall|i: int| !only_video_track(handlers@, i),
{
    let mut found: Option<usize> = None;
    let mut k: usize = 0;
    while k < handlers.len()
        invariant
            k <= handlers@.len(),
            found matches Some(i) ==> i < k && handlers@[i as int] == VIDEO_HANDLER && forall|
                j: int,
            |
                0 <= j < k && j != i ==> handlers@[j] != VIDEO_HANDLER,
            found is None ==> forall|j: int| 0 <= j < k ==> handlers@[j] != VIDEO_HANDLER,
        decreases handlers@.len() - k,
    {
        if handlers[k] == VIDEO_HANDLER {
            match found {
                Some(i) => {
                    assert forall|x: int| !only_video_track(handlers@, x) by {
                        if only_video_track(handlers@, x) {
                            if x == i as int {
                                assert(handlers@[k as int] != VIDEO_HANDLER);
                            } else {
                                assert(handlers@[i as int] != VIDEO_HANDLER);
                            }
                        }
                    }
                    return None;
                },
                None => {
                    found = Some(k);
                },
            }
        }
        k += 1;
    }
    found
}

} // verus!
