//! Bounded previews of box contents.

use vstd::prelude::*;

verus! {

/// The most bytes of a header or a body that a preview shows.
pub const PREVIEW_LIMIT: u64 = 128;

/// How many bytes the preview of `size` bytes holds.
pub open spec fn preview_len(size: u64) -> nat {
    if PREVIEW_LIMIT < size {
        PREVIEW_LIMIT as nat
    } else {
        size as nat
    }
}

/// Whether the preview of `size` bytes leaves some of them out.
pub open spec fn preview_truncated(size: u64) -> bool {
    PREVIEW_LIMIT < size
}

/// The number of bytes a driver has to fetch for the preview of `size` bytes.
pub fn preview_length(size: u64) -> (n: usize)
    ensures
        n == preview_len(size),
{
    if PREVIEW_LIMIT < size {
        PREVIEW_LIMIT as usize
    } else {
        size as usize
    }
}

/// Takes the preview of a field of `size` bytes from `source`, the bytes
/// that stand at the field's start: at most [`PREVIEW_LIMIT`] of them, and
/// whether the field is longer than what was taken.
pub fn read(source: &[u8], size: u64) -> (r: (Vec<u8>, bool))
    requires
        preview_len(size) <= source@.len(),
    ensures
        r.0@ == source@.subrange(0, preview_len(size) as int),
        r.1 == preview_truncated(size),
{
    let max_size = PREVIEW_LIMIT;
    let (truncated, size) = if max_size < size {
        (true, max_size)
    } else {
        (false, size)
    };
    let n = size as usize;
    let mut buf: Vec<u8> = Vec::new();
    let mut i: usize = 0;
    while i < n
        invariant
            i <= n,
            n <= source@.len(),
            buf@ == source@.subrange(0, i as int),
        decreases n - i,
    {
        buf.push(source[i]);
        i += 1;
    }
    (buf, truncated)
}

} // verus!
