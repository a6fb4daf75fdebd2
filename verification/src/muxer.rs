//! The muxer that writes a given kind of output file.

use vstd::prelude::*;
use vstd::string::StrSliceExecFns;

verus! {

/// The name of the muxer element for files with the extension `ext`; `None`
/// for an extension that is not supported.
pub open spec fn muxer_name(ext: Seq<char>) -> Option<Seq<char>> {
    if ext == seq!['m', 'p', '4'] {
        Some("mp4mux"@)
    } else if ext == seq!['m', 'k', 'v'] {
        Some("matroskamux"@)
    } else if ext == seq!['a', 'v', 'i'] {
        Some("avimux"@)
    } else {
        None
    }
}

/// The name of the muxer element for files with the extension `ext`; `None`
/// for an extension that is not supported.
pub fn get_muxer_from_extension(ext: &str) -> (r: Option<&'static str>)
    ensures
        match muxer_name(ext@) {
            Some(name) => r matches Some(s) && s@ == name,
            None => r is None,
        },
{
    if ext.unicode_len() != 3 {
        return None;
    }
    let a = ext.get_char(0);
    let b = ext.get_char(1);
    let c = ext.get_char(2);
    assert(ext@ == seq![a, b, c]);
    if a == 'm' && b == 'p' && c == '4' {
        Some("mp4mux")
    } else if a == 'm' && b == 'k' && c == 'v' {
        Some("matroskamux")
    } else if a == 'a' && b == 'v' && c == 'i' {
        Some("avimux")
    } else {
        None
    }
}

} // verus!
