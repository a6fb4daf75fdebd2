//! The header that starts every box of the container.
//!
//! A box starts with its size in four bytes and its type in four more, both
//! big-endian. A size of 1 announces that the real size follows the type in
//! eight further bytes. A size of 0 means that the box runs to the end of
//! what contains it. The size counts the header too.

use crate::endian::{be_value, lemma_be_value_bound, lemma_byte_range_values, read_be};
use crate::error::InspectError;
use vstd::prelude::*;
use vstd::slice::slice_subrange;

verus! {

/// Type code of the movie box, `moov`.
pub const MOVIE_BOX: u32 = 0x6d6f_6f76;

/// Type code of the track box, `trak`.
pub const TRACK_BOX: u32 = 0x7472_616b;

/// Type code of the media box, `mdia`.
pub const MEDIA_BOX: u32 = 0x6d64_6961;

/// Type code of the media information box, `minf`.
pub const MEDIA_INFORMATION_BOX: u32 = 0x6d69_6e66;

/// Type code of the sample table box, `stbl`.
pub const SAMPLE_TABLE_BOX: u32 = 0x7374_626c;

/// The number of bytes of a header without the 64-bit size.
pub const SHORT_HEADER: u32 = 8;

/// The number of bytes of a header with the 64-bit size.
pub const LONG_HEADER: u32 = 16;

/// The header of a box.
#[derive(Clone, Copy, Debug, PartialEq, Eq, Structural)]
pub struct BoxHeader {
    /// The size of the box, header included; 0 for a box that runs to the
    /// end of its container.
    pub size: u64,
    /// The four bytes of the type, read as one big-endian number.
    pub type_code: u32,
    /// The number of bytes that the header itself takes: 8 or 16.
    pub header_length: u32,
}

/// What the bytes at the start of a box say of it. `offset` is where the
/// bytes stand in the file and serves the report of a failure only.
///
/// Fewer bytes than the header needs are an `IoError`. A size that is
/// neither 0 nor at least the length of the header is a `MalformedBox`.
pub open spec fn parsed_header(bytes: Seq<u8>, offset: u64) -> Result<BoxHeader, InspectError> {
    if bytes.len() < 8 {
        Err(InspectError::IoError { offset })
    } else {
        let size = be_value(bytes.subrange(0, 4));
        let type_code = be_value(bytes.subrange(4, 8)) as u32;
        if size == 1 {
            if bytes.len() < 16 {
                Err(InspectError::IoError { offset })
            } else {
                let large_size = be_value(bytes.subrange(8, 16));
                if 0 < large_size < 16 {
                    Err(InspectError::MalformedBox { box_type: type_code, offset })
                } else {
                    Ok(
                        BoxHeader {
                            size: large_size as u64,
                            type_code,
                            header_length: LONG_HEADER,
                        },
                    )
                }
            }
        } else if 0 < size < 8 {
            Err(InspectError::MalformedBox { box_type: type_code, offset })
        } else {
            Ok(BoxHeader { size: size as u64, type_code, header_length: SHORT_HEADER })
        }
    }
}

impl BoxHeader {
    /// The header is one that a box can have: it takes 8 or 16 bytes, and
    /// the size is 0 or covers the header.
    pub open spec fn wf(self) -> bool {
        &&& self.header_length == SHORT_HEADER || self.header_length == LONG_HEADER
        &&& self.size == 0 || self.size >= self.header_length
    }

    /// The box holds other boxes: it is one of `moov`, `trak`, `mdia`, `minf`
    /// and `stbl`.
    pub open spec fn container(self) -> bool {
        ||| self.type_code == MOVIE_BOX
        ||| self.type_code == TRACK_BOX
        ||| self.type_code == MEDIA_BOX
        ||| self.type_code == MEDIA_INFORMATION_BOX
        ||| self.type_code == SAMPLE_TABLE_BOX
    }

    /// Reads the header of a box from the bytes at its start.
    pub fn parse(bytes: &[u8], offset: u64) -> (r: Result<BoxHeader, InspectError>)
        ensures
            r == parsed_header(bytes@, offset),
    {
        proof {
            lemma_byte_range_values();
        }
        if bytes.len() < 8 {
            return Err(InspectError::IoError { offset });
        }
        assert(bytes@.subrange(4, bytes@.len() as int).subrange(0, 4) == bytes@.subrange(4, 8));
        let size = match read_be(bytes, 4) {
            Some(v) => v,
            None => {
                return Err(InspectError::IoError { offset });
            },
        };
        let type_code = match read_be(slice_subrange(bytes, 4, bytes.len()), 4) {
            Some(v) => v as u32,
            None => {
                return Err(InspectError::IoError { offset });
            },
        };
        if size == 1 {
            if bytes.len() < 16 {
                return Err(InspectError::IoError { offset });
            }
            assert(bytes@.subrange(8, bytes@.len() as int).subrange(0, 8) == bytes@.subrange(
                8,
                16,
            ));
            let large_size = match read_be(slice_subrange(bytes, 8, bytes.len()), 8) {
                Some(v) => v,
                None => {
                    return Err(InspectError::IoError { offset });
                },
            };
            if 0 < large_size && large_size < 16 {
                return Err(InspectError::MalformedBox { box_type: type_code, offset });
            }
            Ok(BoxHeader { size: large_size, type_code, header_length: LONG_HEADER })
        } else if 0 < size && size < 8 {
            Err(InspectError::MalformedBox { box_type: type_code, offset })
        } else {
            Ok(BoxHeader { size, type_code, header_length: SHORT_HEADER })
        }
    }

    /// Whether the box holds other boxes.
    pub fn is_container(&self) -> (r: bool)
        ensures
            r == self.container(),
    {
        self.type_code == MOVIE_BOX || self.type_code == TRACK_BOX || self.type_code == MEDIA_BOX
            || self.type_code == MEDIA_INFORMATION_BOX || self.type_code == SAMPLE_TABLE_BOX
    }

    /// The number of bytes of the box after its header.
    pub fn body_size(&self) -> (n: u64)
        requires
            self.wf(),
            self.size != 0,
        ensures
            n == self.size - self.header_length,
    {
        self.size - self.header_length as u64
    }

    /// The four bytes of the type, as they stand in the file.
    pub fn type_bytes(&self) -> (r: [u8; 4])
        ensures
            r[0] == (self.type_code >> 24) as u8,
            r[1] == (self.type_code >> 16) as u8,
            r[2] == (self.type_code >> 8) as u8,
            r[3] == self.type_code as u8,
    {
        [
            (self.type_code >> 24) as u8,
            (self.type_code >> 16) as u8,
            (self.type_code >> 8) as u8,
            self.type_code as u8,
        ]
    }
}

/// A header that was read from the start of a box is well-formed, and the
/// bytes that were given hold all of it.
pub proof fn lemma_parsed_header_wf(bytes: Seq<u8>, offset: u64)
    ensures
        parsed_header(bytes, offset) matches Ok(header) ==> header.wf() && header.header_length
            <= bytes.len(),
        parsed_header(bytes, offset) matches Err(e) ==> e == (InspectError::IoError { offset })
            || e is MalformedBox,
{
    lemma_byte_range_values();
    if bytes.len() >= 8 {
        lemma_be_value_bound(bytes.subrange(0, 4));
    }
    if bytes.len() >= 16 {
        lemma_be_value_bound(bytes.subrange(8, 16));
    }
}

} // verus!
