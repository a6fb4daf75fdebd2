//! Inspection of H.264 video stored in ISO base media ("MP4") files.
//!
//! The crate covers the byte-exact parts of such an inspection:
//!
//! * [`endian`]: big-endian unsigned integers of one to eight bytes;
//! * [`box_header`]: the header that starts every box of the container;
//! * [`walker`]: the walk over the box tree, as a step function that a
//!   driver feeds with the bytes it reads from the file;
//! * [`preview`]: the bounded preview of the bytes of a box;
//! * [`hexdump`]: the rendering of bytes as a hexadecimal dump;
//! * [`track`]: the choice of the video track among the tracks of a file;
//! * [`sample_table`]: the chunk-run, chunk-offset and sample-size tables of
//!   a track, resolved into one byte range per sample;
//! * [`nal`]: the length-prefixed NAL unit that leads a sample;
//! * [`muxer`]: the muxer that writes a given kind of output file;
//! * [`error`]: the failures, each with the place in the file it concerns.
//!
//! Nothing here touches a file. A driver reads the bytes that these
//! functions ask for and hands them over as slices.

pub mod box_header;
pub mod endian;
pub mod error;
pub mod hexdump;
pub mod muxer;
pub mod nal;
pub mod preview;
pub mod sample_table;
pub mod track;
pub mod walker;
