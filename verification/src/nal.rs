//! The NAL unit that leads a sample.
//!
//! In an MP4 file each NAL unit of a sample is written after a length
//! prefix: a big-endian unsigned integer of one to four bytes, as the
//! track's configuration fixes it, that counts the bytes of the unit. The
//! first byte of a unit is its header; the low five bits of the header name
//! the type of the unit.

use crate::endian::{be_value, lemma_be_value_zero, lemma_byte_range_values, read_be};
use crate::error::InspectError;
use crate::sample_table::ResolvedSample;
use h264_reader::nal::{Nal, RefNal};
use vstd::prelude::*;
use vstd::slice::slice_subrange;

verus! {

/// The type of a NAL unit, by the names of the H.264 standard.
#[derive(Clone, Copy, Debug, PartialEq, Eq, Structural)]
pub enum UnitType {
    /// The codes 0 and 24 to 31, which the standard leaves unspecified.
    Unspecified(u8),
    SliceLayerWithoutPartitioningNonIdr,
    SliceDataPartitionALayer,
    SliceDataPartitionBLayer,
    SliceDataPartitionCLayer,
    SliceLayerWithoutPartitioningIdr,
    /// Supplemental enhancement information.
    SEI,
    SeqParameterSet,
    PicParameterSet,
    AccessUnitDelimiter,
    EndOfSeq,
    EndOfStream,
    FillerData,
    SeqParameterSetExtension,
    PrefixNALUnit,
    SubsetSeqParameterSet,
    DepthParameterSet,
    SliceLayerWithoutPartitioningAux,
    SliceExtension,
    SliceExtensionViewComponent,
    /// The codes 17, 18, 22 and 23, which the standard reserves.
    Reserved(u8),
}

/// The unit type that the code `id` names, for `id` from 0 to 31.
pub open spec fn unit_type_of(id: u8) -> UnitType {
    if id == 1 {
        UnitType::SliceLayerWithoutPartitioningNonIdr
    } else if id == 2 {
        UnitType::SliceDataPartitionALayer
    } else if id == 3 {
        UnitType::SliceDataPartitionBLayer
    } else if id == 4 {
        UnitType::SliceDataPartitionCLayer
    } else if id == 5 {
        UnitType::SliceLayerWithoutPartitioningIdr
    } else if id == 6 {
        UnitType::SEI
    } else if id == 7 {
        UnitType::SeqParameterSet
    } else if id == 8 {
        UnitType::PicParameterSet
    } else if id == 9 {
        UnitType::AccessUnitDelimiter
    } else if id == 10 {
        UnitType::EndOfSeq
    } else if id == 11 {
        UnitType::EndOfStream
    } else if id == 12 {
        UnitType::FillerData
    } else if id == 13 {
        UnitType::SeqParameterSetExtension
    } else if id == 14 {
        UnitType::PrefixNALUnit
    } else if id == 15 {
        UnitType::SubsetSeqParameterSet
    } else if id == 16 {
        UnitType::DepthParameterSet
    } else if id == 19 {
        UnitType::SliceLayerWithoutPartitioningAux
    } else if id == 20 {
        UnitType::SliceExtension
    } else if id == 21 {
        UnitType::SliceExtensionViewComponent
    } else if id == 17 || id == 18 || id == 22 || id == 23 {
        UnitType::Reserved(id)
    } else {
        UnitType::Unspecified(id)
    }
}

impl UnitType {
    /// The unit type that the code `id` names; `None` for a code above 31.
    pub fn for_id(id: u8) -> (r: Option<UnitType>)
        ensures
            r == if id <= 31 {
                Some(unit_type_of(id))
            } else {
                None
            },
    {
        if id > 31 {
            return None;
        }
        let t = match id {
            1 => UnitType::SliceLayerWithoutPartitioningNonIdr,
            2 => UnitType::SliceDataPartitionALayer,
            3 => UnitType::SliceDataPartitionBLayer,
            4 => UnitType::SliceDataPartitionCLayer,
            5 => UnitType::SliceLayerWithoutPartitioningIdr,
            6 => UnitType::SEI,
            7 => UnitType::SeqParameterSet,
            8 => UnitType::PicParameterSet,
            9 => UnitType::AccessUnitDelimiter,
            10 => UnitType::EndOfSeq,
            11 => UnitType::EndOfStream,
            12 => UnitType::FillerData,
            13 => UnitType::SeqParameterSetExtension,
            14 => UnitType::PrefixNALUnit,
            15 => UnitType::SubsetSeqParameterSet,
            16 => UnitType::DepthParameterSet,
            19 => UnitType::SliceLayerWithoutPartitioningAux,
            20 => UnitType::SliceExtension,
            21 => UnitType::SliceExtensionViewComponent,
            17 | 18 | 22 | 23 => UnitType::Reserved(id),
            _ => UnitType::Unspecified(id),
        };
        Some(t)
    }

    /// The code of the unit type.
    pub open spec fn code(self) -> u8 {
        match self {
            UnitType::Unspecified(v) => v,
            UnitType::SliceLayerWithoutPartitioningNonIdr => 1,
            UnitType::SliceDataPartitionALayer => 2,
            UnitType::SliceDataPartitionBLayer => 3,
            UnitType::SliceDataPartitionCLayer => 4,
            UnitType::SliceLayerWithoutPartitioningIdr => 5,
            UnitType::SEI => 6,
            UnitType::SeqParameterSet => 7,
            UnitType::PicParameterSet => 8,
            UnitType::AccessUnitDelimiter => 9,
            UnitType::EndOfSeq => 10,
            UnitType::EndOfStream => 11,
            UnitType::FillerData => 12,
            UnitType::SeqParameterSetExtension => 13,
            UnitType::PrefixNALUnit => 14,
            UnitType::SubsetSeqParameterSet => 15,
            UnitType::DepthParameterSet => 16,
            UnitType::SliceLayerWithoutPartitioningAux => 19,
            UnitType::SliceExtension => 20,
            UnitType::SliceExtensionViewComponent => 21,
            UnitType::Reserved(v) => v,
        }
    }

    /// The code of the unit type.
    pub fn id(self) -> (id: u8)
        ensures
            id == self.code(),
    {
        match self {
            UnitType::Unspecified(v) => v,
            UnitType::SliceLayerWithoutPartitioningNonIdr => 1,
            UnitType::SliceDataPartitionALayer => 2,
            UnitType::SliceDataPartitionBLayer => 3,
            UnitType::SliceDataPartitionCLayer => 4,
            UnitType::SliceLayerWithoutPartitioningIdr => 5,
            UnitType::SEI => 6,
            UnitType::SeqParameterSet => 7,
            UnitType::PicParameterSet => 8,
            UnitType::AccessUnitDelimiter => 9,
            UnitType::EndOfSeq => 10,
            UnitType::EndOfStream => 11,
            UnitType::FillerData => 12,
            UnitType::SeqParameterSetExtension => 13,
            UnitType::PrefixNALUnit => 14,
            UnitType::SubsetSeqParameterSet => 15,
            UnitType::DepthParameterSet => 16,
            UnitType::SliceLayerWithoutPartitioningAux => 19,
            UnitType::SliceExtension => 20,
            UnitType::SliceExtensionViewComponent => 21,
            UnitType::Reserved(v) => v,
        }
    }
}

/// Every code from 0 to 31 names a unit type that has this code.
pub proof fn lemma_unit_type_code(id: u8)
    requires
        id <= 31,
    ensures
        unit_type_of(id).code() == id,
{
}

/// The leading NAL unit of a sample.
#[derive(Clone, Copy, Debug, PartialEq, Eq, Structural)]
pub struct NalUnit {
    /// The type that the header of the unit names; `None` for a unit of no
    /// bytes, which has no header.
    pub unit_type: Option<UnitType>,
    /// The number of bytes of the unit, as the length prefix declares it.
    pub length: u32,
}

impl NalUnit {
    /// Whether the unit shows up in a report: all units do but those of
    /// supplemental enhancement information.
    pub fn is_reported(&self) -> (r: bool)
        ensures
            r == (self.unit_type != Some(UnitType::SEI)),
    {
        match self.unit_type {
            Some(UnitType::SEI) => false,
            _ => true,
        }
    }
}

/// Why no NAL unit could be taken from a sample.
#[derive(Clone, Copy, Debug, PartialEq, Eq, Structural)]
pub enum NalError {
    /// The sample is shorter than the length prefix, or than the prefix and
    /// the bytes that it declares.
    TruncatedNal,
    /// The unit is not a well-formed, complete NAL unit.
    IncompleteNal,
}

/// The length that the prefix of `n` bytes declares.
pub open spec fn declared_length(n: nat, sample: Seq<u8>) -> nat {
    be_value(sample.subrange(0, n as int))
}

/// The sample ends before its prefix of `n` bytes does, or before the unit
/// that the prefix declares.
pub open spec fn truncated(n: nat, sample: Seq<u8>) -> bool {
    sample.len() < n || sample.len() < n + declared_length(n, sample)
}

/// The bytes of the leading NAL unit of a sample that is not truncated.
pub open spec fn payload(n: nat, sample: Seq<u8>) -> Seq<u8> {
    sample.subrange(n as int, (n + declared_length(n, sample)) as int)
}

/// The code of the unit type in the header byte `header`: its low five bits.
/// A header with the top bit set, which the standard forbids, has none.
pub open spec fn header_unit_type(header: u8) -> Option<u8> {
    if header & 0x80 != 0 {
        None
    } else {
        Some(header & 0x1f)
    }
}

/// The header's top bit is set from 128 on, and its low five bits are the
/// remainder of the division by 32.
pub proof fn lemma_header_unit_type(header: u8)
    ensures
        header_unit_type(header) == if header >= 128 {
            None
        } else {
            Some((header % 32) as u8)
        },
        header_unit_type(header) matches Some(id) ==> id <= 31,
{
    assert((header & 0x80 != 0) == (header >= 128)) by (bit_vector);
    assert(header & 0x1f == header % 32) by (bit_vector);
}

/// What the extraction of the leading NAL unit from `sample` gives, with a
/// length prefix of `n` bytes.
pub open spec fn extracted(n: nat, sample: Seq<u8>) -> Result<NalUnit, NalError> {
    if truncated(n, sample) {
        Err(NalError::TruncatedNal)
    } else if declared_length(n, sample) == 0 {
        Ok(NalUnit { unit_type: None, length: 0 })
    } else {
        match header_unit_type(payload(n, sample)[0]) {
            None => Err(NalError::IncompleteNal),
            Some(id) => Ok(
                NalUnit {
                    unit_type: Some(unit_type_of(id)),
                    length: declared_length(n, sample) as u32,
                },
            ),
        }
    }
}

/// A sample whose length prefix is all zero holds a leading NAL unit of no
/// bytes, and the extraction succeeds on it.
pub proof fn lemma_zero_length_unit(n: nat, sample: Seq<u8>)
    requires
        1 <= n <= 4,
        n <= sample.len(),
        forall|i: int| 0 <= i < n ==> sample[i] == 0,
    ensures
        declared_length(n, sample) == 0,
        payload(n, sample).len() == 0,
        extracted(n, sample) == Ok::<NalUnit, NalError>(NalUnit { unit_type: None, length: 0 }),
{
    lemma_be_value_zero(sample.subrange(0, n as int));
}

/// A sample shorter than its length prefix is truncated.
pub proof fn lemma_short_sample_truncated(n: nat, sample: Seq<u8>)
    requires
        sample.len() < n,
    ensures
        extracted(n, sample) == Err::<NalUnit, NalError>(NalError::TruncatedNal),
{
}

/// Whether the NAL unit in `nal` is complete.
///
/// Trusted: the body calls `h264_reader::nal::RefNal::new` on `nal` as the
/// only chunk and marked complete, and then `Nal::is_complete` on it, which
/// returns that mark. `RefNal::new` panics on an empty first chunk.
#[verifier::external_body]
fn nal_is_complete(nal: &[u8]) -> (r: bool)
    requires
        nal@.len() > 0,
    ensures
        r,
{
    RefNal::new(nal, &[], true).is_complete()
}

/// The code of the unit type that the header of the NAL unit in `nal` names.
///
/// Trusted: the body calls `h264_reader::nal::RefNal::new` on `nal` as the
/// only chunk, and `Nal::header` on it, which takes the first byte and fails
/// where its top bit is set. `NalHeader::nal_unit_type` looks up the low five
/// bits of that byte and `UnitType::id` gives the code of what was found,
/// which is those five bits again. `RefNal::new` panics on an empty first
/// chunk.
#[verifier::external_body]
fn nal_unit_type_id(nal: &[u8]) -> (r: Option<u8>)
    requires
        nal@.len() > 0,
    ensures
        r == header_unit_type(nal@[0]),
{
    match RefNal::new(nal, &[], true).header() {
        Ok(header) => Some(header.nal_unit_type().id()),
        Err(_) => None,
    }
}

/// Takes the leading NAL unit from the samples of a track.
pub struct NalExtractor {
    nal_length_size: u8,
}

impl NalExtractor {
    #[verifier::type_invariant]
    spec fn length_size_in_range(self) -> bool {
        1 <= self.nal_length_size <= 4
    }

    /// The number of bytes of the length prefix.
    pub closed spec fn length_size(&self) -> nat {
        self.nal_length_size as nat
    }

    /// An extractor for length prefixes of `nal_length_size` bytes, which
    /// must be 1, 2, 3 or 4.
    pub fn new(nal_length_size: u8) -> (r: Option<NalExtractor>)
        ensures
            r is Some <==> 1 <= nal_length_size <= 4,
            r matches Some(extractor) ==> extractor.length_size() == nal_length_size,
    {
        if 1 <= nal_length_size && nal_length_size <= 4 {
            Some(NalExtractor { nal_length_size })
        } else {
            None
        }
    }

    /// An extractor for a track whose configuration holds
    /// `length_size_minus_one`, which must be 0, 1, 2 or 3.
    pub fn from_length_size_minus_one(length_size_minus_one: u8) -> (r: Option<NalExtractor>)
        ensures
            r is Some <==> length_size_minus_one <= 3,
            r matches Some(extractor) ==> extractor.length_size() == length_size_minus_one + 1,
    {
        if length_size_minus_one <= 3 {
            Some(NalExtractor { nal_length_size: length_size_minus_one + 1 })
        } else {
            None
        }
    }

    /// The number of bytes of the length prefix.
    pub fn nal_length_size(&self) -> (n: u8)
        ensures
            n == self.length_size(),
            1 <= n <= 4,
    {
        proof {
            use_type_invariant(self);
        }
        self.nal_length_size
    }

    /// The bytes of the leading NAL unit of `sample`, without the length
    /// prefix.
    pub fn payload<'a>(&self, sample: &'a [u8]) -> (r: Result<&'a [u8], NalError>)
        ensures
            truncated(self.length_size(), sample@) ==> r == Err::<&[u8], NalError>(
                NalError::TruncatedNal,
            ),
            !truncated(self.length_size(), sample@) ==> (r matches Ok(bytes) && bytes@ == payload(
                self.length_size(),
                sample@,
            )),
    {
        proof {
            use_type_invariant(self);
            lemma_byte_range_values();
        }
        let n = self.nal_length_size as usize;
        let declared = match read_be(sample, self.nal_length_size) {
            Some(v) => v,
            None => {
                return Err(NalError::TruncatedNal);
            },
        };
        let rest = (sample.len() - n) as u64;
        if rest < declared {
            return Err(NalError::TruncatedNal);
        }
        Ok(slice_subrange(sample, n, n + declared as usize))
    }

    /// Takes the leading NAL unit of `sample`: reads the length prefix,
    /// and reads the type of the unit from the header that follows it.
    pub fn extract(&self, sample: &[u8]) -> (r: Result<NalUnit, NalError>)
        ensures
            r == extracted(self.length_size(), sample@),
    {
        proof {
            use_type_invariant(self);
            lemma_byte_range_values();
        }
        let unit = match self.payload(sample) {
            Ok(unit) => unit,
            Err(e) => {
                return Err(e);
            },
        };
        if unit.len() == 0 {
            return Ok(NalUnit { unit_type: None, length: 0 });
        }
        if !nal_is_complete(unit) {
            return Err(NalError::IncompleteNal);
        }
        let id = match nal_unit_type_id(unit) {
            Some(id) => id,
            None => {
                return Err(NalError::IncompleteNal);
            },
        };
        proof {
            lemma_header_unit_type(unit@[0]);
        }
        match UnitType::for_id(id) {
            Some(unit_type) => Ok(NalUnit { unit_type: Some(unit_type), length: unit.len() as u32 }),
            None => Err(NalError::IncompleteNal),
        }
    }

    /// Takes the leading NAL unit of a resolved sample from the bytes that
    /// were read for it. A failure names the sample and its byte range.
    pub fn inspect(
        &self,
        sample: &ResolvedSample,
        bytes: &[u8],
    ) -> (r: Result<NalUnit, InspectError>)
        ensures
            r == located(*sample, extracted(self.length_size(), bytes@)),
    {
        match self.extract(bytes) {
            Ok(unit) => Ok(unit),
            Err(NalError::TruncatedNal) => Err(
                InspectError::TruncatedNal {
                    sample_index: sample.index,
                    byte_offset: sample.byte_offset,
                    size: sample.size,
                },
            ),
            Err(NalError::IncompleteNal) => Err(
                InspectError::IncompleteNal {
                    sample_index: sample.index,
                    byte_offset: sample.byte_offset,
                    size: sample.size,
                },
            ),
        }
    }
}

/// The result of an extraction with the place of the sample added to a
/// failure.
pub open spec fn located(
    sample: ResolvedSample,
    result: Result<NalUnit, NalError>,
) -> Result<NalUnit, InspectError> {
    match result {
        Ok(unit) => Ok(unit),
        Err(NalError::TruncatedNal) => Err(
            InspectError::TruncatedNal {
                sample_index: sample.index,
                byte_offset: sample.byte_offset,
                size: sample.size,
            },
        ),
        Err(NalError::IncompleteNal) => Err(
            InspectError::IncompleteNal {
                sample_index: sample.index,
                byte_offset: sample.byte_offset,
                size: sample.size,
            },
        ),
    }
}

} // verus!
