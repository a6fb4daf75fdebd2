use isomp4_h264::error::InspectError;
use isomp4_h264::nal::{NalError, NalExtractor, NalUnit, UnitType};
use isomp4_h264::sample_table::ResolvedSample;

fn extractor(n: u8) -> NalExtractor {
    NalExtractor::new(n).unwrap()
}

#[test]
fn sequence_parameter_set_behind_a_four_byte_prefix() {
    let sample = [0x00, 0x00, 0x00, 0x05, 0x67, 0xAA, 0xBB, 0xCC, 0xDD];
    let ex = extractor(4);
    assert_eq!(ex.payload(&sample), Ok(&[0x67u8, 0xAA, 0xBB, 0xCC, 0xDD][..]));
    let unit = ex.extract(&sample).unwrap();
    assert_eq!(unit, NalUnit { unit_type: Some(UnitType::SeqParameterSet), length: 5 });
    assert_eq!(unit.unit_type.unwrap().id(), 0x07);
}

#[test]
fn sample_shorter_than_its_prefix_is_truncated() {
    let ex = extractor(4);
    assert_eq!(ex.extract(&[0x00, 0x00, 0x00]), Err(NalError::TruncatedNal));
    assert_eq!(ex.payload(&[0x00, 0x00, 0x00]), Err(NalError::TruncatedNal));
    assert_eq!(ex.extract(&[]), Err(NalError::TruncatedNal));
}

#[test]
fn sample_shorter_than_the_declared_unit_is_truncated() {
    let ex = extractor(4);
    assert_eq!(ex.extract(&[0, 0, 0, 5, 0x67, 1, 2, 3]), Err(NalError::TruncatedNal));
    assert_eq!(ex.extract(&[0xff, 0xff, 0xff, 0xff, 0x67]), Err(NalError::TruncatedNal));
}

#[test]
fn declared_length_zero_gives_an_empty_unit() {
    let ex = extractor(4);
    assert_eq!(ex.payload(&[0, 0, 0, 0]), Ok(&[][..]));
    assert_eq!(ex.extract(&[0, 0, 0, 0]), Ok(NalUnit { unit_type: None, length: 0 }));
    assert_eq!(ex.payload(&[0, 0, 0, 0, 0x67, 0x01]), Ok(&[][..]));
    assert_eq!(ex.extract(&[0, 0, 0, 0, 0x67, 0x01]), Ok(NalUnit { unit_type: None, length: 0 }));
}

#[test]
fn only_the_first_unit_of_a_sample_is_taken() {
    let sample = [0, 2, 0x06, 0x01, 0, 3, 0x65, 0x88, 0x80];
    let unit = extractor(2).extract(&sample).unwrap();
    assert_eq!(unit, NalUnit { unit_type: Some(UnitType::SEI), length: 2 });
}

#[test]
fn prefix_widths_from_one_to_four() {
    let unit = NalUnit { unit_type: Some(UnitType::SliceLayerWithoutPartitioningIdr), length: 2 };
    assert_eq!(extractor(1).extract(&[2, 0x65, 0x88]), Ok(unit));
    assert_eq!(extractor(2).extract(&[0, 2, 0x65, 0x88]), Ok(unit));
    assert_eq!(extractor(3).extract(&[0, 0, 2, 0x65, 0x88]), Ok(unit));
    assert_eq!(extractor(4).extract(&[0, 0, 0, 2, 0x65, 0x88]), Ok(unit));
}

#[test]
fn prefix_is_big_endian() {
    let mut sample = vec![0x01, 0x02];
    sample.extend(std::iter::repeat(0x41).take(0x0102));
    let unit = extractor(2).extract(&sample).unwrap();
    assert_eq!(unit.length, 0x0102);
    sample.pop();
    assert_eq!(extractor(2).extract(&sample), Err(NalError::TruncatedNal));
    let mut wide = vec![0x00, 0x01, 0x00];
    wide.extend(std::iter::repeat(0x21).take(256));
    assert_eq!(extractor(3).extract(&wide).unwrap().length, 256);
}

#[test]
fn header_with_the_forbidden_bit_is_incomplete() {
    assert_eq!(extractor(4).extract(&[0, 0, 0, 1, 0x80]), Err(NalError::IncompleteNal));
    assert_eq!(extractor(1).extract(&[3, 0xE7, 0, 0]), Err(NalError::IncompleteNal));
    assert_eq!(
        extractor(1).extract(&[1, 0x7F]),
        Ok(NalUnit { unit_type: Some(UnitType::Unspecified(31)), length: 1 })
    );
}

#[test]
fn reference_bits_do_not_change_the_type() {
    for idc in 0..4u8 {
        let header = (idc << 5) | 5;
        assert_eq!(
            extractor(1).extract(&[1, header]).unwrap().unit_type,
            Some(UnitType::SliceLayerWithoutPartitioningIdr)
        );
    }
}

#[test]
fn unit_types_agree_with_the_h264_reader_names() {
    for id in 0..32u8 {
        let ours = UnitType::for_id(id).unwrap();
        let theirs = h264_reader::nal::UnitType::for_id(id).unwrap();
        assert_eq!(format!("{:?}", ours), format!("{:?}", theirs));
        assert_eq!(ours.id(), id);
        assert_eq!(theirs.id(), id);
        let unit = extractor(1).extract(&[1, id]).unwrap();
        assert_eq!(unit.unit_type, Some(ours));
    }
    assert_eq!(UnitType::for_id(32), None);
    assert_eq!(UnitType::for_id(255), None);
    assert_eq!(UnitType::for_id(6), Some(UnitType::SEI));
    assert_eq!(UnitType::for_id(17), Some(UnitType::Reserved(17)));
    assert_eq!(UnitType::for_id(0), Some(UnitType::Unspecified(0)));
}

#[test]
fn length_prefix_width_must_be_one_to_four() {
    assert!(NalExtractor::new(0).is_none());
    assert!(NalExtractor::new(5).is_none());
    for n in 1..=4u8 {
        assert_eq!(NalExtractor::new(n).unwrap().nal_length_size(), n);
        assert_eq!(NalExtractor::from_length_size_minus_one(n - 1).unwrap().nal_length_size(), n);
    }
    assert!(NalExtractor::from_length_size_minus_one(4).is_none());
    assert!(NalExtractor::from_length_size_minus_one(255).is_none());
}

#[test]
fn supplemental_information_is_not_reported() {
    assert!(!NalUnit { unit_type: Some(UnitType::SEI), length: 9 }.is_reported());
    assert!(NalUnit { unit_type: Some(UnitType::SeqParameterSet), length: 9 }.is_reported());
    assert!(NalUnit { unit_type: None, length: 0 }.is_reported());
}

#[test]
fn failures_name_the_sample() {
    let sample = ResolvedSample { index: 7, chunk_index: 3, byte_offset: 4096, size: 3 };
    let ex = extractor(4);
    assert_eq!(
        ex.inspect(&sample, &[0, 0, 0]),
        Err(InspectError::TruncatedNal { sample_index: 7, byte_offset: 4096, size: 3 })
    );
    let sample = ResolvedSample { index: 8, chunk_index: 3, byte_offset: 5000, size: 5 };
    assert_eq!(
        ex.inspect(&sample, &[0, 0, 0, 1, 0xff]),
        Err(InspectError::IncompleteNal { sample_index: 8, byte_offset: 5000, size: 5 })
    );
    assert_eq!(
        ex.inspect(&sample, &[0, 0, 0, 1, 0x09]),
        Ok(NalUnit { unit_type: Some(UnitType::AccessUnitDelimiter), length: 1 })
    );
}

#[test]
fn only_nal_failures_let_a_scan_go_on() {
    assert!(!InspectError::TruncatedNal { sample_index: 1, byte_offset: 2, size: 3 }.is_fatal());
    assert!(!InspectError::IncompleteNal { sample_index: 1, byte_offset: 2, size: 3 }.is_fatal());
    assert!(InspectError::IoError { offset: 0 }.is_fatal());
    assert!(InspectError::MalformedBox { box_type: 0, offset: 0 }.is_fatal());
    assert!(InspectError::InconsistentSampleTable { sample_index: 0, chunk_index: 0 }.is_fatal());
}
