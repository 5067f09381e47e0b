use dolby_vision::bits::{
    read_bits, read_ue, reader_new, write_bits, write_ue, writer_bytes, writer_new,
};
use dolby_vision::blocks::{ExtMetadataBlock, ExtMetadataBlockInfo, ReservedExtMetadataBlock};
use dolby_vision::dm_data::{
    is_allowed_level, is_variable_length_level, parse_block, CmVersion, DmData,
};
use dolby_vision::error::RpuError;
use dolby_vision::level10::ExtMetadataBlockLevel10;
use dolby_vision::level8::ExtMetadataBlockLevel8;
use dolby_vision::level9::ExtMetadataBlockLevel9;
use dolby_vision::levels::{
    ExtMetadataBlockLevel1, ExtMetadataBlockLevel11, ExtMetadataBlockLevel2,
    ExtMetadataBlockLevel254, ExtMetadataBlockLevel5, ExtMetadataBlockLevel6,
};

fn envelope(version: CmVersion, blocks: Vec<ExtMetadataBlock>) -> DmData {
    DmData::from_blocks(version, blocks)
}

fn write_envelope(d: &DmData) -> Vec<u8> {
    let mut w = writer_new();
    d.write(&mut w).unwrap();
    writer_bytes(&w)
}

fn full_l8() -> ExtMetadataBlockLevel8 {
    ExtMetadataBlockLevel8 {
        target_mid_contrast: Some(2048),
        clip_trim: Some(2048),
        saturation_vector: Some([128; 6]),
        hue_vector: Some([128; 6]),
        ..Default::default()
    }
}

#[test]
fn l5_zero_offsets_in_cmv29_envelope() {
    let l5 = ExtMetadataBlock::Level5(ExtMetadataBlockLevel5::from_offsets(0, 0, 0, 0));
    assert_eq!(l5.length_bytes(), 7);
    assert_eq!(l5.required_bits(), 52);
    let d = envelope(CmVersion::V29, vec![l5]);
    // ue(1) = 010, 5 alignment zeros, ue(7) = 0001000, level 5, 52 + 4 zero bits
    let bytes = write_envelope(&d);
    assert_eq!(bytes, vec![0x40, 0x10, 0x0A, 0, 0, 0, 0, 0, 0, 0]);

    let parsed = DmData::parse(&mut reader_new(bytes), CmVersion::V29).unwrap();
    assert_eq!(parsed.num_ext_blocks(), 1);
    match &parsed.blocks_ref()[0] {
        ExtMetadataBlock::Level5(b) => assert_eq!(b.get_offsets(), (0, 0, 0, 0)),
        _ => panic!("not L5"),
    }
}

#[test]
fn l6_mastering_round_trip() {
    let l6 = ExtMetadataBlockLevel6 {
        max_display_mastering_luminance: 1000,
        min_display_mastering_luminance: 1,
        max_content_light_level: 1000,
        max_frame_average_light_level: 400,
    };
    let block = ExtMetadataBlock::Level6(l6);
    assert_eq!(block.length_bytes(), 8);
    let bytes = write_envelope(&envelope(CmVersion::V29, vec![block]));
    // ue(1) and alignment, ue(8), level 6, then 1000, 1, 1000 and 400 in 16 bits each
    assert_eq!(
        bytes,
        vec![0x40, 0x12, 0x0C, 0x07, 0xD0, 0x00, 0x02, 0x07, 0xD0, 0x03, 0x20]
    );

    let parsed = DmData::parse(&mut reader_new(bytes.clone()), CmVersion::V29).unwrap();
    match &parsed.blocks_ref()[0] {
        ExtMetadataBlock::Level6(b) => assert_eq!(*b, l6),
        _ => panic!("not L6"),
    }
    assert_eq!(write_envelope(&parsed), bytes);
}

#[test]
fn l8_minimum_form() {
    let l8 = ExtMetadataBlock::Level8(ExtMetadataBlockLevel8 {
        target_display_index: 1,
        ..Default::default()
    });
    assert_eq!(l8.length_bytes(), 10);
    assert_eq!(l8.required_bits(), 80);
}

#[test]
fn l8_full_form() {
    let l8 = ExtMetadataBlock::Level8(full_l8());
    assert_eq!(l8.length_bytes(), 25);
    assert_eq!(l8.required_bits(), 200);
    assert_eq!(l8.length_bits(), 200);
}

#[test]
fn l8_intermediate_forms() {
    let mid = ExtMetadataBlockLevel8 {
        target_mid_contrast: Some(2048),
        ..Default::default()
    };
    assert_eq!(mid.bytes_size(), 12);
    assert_eq!(mid.required_bits(), 92);
    let clip = ExtMetadataBlockLevel8 {
        clip_trim: Some(2048),
        ..mid
    };
    assert_eq!(clip.bytes_size(), 13);
    assert_eq!(clip.required_bits(), 104);
    let sat = ExtMetadataBlockLevel8 {
        saturation_vector: Some([128; 6]),
        ..clip
    };
    assert_eq!(sat.bytes_size(), 19);
    assert_eq!(sat.required_bits(), 152);
}

#[test]
fn l10_preset_target_rejected() {
    let l10 = ExtMetadataBlockLevel10 {
        target_display_index: 1,
        target_max_pq: 2081,
        target_min_pq: 0,
        target_primary_index: 0,
        target_primaries: None,
    };
    assert_eq!(l10.validate(), Err(RpuError::FieldOutOfRange));
    let custom = ExtMetadataBlockLevel10 {
        target_display_index: 2,
        ..l10
    };
    assert_eq!(custom.validate(), Ok(()));
}

#[test]
fn cmv40_round_trip_of_variable_blocks() {
    let blocks = vec![
        ExtMetadataBlock::Level8(full_l8()),
        ExtMetadataBlock::Level9(ExtMetadataBlockLevel9 {
            source_primary_index: 255,
            source_primaries: Some([1, 2, 3, 4, 5, 6, 7, 8]),
        }),
        ExtMetadataBlock::Level10(ExtMetadataBlockLevel10 {
            target_display_index: 255,
            target_max_pq: 3000,
            target_min_pq: 62,
            target_primary_index: 2,
            target_primaries: None,
        }),
        ExtMetadataBlock::Level11(ExtMetadataBlockLevel11::default_reference_cinema()),
        ExtMetadataBlock::Level254(ExtMetadataBlockLevel254::cmv402_default()),
    ];
    let bytes = write_envelope(&envelope(CmVersion::V40, blocks));
    let parsed = DmData::parse(&mut reader_new(bytes.clone()), CmVersion::V40).unwrap();
    assert_eq!(parsed.num_ext_blocks(), 5);
    let sizes: Vec<u64> = parsed.blocks_ref().iter().map(|b| b.length_bytes()).collect();
    assert_eq!(sizes, vec![25, 17, 5, 4, 2]);
    match &parsed.blocks_ref()[1] {
        ExtMetadataBlock::Level9(b) => {
            assert_eq!(b.source_primaries, Some([1, 2, 3, 4, 5, 6, 7, 8]))
        }
        _ => panic!("not L9"),
    }
    match &parsed.blocks_ref()[2] {
        ExtMetadataBlock::Level10(b) => {
            assert_eq!(b.target_max_pq, 3000);
            assert_eq!(b.target_min_pq, 62);
            assert!(b.target_primaries.is_none());
        }
        _ => panic!("not L10"),
    }
    assert_eq!(write_envelope(&parsed), bytes);
}

#[test]
fn l2_signed_weight_round_trip() {
    let l2 = ExtMetadataBlockLevel2 {
        ms_weight: -1,
        ..ExtMetadataBlockLevel2::from_pq(2851)
    };
    let block = ExtMetadataBlock::Level2(l2);
    assert_eq!(block.length_bytes(), 11);
    assert_eq!(block.required_bits(), 85);
    let bytes = write_envelope(&envelope(CmVersion::V29, vec![block]));
    let parsed = DmData::parse(&mut reader_new(bytes), CmVersion::V29).unwrap();
    match &parsed.blocks_ref()[0] {
        ExtMetadataBlock::Level2(b) => assert_eq!(*b, l2),
        _ => panic!("not L2"),
    }
}

#[test]
fn twelve_bit_fields_checked_on_write() {
    let l1 = ExtMetadataBlock::Level1(ExtMetadataBlockLevel1::from_stats(0, 5000, 100));
    assert_eq!(l1.validate(), Err(RpuError::FieldOutOfRange));
    let d = envelope(CmVersion::V29, vec![l1]);
    let mut w = writer_new();
    assert_eq!(d.write(&mut w), Err(RpuError::FieldOutOfRange));
    // nothing is written
    assert!(writer_bytes(&w).is_empty());
}

#[test]
fn l6_luminance_limit() {
    let l6 = ExtMetadataBlockLevel6 {
        max_display_mastering_luminance: 10001,
        min_display_mastering_luminance: 1,
        max_content_light_level: 0,
        max_frame_average_light_level: 0,
    };
    assert_eq!(l6.validate(), Err(RpuError::FieldOutOfRange));
}

#[test]
fn l8_inner_group_missing() {
    let l8 = ExtMetadataBlockLevel8 {
        clip_trim: Some(2048),
        ..Default::default()
    };
    assert_eq!(l8.validate(), Err(RpuError::InconsistentOptionals));
    let ok = ExtMetadataBlockLevel8 {
        target_mid_contrast: Some(2048),
        clip_trim: Some(2048),
        ..Default::default()
    };
    assert_eq!(ok.validate(), Ok(()));
}

#[test]
fn truncated_stream() {
    let r = DmData::parse(&mut reader_new(vec![]), CmVersion::V29);
    assert_eq!(r.err(), Some(RpuError::TruncatedStream));
    // one block announced, a length of 7 bytes, level 5, but only 2 payload bytes
    let r = DmData::parse(&mut reader_new(vec![0x40, 0x10, 0x0A, 0, 0]), CmVersion::V29);
    assert_eq!(r.err(), Some(RpuError::TruncatedStream));
}

#[test]
fn alignment_bit_set() {
    let r = DmData::parse(&mut reader_new(vec![0x41, 0x10, 0x0A, 0, 0, 0, 0, 0, 0, 0]), CmVersion::V29);
    assert_eq!(r.err(), Some(RpuError::AlignmentNonZero));
}

#[test]
fn trailing_padding_bit_set() {
    // the last of the 4 padding bits after the L5 payload is 1
    let mut bytes = vec![0x40, 0x10, 0x0A, 0, 0, 0, 0, 0, 0, 0];
    bytes[9] = 0x02;
    let r = DmData::parse(&mut reader_new(bytes), CmVersion::V29);
    assert_eq!(r.err(), Some(RpuError::AlignmentNonZero));
}

#[test]
fn invalid_block_length() {
    // ue(6) = 00111, then level 5
    let mut w = writer_new();
    write_ue(&mut w, 6);
    write_bits(&mut w, 5, 8);
    write_bits(&mut w, 0, 48);
    write_bits(&mut w, 0, 3);
    let r = parse_block(&mut reader_new(writer_bytes(&w)), CmVersion::V29);
    assert_eq!(r.err(), Some(RpuError::InvalidBlockLength));
}

#[test]
fn level_not_allowed_in_version() {
    let mut w = writer_new();
    write_ue(&mut w, 10);
    write_bits(&mut w, 8, 8);
    write_bits(&mut w, 0, 64);
    write_bits(&mut w, 0, 16);
    write_bits(&mut w, 0, 1);
    let bytes = writer_bytes(&w);
    let r = parse_block(&mut reader_new(bytes.clone()), CmVersion::V29);
    assert_eq!(r.err(), Some(RpuError::BlockLevelNotAllowed));
    let r = parse_block(&mut reader_new(bytes), CmVersion::V40);
    assert!(r.is_ok());
}

#[test]
fn exp_golomb_round_trip() {
    let values: Vec<u64> = vec![0, 1, 2, 3, 7, 8, 255, 256, 65535, 4294967295];
    let mut w = writer_new();
    for v in &values {
        write_ue(&mut w, *v);
    }
    // align for the byte view
    while !dolby_vision::bits::write_is_aligned(&w) {
        dolby_vision::bits::write_bit(&mut w, false);
    }
    let mut r = reader_new(writer_bytes(&w));
    for v in &values {
        assert_eq!(read_ue(&mut r), Ok(*v));
    }
}

#[test]
fn exp_golomb_codes() {
    let mut w = writer_new();
    write_ue(&mut w, 3);
    write_ue(&mut w, 0);
    write_bits(&mut w, 0, 2);
    // 00100 1 00
    assert_eq!(writer_bytes(&w), vec![0x24]);
    let mut r = reader_new(vec![0x24]);
    assert_eq!(read_ue(&mut r), Ok(3));
    assert_eq!(read_ue(&mut r), Ok(0));
    assert_eq!(read_bits(&mut r, 2), Ok(0));
    assert_eq!(read_bits(&mut r, 1), Err(RpuError::TruncatedStream));
}

#[test]
fn exp_golomb_too_long() {
    let mut r = reader_new(vec![0; 9]);
    assert_eq!(read_ue(&mut r), Err(RpuError::FieldOutOfRange));
}

#[test]
fn sizes_and_keys() {
    let l8 = ExtMetadataBlock::Level8(ExtMetadataBlockLevel8 {
        target_display_index: 48,
        target_mid_contrast: Some(2048),
        ..Default::default()
    });
    assert_eq!(l8.level(), 8);
    assert_eq!(l8.sort_key(), (8, 48));
    assert_eq!(l8.possible_length_bytes(), vec![10, 12, 13, 19, 25]);
    assert_eq!(l8.possible_required_bits(), vec![80, 92, 104, 152, 200]);
    assert_eq!(l8.possible_length_bits(), vec![80, 96, 104, 152, 200]);
    assert!(l8.possible_length_bytes().contains(&l8.length_bytes()));
    assert!(l8.length_bits() >= l8.required_bits());

    let l2 = ExtMetadataBlock::Level2(ExtMetadataBlockLevel2::from_pq(2081));
    assert_eq!(l2.sort_key(), (2, 2081));
    let l1 = ExtMetadataBlock::Level1(ExtMetadataBlockLevel1::from_stats(0, 0, 0));
    assert_eq!(l1.sort_key(), (1, 0));
    assert_eq!(l1.possible_length_bytes(), vec![5]);

    let reserved = ExtMetadataBlock::Reserved(ReservedExtMetadataBlock {
        ext_block_level: 200,
        data: vec![1, 2, 3],
    });
    assert_eq!(reserved.length_bytes(), 3);
    assert_eq!(reserved.required_bits(), 24);
    assert_eq!(reserved.level(), 200);
}

#[test]
fn reserved_block_written_unchanged() {
    let reserved = ExtMetadataBlock::Reserved(ReservedExtMetadataBlock {
        ext_block_level: 200,
        data: vec![0xAB, 0xCD],
    });
    let mut w = writer_new();
    reserved.write(&mut w).unwrap();
    assert_eq!(writer_bytes(&w), vec![0xAB, 0xCD]);
}

#[test]
fn add_block_keeps_order() {
    let mut d = envelope(CmVersion::V40, vec![]);
    d.add_block(ExtMetadataBlock::Level11(ExtMetadataBlockLevel11::default_reference_cinema()))
        .unwrap();
    d.add_block(ExtMetadataBlock::Level8(ExtMetadataBlockLevel8 {
        target_display_index: 48,
        ..Default::default()
    }))
    .unwrap();
    d.add_block(ExtMetadataBlock::Level8(ExtMetadataBlockLevel8 {
        target_display_index: 3,
        ..Default::default()
    }))
    .unwrap();
    d.add_block(ExtMetadataBlock::Level254(ExtMetadataBlockLevel254::cmv402_default()))
        .unwrap();
    let keys: Vec<(u8, u16)> = d.blocks_ref().iter().map(|b| b.sort_key()).collect();
    assert_eq!(keys, vec![(8, 3), (8, 48), (11, 0), (254, 0)]);
    assert_eq!(d.num_ext_blocks(), 4);

    d.remove_level(8);
    let keys: Vec<(u8, u16)> = d.blocks_ref().iter().map(|b| b.sort_key()).collect();
    assert_eq!(keys, vec![(11, 0), (254, 0)]);
    assert_eq!(d.num_ext_blocks(), 2);
}

#[test]
fn add_block_refusals() {
    let mut d = envelope(CmVersion::V29, vec![]);
    let r = d.add_block(ExtMetadataBlock::Level8(ExtMetadataBlockLevel8::default()));
    assert_eq!(r, Err(RpuError::BlockLevelNotAllowed));
    d.add_block(ExtMetadataBlock::Level5(ExtMetadataBlockLevel5::from_offsets(0, 0, 0, 0)))
        .unwrap();
    let r = d.add_block(ExtMetadataBlock::Level5(ExtMetadataBlockLevel5::from_offsets(1, 1, 0, 0)));
    assert_eq!(r, Err(RpuError::DuplicateBlock));
    assert_eq!(d.num_ext_blocks(), 1);
}

#[test]
fn validate_envelope() {
    let d = envelope(
        CmVersion::V29,
        vec![ExtMetadataBlock::Level8(ExtMetadataBlockLevel8::default())],
    );
    assert_eq!(d.validate(), Err(RpuError::BlockLevelNotAllowed));
    let d = envelope(
        CmVersion::V40,
        vec![ExtMetadataBlock::Level8(ExtMetadataBlockLevel8::default())],
    );
    assert_eq!(d.validate(), Ok(()));
}

#[test]
fn get_block_finds_first_of_level() {
    let d = envelope(
        CmVersion::V29,
        vec![
            ExtMetadataBlock::Level2(ExtMetadataBlockLevel2::from_pq(2081)),
            ExtMetadataBlock::Level2(ExtMetadataBlockLevel2::from_pq(2851)),
        ],
    );
    match d.get_block(2) {
        Some(ExtMetadataBlock::Level2(b)) => assert_eq!(b.target_max_pq, 2081),
        _ => panic!("no L2"),
    }
    assert!(d.get_block(6).is_none());
}

#[test]
fn block_info_of_each_level() {
    let l9 = ExtMetadataBlockLevel9 {
        source_primary_index: 255,
        source_primaries: Some([0; 8]),
    };
    assert_eq!(l9.level(), 9);
    assert_eq!(l9.bytes_size(), 17);
    assert_eq!(l9.required_bits(), 136);
    assert_eq!(l9.possible_bytes_size(), vec![1, 17]);
    assert_eq!(l9.possible_required_bits(), vec![8, 136]);
    let l10 = ExtMetadataBlockLevel10::default();
    assert_eq!(l10.bytes_size(), 5);
    assert_eq!(l10.required_bits(), 40);
    let l2 = ExtMetadataBlockLevel2::from_pq(3079);
    assert_eq!(l2.sort_key(), (2, 3079));
    assert_eq!(l2.bytes_size(), 11);
    let l254 = ExtMetadataBlockLevel254::cmv402_default();
    assert_eq!(l254.level(), 254);
    assert_eq!(l254.bytes_size(), 2);
    assert_eq!(l254.required_bits(), 16);
    let l11 = ExtMetadataBlockLevel11::default_reference_cinema();
    assert_eq!(l11.possible_bytes_size(), vec![4]);
    assert_eq!(l11.possible_required_bits(), vec![32]);
}

#[test]
fn version_level_tables() {
    let v29: Vec<u8> = (0..=255u8).filter(|l| is_allowed_level(CmVersion::V29, *l)).collect();
    assert_eq!(v29, vec![1, 2, 3, 4, 5, 6]);
    let v40: Vec<u8> = (0..=255u8).filter(|l| is_allowed_level(CmVersion::V40, *l)).collect();
    assert_eq!(v40, vec![3, 8, 9, 10, 11, 254]);
    let var40: Vec<u8> = (0..=255u8)
        .filter(|l| is_variable_length_level(CmVersion::V40, *l))
        .collect();
    assert_eq!(var40, vec![8, 9, 10]);
    assert!(!(0..=255u8).any(|l| is_variable_length_level(CmVersion::V29, l)));
}

#[test]
fn parsed_fields_are_the_bits_read() {
    // an L1 frame whose three 12-bit fields are all ones
    let mut w = writer_new();
    write_ue(&mut w, 0);
    write_bits(&mut w, 0, 7);
    write_ue(&mut w, 5);
    write_bits(&mut w, 1, 8);
    write_bits(&mut w, 0xFFFFFFFFF, 36);
    write_bits(&mut w, 0, 4);
    let bytes = writer_bytes(&w);
    let d = DmData::parse(&mut reader_new(bytes), CmVersion::V29);
    // count 0: nothing after the alignment is read
    assert_eq!(d.unwrap().num_ext_blocks(), 0);
    let mut w = writer_new();
    write_ue(&mut w, 5);
    write_bits(&mut w, 1, 8);
    write_bits(&mut w, 0xFFFFFFFFF, 36);
    write_bits(&mut w, 0, 4);
    let b = parse_block(&mut reader_new(writer_bytes(&w)), CmVersion::V29).unwrap();
    match b {
        ExtMetadataBlock::Level1(l1) => {
            assert_eq!((l1.min_pq, l1.max_pq, l1.avg_pq), (4095, 4095, 4095));
            assert_eq!(l1.validate(), Ok(()));
        }
        _ => panic!("not L1"),
    }
}

#[test]
fn truncated_frame_header() {
    // ue(5) = 00110 and only 3 bits of the level byte
    let r = parse_block(&mut reader_new(vec![0x30]), CmVersion::V29);
    assert_eq!(r.err(), Some(RpuError::TruncatedStream));
}
