use dolby_vision::bits::{reader_new, writer_bytes, writer_new};
use dolby_vision::blocks::ExtMetadataBlock;
use dolby_vision::dm_data::{CmVersion, DmData};
use dolby_vision::error::RpuError;
use dolby_vision::generate::{
    GenerateConfig, GeneratedFrame, ShotFrameEdit, TargetDisplay, VideoShot,
};
use dolby_vision::level10::ExtMetadataBlockLevel10;
use dolby_vision::level8::ExtMetadataBlockLevel8;
use dolby_vision::level9::ExtMetadataBlockLevel9;
use dolby_vision::levels::{
    ExtMetadataBlockLevel1, ExtMetadataBlockLevel11, ExtMetadataBlockLevel2,
    ExtMetadataBlockLevel3, ExtMetadataBlockLevel4, ExtMetadataBlockLevel5,
    ExtMetadataBlockLevel6,
};

fn mastering_l6() -> ExtMetadataBlockLevel6 {
    ExtMetadataBlockLevel6 {
        max_display_mastering_luminance: 1000,
        min_display_mastering_luminance: 1,
        max_content_light_level: 1000,
        max_frame_average_light_level: 400,
    }
}

fn level2(target_max_pq: u16, slope: u16, offset: u16, power: u16) -> ExtMetadataBlock {
    ExtMetadataBlock::Level2(ExtMetadataBlockLevel2 {
        trim_slope: slope,
        trim_offset: offset,
        trim_power: power,
        ..ExtMetadataBlockLevel2::from_pq(target_max_pq)
    })
}

fn get_block(d: &DmData, level: u8) -> &ExtMetadataBlock {
    d.get_block(level).unwrap()
}

fn level2_blocks(d: &DmData) -> Vec<ExtMetadataBlockLevel2> {
    d.blocks_ref()
        .iter()
        .filter_map(|b| match b {
            ExtMetadataBlock::Level2(l2) => Some(*l2),
            _ => None,
        })
        .collect()
}

fn encode(d: &DmData) -> Vec<u8> {
    let mut w = writer_new();
    d.write(&mut w).unwrap();
    writer_bytes(&w)
}

fn reparse(frame: &GeneratedFrame) -> bool {
    let v29 = DmData::parse(&mut reader_new(encode(&frame.cmv29_metadata)), CmVersion::V29);
    let v40_ok = match &frame.cmv40_metadata {
        Some(d) => DmData::parse(&mut reader_new(encode(d)), CmVersion::V40).is_ok(),
        None => true,
    };
    v29.is_ok() && v40_ok
}

#[test]
fn generated_rpu() {
    // A 600-nit target display has the PQ codeword 2851.
    let config = GenerateConfig {
        length: 1000,
        source_min_pq: None,
        source_max_pq: None,
        level5: ExtMetadataBlockLevel5::from_offsets(0, 0, 280, 280),
        level6: mastering_l6(),
        default_metadata_blocks: vec![ExtMetadataBlock::Level2(ExtMetadataBlockLevel2::from_pq(
            2851,
        ))],
        ..Default::default()
    };

    let rpu = config.generate_frame(0).unwrap();

    assert_eq!(rpu.source_min_pq, 7);
    assert_eq!(rpu.source_max_pq, 3079);

    if let ExtMetadataBlock::Level2(b) = get_block(&rpu.cmv29_metadata, 2) {
        assert_eq!(b.target_max_pq, 2851);
    } else {
        panic!("no L2");
    }

    assert!(reparse(&rpu));
}

#[test]
fn cmv40_full_rpu() {
    let mut config = GenerateConfig {
        length: 10,
        source_min_pq: None,
        source_max_pq: None,
        level5: ExtMetadataBlockLevel5::from_offsets(0, 0, 280, 280),
        level6: mastering_l6(),
        default_metadata_blocks: vec![ExtMetadataBlock::Level2(ExtMetadataBlockLevel2::from_pq(
            2851,
        ))],
        ..Default::default()
    };

    // Single shot with L3, L4, L8, L9 and L11 metadata
    config.shots.push(VideoShot {
        start: 0,
        duration: 10,
        metadata_blocks: vec![
            ExtMetadataBlock::Level1(ExtMetadataBlockLevel1 {
                min_pq: 0,
                max_pq: 2081,
                avg_pq: 819,
            }),
            ExtMetadataBlock::Level3(ExtMetadataBlockLevel3 {
                min_pq_offset: 2048,
                max_pq_offset: 2048,
                avg_pq_offset: 2048,
            }),
            ExtMetadataBlock::Level4(ExtMetadataBlockLevel4 {
                anchor_pq: 0,
                anchor_power: 0,
            }),
            ExtMetadataBlock::Level8(ExtMetadataBlockLevel8 {
                target_display_index: 255,
                ..Default::default()
            }),
            ExtMetadataBlock::Level9(ExtMetadataBlockLevel9 {
                source_primary_index: 0,
                ..Default::default()
            }),
            ExtMetadataBlock::Level10(ExtMetadataBlockLevel10 {
                target_display_index: 255,
                target_max_pq: 3000,
                target_min_pq: 0,
                target_primary_index: 2,
                ..Default::default()
            }),
            ExtMetadataBlock::Level11(ExtMetadataBlockLevel11::default_reference_cinema()),
        ],
        ..Default::default()
    });

    let rpus = config.generate_rpu_list().unwrap();
    assert_eq!(rpus.len(), config.length);

    let encoded_rpus: Vec<Vec<u8>> = rpus.iter().map(|r| encode(&r.cmv29_metadata)).collect();
    assert_eq!(encoded_rpus.len(), config.length);

    let vdr_dm_data = &rpus[0];
    assert_eq!(vdr_dm_data.source_min_pq, 7);
    assert_eq!(vdr_dm_data.source_max_pq, 3079);

    if let ExtMetadataBlock::Level2(b) = get_block(&vdr_dm_data.cmv29_metadata, 2) {
        assert_eq!(b.target_max_pq, 2851);
    } else {
        panic!("no L2");
    }

    let reparsed_rpus = rpus.iter().filter(|r| reparse(r)).count();
    assert_eq!(reparsed_rpus, config.length);
}

#[test]
fn generate_default_cmv29() {
    let config = GenerateConfig {
        cm_version: CmVersion::V29,
        length: 10,
        level6: mastering_l6(),
        ..Default::default()
    };

    let rpus = config.generate_rpu_list().unwrap();
    assert_eq!(rpus.len(), 10);

    let vdr_dm_data = &rpus[0];

    assert_eq!(vdr_dm_data.scene_refresh_flag, 1);

    // Only L5 and L6
    assert_eq!(vdr_dm_data.cmv29_metadata.blocks_ref().len(), 2);
    // No CM v4.0
    assert!(vdr_dm_data.cmv40_metadata.is_none());

    if let ExtMetadataBlock::Level5(level5) = get_block(&vdr_dm_data.cmv29_metadata, 5) {
        assert_eq!(level5.get_offsets(), (0, 0, 0, 0));
    } else {
        panic!("no L5");
    }

    if let ExtMetadataBlock::Level6(level6) = get_block(&vdr_dm_data.cmv29_metadata, 6) {
        assert_eq!(level6.min_display_mastering_luminance, 1);
        assert_eq!(level6.max_display_mastering_luminance, 1000);
        assert_eq!(level6.max_content_light_level, 1000);
        assert_eq!(level6.max_frame_average_light_level, 400);
    } else {
        panic!("no L6");
    }
}

#[test]
fn generate_default_cmv40() {
    let config = GenerateConfig {
        cm_version: CmVersion::V40,
        length: 10,
        level6: mastering_l6(),
        ..Default::default()
    };

    let rpus = config.generate_rpu_list().unwrap();
    assert_eq!(rpus.len(), 10);

    let vdr_dm_data = &rpus[0];

    assert_eq!(vdr_dm_data.scene_refresh_flag, 1);

    // Only L5 and L6
    assert_eq!(vdr_dm_data.cmv29_metadata.blocks_ref().len(), 2);
    // Only L11 and L254
    let cmv40 = vdr_dm_data.cmv40_metadata.as_ref().unwrap();
    assert_eq!(cmv40.blocks_ref().len(), 2);

    if let ExtMetadataBlock::Level5(level5) = get_block(&vdr_dm_data.cmv29_metadata, 5) {
        assert_eq!(level5.get_offsets(), (0, 0, 0, 0));
    } else {
        panic!("no L5");
    }

    if let ExtMetadataBlock::Level6(level6) = get_block(&vdr_dm_data.cmv29_metadata, 6) {
        assert_eq!(level6.min_display_mastering_luminance, 1);
        assert_eq!(level6.max_display_mastering_luminance, 1000);
        assert_eq!(level6.max_content_light_level, 1000);
        assert_eq!(level6.max_frame_average_light_level, 400);
    } else {
        panic!("no L6");
    }

    if let ExtMetadataBlock::Level11(level11) = get_block(cmv40, 11) {
        assert_eq!(level11.content_type, 1);
        assert_eq!(level11.whitepoint, 0);
        assert_eq!(level11.reference_mode_flag, true);
    } else {
        panic!("no L11");
    }
}

#[test]
fn generate_full() {
    let config = GenerateConfig {
        cm_version: CmVersion::V40,
        length: 10,
        level5: ExtMetadataBlockLevel5::from_offsets(0, 0, 40, 40),
        level6: mastering_l6(),
        default_metadata_blocks: vec![
            level2(2851, 2048, 2048, 1800),
            level2(3079, 2048, 2048, 2048),
            ExtMetadataBlock::Level9(ExtMetadataBlockLevel9 {
                source_primary_index: 0,
                source_primaries: None,
            }),
            ExtMetadataBlock::Level11(ExtMetadataBlockLevel11 {
                content_type: 4,
                ..ExtMetadataBlockLevel11::default_reference_cinema()
            }),
        ],
        shots: vec![VideoShot {
            start: 0,
            duration: 10,
            metadata_blocks: vec![ExtMetadataBlock::Level1(ExtMetadataBlockLevel1::from_stats(
                0, 2081, 819,
            ))],
            frame_edits: vec![],
        }],
        ..Default::default()
    };

    let rpus = config.generate_rpu_list().unwrap();
    assert_eq!(rpus.len(), 10);

    let vdr_dm_data = &rpus[0];

    assert_eq!(vdr_dm_data.scene_refresh_flag, 1);

    // L1, L2 * 2, L5, L6
    assert_eq!(vdr_dm_data.cmv29_metadata.blocks_ref().len(), 5);
    // Only L9, L11 and L254
    let cmv40 = vdr_dm_data.cmv40_metadata.as_ref().unwrap();
    assert_eq!(cmv40.blocks_ref().len(), 3);

    if let ExtMetadataBlock::Level5(level5) = get_block(&vdr_dm_data.cmv29_metadata, 5) {
        assert_eq!(level5.get_offsets(), (0, 0, 40, 40));
    } else {
        panic!("no L5");
    }

    if let ExtMetadataBlock::Level6(level6) = get_block(&vdr_dm_data.cmv29_metadata, 6) {
        assert_eq!(level6.min_display_mastering_luminance, 1);
        assert_eq!(level6.max_display_mastering_luminance, 1000);
        assert_eq!(level6.max_content_light_level, 1000);
        assert_eq!(level6.max_frame_average_light_level, 400);
    } else {
        panic!("no L6");
    }

    // From default blocks
    let level2s = level2_blocks(&vdr_dm_data.cmv29_metadata);
    assert_eq!(level2s.len(), 2);

    assert_eq!(level2s[0].target_max_pq, 2851);
    assert_eq!(level2s[0].trim_slope, 2048);
    assert_eq!(level2s[0].trim_offset, 2048);
    assert_eq!(level2s[0].trim_power, 1800);
    assert_eq!(level2s[0].trim_chroma_weight, 2048);
    assert_eq!(level2s[0].trim_saturation_gain, 2048);
    assert_eq!(level2s[0].ms_weight, 2048);

    assert_eq!(level2s[1].target_max_pq, 3079);
    assert_eq!(level2s[1].trim_slope, 2048);
    assert_eq!(level2s[1].trim_offset, 2048);
    assert_eq!(level2s[1].trim_power, 2048);
    assert_eq!(level2s[1].trim_chroma_weight, 2048);
    assert_eq!(level2s[1].trim_saturation_gain, 2048);
    assert_eq!(level2s[1].ms_weight, 2048);

    // From default blocks
    if let ExtMetadataBlock::Level9(level9) = get_block(cmv40, 9) {
        assert_eq!(level9.source_primary_index, 0);
    } else {
        panic!("no L9");
    }

    // Default block L11 overrides
    if let ExtMetadataBlock::Level11(level11) = get_block(cmv40, 11) {
        assert_eq!(level11.content_type, 4);
        assert_eq!(level11.whitepoint, 0);
        assert_eq!(level11.reference_mode_flag, true);
    } else {
        panic!("no L11");
    }
}

#[test]
fn generate_full_hdr10plus() {
    // The per-shot L1 statistics stand in the shots themselves.
    let config = GenerateConfig {
        cm_version: CmVersion::V40,
        length: 9,
        level6: mastering_l6(),
        default_metadata_blocks: vec![ExtMetadataBlock::Level9(ExtMetadataBlockLevel9 {
            source_primary_index: 0,
            source_primaries: None,
        })],
        shots: vec![
            VideoShot {
                start: 0,
                duration: 3,
                metadata_blocks: vec![
                    ExtMetadataBlock::Level1(ExtMetadataBlockLevel1::from_stats(0, 3337, 2097)),
                    level2(2851, 2048, 2048, 1800),
                ],
                frame_edits: vec![],
            },
            VideoShot {
                start: 3,
                duration: 3,
                metadata_blocks: vec![
                    ExtMetadataBlock::Level1(ExtMetadataBlockLevel1::from_stats(0, 3401, 1609)),
                    level2(2851, 1400, 1234, 1800),
                    ExtMetadataBlock::Level5(ExtMetadataBlockLevel5::from_offsets(0, 0, 276, 276)),
                ],
                frame_edits: vec![ShotFrameEdit {
                    edit_offset: 2,
                    metadata_blocks: vec![
                        level2(2851, 1999, 1999, 1999),
                        level2(3079, 2048, 2048, 2048),
                    ],
                }],
            },
            VideoShot {
                start: 6,
                duration: 3,
                metadata_blocks: vec![ExtMetadataBlock::Level1(
                    ExtMetadataBlockLevel1::from_stats(0, 3000, 1500),
                )],
                frame_edits: vec![],
            },
        ],
        ..Default::default()
    };
    assert_eq!(config.shots.len(), 3);

    let rpus = config.generate_rpu_list().unwrap();
    assert_eq!(rpus.len(), 9);

    let shot1 = &rpus[0];
    assert_eq!(shot1.scene_refresh_flag, 1);

    // Only L1, L2 and L5 and L6
    assert_eq!(shot1.cmv29_metadata.blocks_ref().len(), 4);
    // Only L9, L11 and L254
    assert_eq!(shot1.cmv40_metadata.as_ref().unwrap().blocks_ref().len(), 3);

    if let ExtMetadataBlock::Level1(level1) = get_block(&shot1.cmv29_metadata, 1) {
        assert_eq!(level1.min_pq, 0);
        assert_eq!(level1.max_pq, 3337);
        assert_eq!(level1.avg_pq, 2097);
    } else {
        panic!("no L1");
    }

    // From shot blocks
    let shot1_level2 = level2_blocks(&shot1.cmv29_metadata);
    assert_eq!(shot1_level2.len(), 1);
    assert_eq!(shot1_level2[0].target_max_pq, 2851);
    assert_eq!(shot1_level2[0].trim_slope, 2048);
    assert_eq!(shot1_level2[0].trim_offset, 2048);
    assert_eq!(shot1_level2[0].trim_power, 1800);
    assert_eq!(shot1_level2[0].trim_chroma_weight, 2048);
    assert_eq!(shot1_level2[0].trim_saturation_gain, 2048);
    assert_eq!(shot1_level2[0].ms_weight, 2048);

    if let ExtMetadataBlock::Level5(level5) = get_block(&shot1.cmv29_metadata, 5) {
        assert_eq!(level5.get_offsets(), (0, 0, 0, 0));
    } else {
        panic!("no L5");
    }

    let shot2 = &rpus[3];
    assert_eq!(shot2.scene_refresh_flag, 1);

    // Only L1, L2, L5 and L6
    assert_eq!(shot2.cmv29_metadata.blocks_ref().len(), 4);
    // Only L9, L11 and L254
    assert_eq!(shot2.cmv40_metadata.as_ref().unwrap().blocks_ref().len(), 3);

    if let ExtMetadataBlock::Level1(level1) = get_block(&shot2.cmv29_metadata, 1) {
        assert_eq!(level1.min_pq, 0);
        assert_eq!(level1.max_pq, 3401);
        assert_eq!(level1.avg_pq, 1609);
    } else {
        panic!("no L1");
    }

    // From shot blocks
    let shot2_level2 = level2_blocks(&shot2.cmv29_metadata);
    assert_eq!(shot2_level2.len(), 1);
    assert_eq!(shot2_level2[0].target_max_pq, 2851);
    assert_eq!(shot2_level2[0].trim_slope, 1400);
    assert_eq!(shot2_level2[0].trim_offset, 1234);
    assert_eq!(shot2_level2[0].trim_power, 1800);
    assert_eq!(shot2_level2[0].trim_chroma_weight, 2048);
    assert_eq!(shot2_level2[0].trim_saturation_gain, 2048);
    assert_eq!(shot2_level2[0].ms_weight, 2048);

    if let ExtMetadataBlock::Level5(level5) = get_block(&shot2.cmv29_metadata, 5) {
        assert_eq!(level5.get_offsets(), (0, 0, 276, 276));
    } else {
        panic!("no L5");
    }

    if let ExtMetadataBlock::Level6(level6) = get_block(&shot2.cmv29_metadata, 6) {
        assert_eq!(level6.min_display_mastering_luminance, 1);
        assert_eq!(level6.max_display_mastering_luminance, 1000);
        assert_eq!(level6.max_content_light_level, 1000);
        assert_eq!(level6.max_frame_average_light_level, 400);
    } else {
        panic!("no L6");
    }

    let edit = &rpus[5];
    assert_eq!(edit.scene_refresh_flag, 0);

    // Only L1, L2 * 2, L5 and L6
    assert_eq!(edit.cmv29_metadata.blocks_ref().len(), 5);
    // Only L9, L11 and L254
    assert_eq!(edit.cmv40_metadata.as_ref().unwrap().blocks_ref().len(), 3);

    if let ExtMetadataBlock::Level1(level1) = get_block(&edit.cmv29_metadata, 1) {
        assert_eq!(level1.min_pq, 0);
        assert_eq!(level1.max_pq, 3401);
        assert_eq!(level1.avg_pq, 1609);
    } else {
        panic!("no L1");
    }

    // From edit blocks
    let edit_level2 = level2_blocks(&edit.cmv29_metadata);
    assert_eq!(edit_level2.len(), 2);

    // Replaced same target display trim
    assert_eq!(edit_level2[0].target_max_pq, 2851);
    assert_eq!(edit_level2[0].trim_slope, 1999);
    assert_eq!(edit_level2[0].trim_offset, 1999);
    assert_eq!(edit_level2[0].trim_power, 1999);
    assert_eq!(edit_level2[0].trim_chroma_weight, 2048);
    assert_eq!(edit_level2[0].trim_saturation_gain, 2048);
    assert_eq!(edit_level2[0].ms_weight, 2048);

    assert_eq!(edit_level2[1].target_max_pq, 3079);
    assert_eq!(edit_level2[1].trim_slope, 2048);
    assert_eq!(edit_level2[1].trim_offset, 2048);
    assert_eq!(edit_level2[1].trim_power, 2048);
    assert_eq!(edit_level2[1].trim_chroma_weight, 2048);
    assert_eq!(edit_level2[1].trim_saturation_gain, 2048);
    assert_eq!(edit_level2[1].ms_weight, 2048);
}

#[test]
fn cmv40_derives_one_l2_per_l8_target() {
    let config = GenerateConfig {
        cm_version: CmVersion::V40,
        length: 2,
        level6: mastering_l6(),
        default_metadata_blocks: vec![
            ExtMetadataBlock::Level8(ExtMetadataBlockLevel8 {
                target_display_index: 255,
                trim_slope: 1900,
                ..Default::default()
            }),
            ExtMetadataBlock::Level8(ExtMetadataBlockLevel8 {
                target_display_index: 48,
                ..Default::default()
            }),
            ExtMetadataBlock::Level10(ExtMetadataBlockLevel10 {
                target_display_index: 255,
                target_max_pq: 3000,
                target_min_pq: 0,
                target_primary_index: 2,
                target_primaries: None,
            }),
        ],
        target_displays: vec![TargetDisplay {
            target_display_index: 48,
            peak_nits: 1000,
        }],
        ..Default::default()
    };
    let frame = config.generate_frame(1).unwrap();
    let l2s = level2_blocks(&frame.cmv29_metadata);
    // target 255 takes its L10 peak, target 48 the peak of its configured display
    assert_eq!(l2s.len(), 2);
    assert_eq!(l2s[0].target_max_pq, 3000);
    assert_eq!(l2s[0].trim_slope, 1900);
    assert_eq!(l2s[1].target_max_pq, 3079);
    assert_eq!(frame.scene_refresh_flag, 0);
    // the L8 blocks themselves are untouched
    let cmv40 = frame.cmv40_metadata.as_ref().unwrap();
    let l8_count = cmv40
        .blocks_ref()
        .iter()
        .filter(|b| matches!(b, ExtMetadataBlock::Level8(_)))
        .count();
    assert_eq!(l8_count, 2);
}

#[test]
fn explicit_l2_is_not_derived_again() {
    let config = GenerateConfig {
        cm_version: CmVersion::V40,
        length: 1,
        level6: mastering_l6(),
        default_metadata_blocks: vec![
            level2(3079, 1000, 1000, 1000),
            ExtMetadataBlock::Level8(ExtMetadataBlockLevel8 {
                target_display_index: 48,
                ..Default::default()
            }),
        ],
        target_displays: vec![TargetDisplay {
            target_display_index: 48,
            peak_nits: 1000,
        }],
        ..Default::default()
    };
    let frame = config.generate_frame(0).unwrap();
    let l2s = level2_blocks(&frame.cmv29_metadata);
    assert_eq!(l2s.len(), 1);
    assert_eq!(l2s[0].trim_slope, 1000);
}

#[test]
fn configured_source_pq_and_standard_mastering() {
    let config = GenerateConfig {
        length: 1,
        source_min_pq: Some(62),
        level6: ExtMetadataBlockLevel6 {
            max_display_mastering_luminance: 4000,
            min_display_mastering_luminance: 50,
            max_content_light_level: 0,
            max_frame_average_light_level: 0,
        },
        ..Default::default()
    };
    let frame = config.generate_frame(0).unwrap();
    assert_eq!(frame.source_min_pq, 62);
    assert_eq!(frame.source_max_pq, 3696);
}

#[test]
fn derived_l2_takes_target_display_peak() {
    // a 100-nit target display on 1000-nit content
    let config = GenerateConfig {
        cm_version: CmVersion::V40,
        length: 1,
        level6: mastering_l6(),
        default_metadata_blocks: vec![ExtMetadataBlock::Level8(ExtMetadataBlockLevel8 {
            target_display_index: 1,
            ..Default::default()
        })],
        target_displays: vec![TargetDisplay {
            target_display_index: 1,
            peak_nits: 100,
        }],
        ..Default::default()
    };
    let frame = config.generate_frame(0).unwrap();
    let l2s = level2_blocks(&frame.cmv29_metadata);
    assert_eq!(l2s.len(), 1);
    assert_eq!(l2s[0].target_max_pq, 2081);
}

#[test]
fn unknown_target_display_fails() {
    let config = GenerateConfig {
        cm_version: CmVersion::V40,
        length: 3,
        level6: mastering_l6(),
        default_metadata_blocks: vec![ExtMetadataBlock::Level8(ExtMetadataBlockLevel8 {
            target_display_index: 27,
            ..Default::default()
        })],
        ..Default::default()
    };
    assert_eq!(config.generate_frame(0).err(), Some(RpuError::FieldOutOfRange));
    assert_eq!(config.generate_rpu_list().err(), Some(RpuError::FieldOutOfRange));
}

#[test]
fn non_standard_mastering_luminance_needs_source_pq() {
    let l6 = ExtMetadataBlockLevel6 {
        max_display_mastering_luminance: 1200,
        ..mastering_l6()
    };
    let config = GenerateConfig {
        cm_version: CmVersion::V29,
        length: 1,
        level6: l6,
        ..Default::default()
    };
    assert_eq!(config.generate_frame(0).err(), Some(RpuError::FieldOutOfRange));
    let config = GenerateConfig {
        source_max_pq: Some(3160),
        ..config
    };
    assert_eq!(config.generate_frame(0).unwrap().source_max_pq, 3160);
}
