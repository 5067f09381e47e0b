use dolby_vision::active_area::{calculate_level5_metadata, AspectRatio, XmlParserOpts};
use dolby_vision::bits::reader_new;
use dolby_vision::error::RpuError;
use dolby_vision::st2094_10::ST2094_10DmData;

fn uhd() -> XmlParserOpts {
    XmlParserOpts {
        canvas_width: Some(3840),
        canvas_height: Some(2160),
    }
}

const WIDESCREEN: AspectRatio = AspectRatio { num: 16, den: 9 };

#[test]
fn scope_image_on_uhd_canvas() {
    // 2160 * (16/9) / 2.39 = 1606.69, so the image is 1607 rows high
    let l5 = calculate_level5_metadata(&uhd(), WIDESCREEN, AspectRatio { num: 239, den: 100 })
        .unwrap();
    assert_eq!(l5.get_offsets(), (0, 0, 276, 277));
}

#[test]
fn equal_ratios_give_no_offsets() {
    let l5 = calculate_level5_metadata(&uhd(), WIDESCREEN, AspectRatio { num: 32, den: 18 })
        .unwrap();
    assert_eq!(l5.get_offsets(), (0, 0, 0, 0));
}

#[test]
fn narrow_image_is_pillarboxed() {
    // 3840 * (4/3) / (16/9) = 2880, 960 columns of bars
    let l5 = calculate_level5_metadata(&uhd(), WIDESCREEN, AspectRatio { num: 4, den: 3 }).unwrap();
    assert_eq!(l5.get_offsets(), (480, 480, 0, 0));
}

#[test]
fn odd_difference_splits_smaller_half_first() {
    let opts = XmlParserOpts {
        canvas_width: Some(1920),
        canvas_height: Some(1081),
    };
    // 1081 * (16/9) / 2 = 960.9, rounded 961, difference 120
    let l5 = calculate_level5_metadata(&opts, WIDESCREEN, AspectRatio { num: 2, den: 1 }).unwrap();
    assert_eq!(l5.get_offsets(), (0, 0, 60, 60));
    // 1081 * (16/9) / 2.4 = 800.7, rounded 801, difference 280
    let l5 = calculate_level5_metadata(&opts, WIDESCREEN, AspectRatio { num: 12, den: 5 }).unwrap();
    assert_eq!(l5.get_offsets(), (0, 0, 140, 140));
    // 1080 * (16/9) / 2.35 = 817.02, difference 263
    let opts = XmlParserOpts {
        canvas_width: Some(1920),
        canvas_height: Some(1080),
    };
    let l5 = calculate_level5_metadata(&opts, WIDESCREEN, AspectRatio { num: 47, den: 20 }).unwrap();
    assert_eq!(l5.get_offsets(), (0, 0, 131, 132));
}

#[test]
fn missing_canvas() {
    let opts = XmlParserOpts {
        canvas_width: Some(3840),
        canvas_height: None,
    };
    let r = calculate_level5_metadata(&opts, WIDESCREEN, AspectRatio { num: 239, den: 100 });
    assert_eq!(r.err(), Some(RpuError::MissingCanvasDimensions));
    let r = calculate_level5_metadata(&XmlParserOpts::default(), WIDESCREEN, WIDESCREEN);
    assert_eq!(r.err(), Some(RpuError::MissingCanvasDimensions));
}

#[test]
fn st2094_10_without_refresh() {
    // app_identifier ue(1) = 010, app_version ue(0) = 1, flag 0
    let m = ST2094_10DmData::parse(&mut reader_new(vec![0x50])).unwrap();
    assert_eq!(m.app_identifier, 1);
    assert_eq!(m.app_version, 0);
    assert!(!m.metadata_refresh_flag);
    assert!(m.dm_data.is_none());
}

#[test]
fn st2094_10_with_envelope() {
    // 010 1 1, then ue(0) = 1 for no blocks, then 2 alignment zeros
    let m = ST2094_10DmData::parse(&mut reader_new(vec![0x5C])).unwrap();
    assert!(m.metadata_refresh_flag);
    let d = m.dm_data.unwrap();
    assert_eq!(d.num_ext_blocks(), 0);
}

#[test]
fn st2094_10_envelope_error_passed_on() {
    // the alignment bit after the envelope's count is 1
    let r = ST2094_10DmData::parse(&mut reader_new(vec![0x5D]));
    assert_eq!(r.err(), Some(dolby_vision::error::RpuError::AlignmentNonZero));
}
