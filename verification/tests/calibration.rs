use sd2_telem::config_info::{ConfigInfo, SuspensionRemapInfo};
use sd2_telem::rat::Rat;
use sd2_telem::TelemetryError;

fn record_10_910() -> SuspensionRemapInfo {
    let mut rec = SuspensionRemapInfo::default();
    rec.calc_vals_from_min_and_max(10, 910).unwrap();
    rec
}

#[test]
fn calc_vals_derives_scale_and_offset() {
    // default_range = 1024 over an observed span of 900.
    let rec = record_10_910();
    assert!(rec.scale.eq_val(&Rat::new(1024, 900)));
    assert!(rec.offset.eq_val(&Rat::new(-10240, 900)));
    assert_eq!(rec.stroke_len, Rat::from_int(100));
}

#[test]
fn remap_sends_observed_bounds_to_mapped_range() {
    let rec = record_10_910();
    let lo = rec.remap(&Rat::from_int(10));
    let hi = rec.remap(&Rat::from_int(910));
    assert!(lo.eq_val(&Rat::from_int(0)));
    assert!(hi.eq_val(&Rat::from_int(100)));
}

#[test]
fn remap_of_default_record_scales_by_stroke_len() {
    let rec = SuspensionRemapInfo::default();
    // (512 * 1 + 0) * 100 / 1024 == 50
    let mid = rec.remap(&Rat::from_int(512));
    assert!(mid.eq_val(&Rat::new(50, 1)));
}

#[test]
fn round_trip_is_exact() {
    let rec = record_10_910();
    for x in [0i64, 7, 10, 123, 910, 1024, 4095] {
        let v = Rat::from_int(x);
        let back = rec.inverse(&rec.remap(&v));
        assert!(back.eq_val(&v));
    }
}

#[test]
fn round_trip_without_stroke_len_scale_is_exact() {
    let rec = record_10_910();
    let v = Rat::new(333, 7);
    let back = rec.inverse_without_stroke_len_scale(&rec.remap_without_stroke_len_scale(&v));
    assert!(back.eq_val(&v));
}

#[test]
fn degenerate_bounds_are_rejected() {
    let mut rec = SuspensionRemapInfo::default();
    let before = rec;
    let r = rec.calc_vals_from_min_and_max(500, 500);
    assert_eq!(r, Err(TelemetryError::InvalidCalibrationBounds));
    assert_eq!(rec, before);
}

#[test]
fn remap_with_clamp_stays_inside_the_range() {
    let rec = SuspensionRemapInfo::default();
    let lo = Rat::from_int(0);
    let hi = Rat::from_int(100);
    // remap(2000) = 2000 * 100 / 1024, which is above the clamp ceiling.
    let clamped = rec.remap_with_clamp(&Rat::from_int(2000), &lo, &hi);
    assert!(clamped.eq_val(&Rat::from_int(100)));
    let inside = rec.remap_with_clamp(&Rat::from_int(512), &lo, &hi);
    assert!(inside.eq_val(&Rat::from_int(50)));
}

#[test]
fn min_and_max_are_the_remapped_nominal_bounds() {
    let rec = SuspensionRemapInfo::default();
    assert!(rec.min().eq_val(&Rat::from_int(0)));
    assert!(rec.max().eq_val(&Rat::from_int(100)));
}

#[test]
fn config_info_stores_and_replaces_records() {
    let mut cfg = ConfigInfo::load_blank();
    assert!(cfg.get_sus_remap_info(&"front".to_string()).is_none());

    let a = SuspensionRemapInfo::default();
    let b = record_10_910();
    cfg.add_sus_remap_info("front".to_string(), a);
    cfg.add_sus_remap_info("rear".to_string(), b);
    assert_eq!(cfg.get_sus_remap_info(&"front".to_string()), Some(a));
    assert_eq!(cfg.get_sus_remap_info(&"rear".to_string()), Some(b));

    cfg.set_sus_remap_info("front".to_string(), b);
    assert_eq!(cfg.get_sus_remap_info(&"front".to_string()), Some(b));
    assert_eq!(cfg.get_sus_remap_info(&"rear".to_string()), Some(b));
    assert!(cfg.get_sus_remap_info(&"other".to_string()).is_none());
}

#[test]
fn record_well_formedness_is_checkable() {
    let rec = SuspensionRemapInfo::default();
    assert!(rec.is_well_formed());
    assert!(rec.is_invertible());
    let mut broken = rec;
    broken.scale = Rat::from_int(0);
    assert!(!broken.is_invertible());
}
