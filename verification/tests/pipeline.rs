use sd2_telem::config_info::{ConfigInfo, SuspensionRemapInfo};
use sd2_telem::data::{
    build_channel, calibrate_milli, enumerated_with_transform, Channel, Data, MILLI,
};
use sd2_telem::graph::disp_vel_graph::DispVelGraph;
use sd2_telem::graph::line_manager::{LineManager, Point};
use sd2_telem::graph::suspension_graph::SuspensionGraph;
use sd2_telem::graph::wave_gen::WaveGen;
use sd2_telem::loader::Loader;
use sd2_telem::rat::Rat;
use sd2_telem::TelemetryError;

fn identity_record() -> SuspensionRemapInfo {
    // Observed bounds matching the nominal range: remap(v) = v * 100 / 1024.
    let mut rec = SuspensionRemapInfo::default();
    rec.calc_vals_from_min_and_max(0, 1024).unwrap();
    rec
}

#[test]
fn calibrate_milli_rounds_to_fixed_point() {
    let rec = identity_record();
    let samples = calibrate_milli(&vec![0, 512, 1024], &rec);
    // 512 * 100 / 1024 == 50 exactly.
    assert_eq!(samples, vec![0, 50 * MILLI, 100 * MILLI]);
    // 1000 * 100000 / 1024 == 97656.25, rounded down.
    assert_eq!(calibrate_milli(&vec![1000], &rec), vec![97656]);
}

#[test]
fn data_average_raw_is_the_exact_mean() {
    let data = Data::new();
    let m = data.data_average_raw(&vec![1, 2, 3]);
    assert!(m.eq_val(&Rat::from_int(2)));
    let e = data.data_average_raw(&Vec::new());
    assert!(e.eq_val(&Rat::from_int(0)));
}

#[test]
fn result_slots_fill_once_and_read_back() {
    let mut data = Data::new();
    assert_eq!(data.get_counts(Channel::Rear), Err(TelemetryError::FieldNotFound));

    let samples: Vec<i64> = vec![0, 50, 100];
    data.set_count(Channel::Rear, &samples, 10, 100, false).unwrap();
    assert_eq!(
        data.get_counts(Channel::Rear).unwrap(),
        &vec![1, 0, 0, 0, 0, 1, 0, 0, 0, 1]
    );
    // The other channel is untouched.
    assert_eq!(data.get_counts(Channel::Front), Err(TelemetryError::FieldNotFound));
    // A second publish in the same rebuild is refused.
    assert_eq!(
        data.set_count(Channel::Rear, &samples, 10, 100, false),
        Err(TelemetryError::DuplicateField)
    );

    data.clear();
    assert_eq!(data.get_counts(Channel::Rear), Err(TelemetryError::FieldNotFound));
}

#[test]
fn set_turning_points_publishes_points_and_strokes() {
    let mut data = Data::new();
    let samples: Vec<i64> = vec![0, 100, 500, 1000, 500, 100, 0, 100, 500, 1000];
    data.set_turning_points(Channel::Front, &samples, 1, 15, 50, 0, 1).unwrap();
    assert_eq!(data.get_turning_points(Channel::Front).unwrap().len(), 4);
    assert_eq!(data.get_compressions(Channel::Front).unwrap().len(), 1);
    assert_eq!(data.get_rebounds(Channel::Front).unwrap().len(), 1);
    assert_eq!(
        data.set_turning_points(Channel::Front, &samples, 1, 15, 50, 0, 1),
        Err(TelemetryError::DuplicateField)
    );
}

#[test]
fn set_displacements_records_the_signed_deltas() {
    let mut data = Data::new();
    let samples: Vec<i64> = vec![0, 100, 500, 1000, 500, 100, 0, 100, 500, 1000];
    data.set_turning_points(Channel::Rear, &samples, 1, 15, 50, 0, 1).unwrap();
    let tps = data.get_turning_points(Channel::Rear).unwrap().clone();
    data.set_displacements(Channel::Rear, &tps).unwrap();
    let d = data.channel_data(Channel::Rear).displacements.as_ref().unwrap();
    assert_eq!(d, &vec![1000, -1000]);
}

fn run_loader() -> Loader {
    let mut loader = Loader::new();
    let mut lines: Vec<String> = vec!["RS:250:rear,FS:250:front".to_string()];
    // A triangle wave in raw counts, several cycles long.
    let wave: Vec<u32> = (0..64u32).map(|i| {
        let phase = i % 16;
        if phase <= 8 { phase * 128 } else { (16 - phase) * 128 }
    }).collect();
    for v in &wave {
        lines.push(format!("0.0,0.0,0.0,0.0,0.0,0.0,{}.0,{}.0", v, v / 2));
    }
    assert!(loader.load_from_lines(&lines));
    loader
}

#[test]
fn reset_data_rebuilds_both_channels() {
    let loader = run_loader();
    let mut cfg = ConfigInfo::load_blank();
    cfg.add_sus_remap_info("rear".to_string(), identity_record());
    cfg.add_sus_remap_info("front".to_string(), identity_record());

    let mut data = Data::new();
    data.reset_data(&loader, &cfg, 15 * MILLI, MILLI, 0).unwrap();

    let rear = data.channel_data(Channel::Rear);
    assert_eq!(rear.calibrated.as_ref().unwrap().len(), 64);
    let counts = rear.counts.as_ref().unwrap();
    let total: u64 = counts.iter().map(|c| *c as u64).sum();
    assert_eq!(total, 64);
    assert!(rear.turning_points.as_ref().unwrap().len() >= 2);
    assert_eq!(rear.dyn_sag.as_ref().unwrap().den, 64);

    let lm = data.get_line_manager(Channel::Front).unwrap();
    assert_eq!(lm.level_data(0).len(), 64);
    assert_eq!(lm.max_x(), 63);
}

#[test]
fn reset_data_reports_a_missing_calibration_and_keeps_state() {
    let loader = run_loader();
    let cfg = ConfigInfo::load_blank();
    let mut data = Data::new();
    match data.reset_data(&loader, &cfg, 15 * MILLI, MILLI, 0) {
        Err(TelemetryError::CalibrationNotFound(key)) => assert_eq!(key, "rear"),
        other => panic!("unexpected result: {:?}", other),
    }
    assert_eq!(data.get_counts(Channel::Rear), Err(TelemetryError::FieldNotFound));
}

#[test]
fn reset_data_rejects_an_unusable_record() {
    let loader = run_loader();
    let mut cfg = ConfigInfo::load_blank();
    let mut bad = SuspensionRemapInfo::default();
    bad.scale = Rat { num: 1, den: 0x2_0000 };
    cfg.add_sus_remap_info("rear".to_string(), bad);
    cfg.add_sus_remap_info("front".to_string(), identity_record());
    let mut data = Data::new();
    assert_eq!(
        data.reset_data(&loader, &cfg, 15 * MILLI, MILLI, 0),
        Err(TelemetryError::InvalidCalibrationBounds)
    );
}

#[test]
fn enumerated_points_carry_scaled_times() {
    let pts = enumerated_with_transform(&vec![5, 6, 7], 4, 100);
    let times: Vec<i64> = pts.iter().map(|p| p.t).collect();
    assert_eq!(times, vec![100, 104, 108]);
    assert_eq!(pts[2].v, 7);
}

#[test]
fn build_channel_needs_enough_samples() {
    let mut loader = Loader::new();
    assert!(loader.load_from_lines(&vec![
        "RS:250:rear".to_string(),
        "0.0,0.0,0.0,0.0,0.0,0.0,1.0".to_string(),
    ]));
    let pot = loader.get_raw_pot_data("RS".to_string());
    assert_eq!(
        build_channel(pot, &identity_record(), 15 * MILLI, MILLI, 0).map(|_| ()),
        Err(TelemetryError::InsufficientSamples)
    );
}

#[test]
fn set_line_manager_fills_its_slot_once() {
    let mut data = Data::new();
    let pts: Vec<Point> = (0..5).map(|i| Point { t: i, v: 10 * i }).collect();
    data.set_line_manager(Channel::Rear, LineManager::new(pts)).unwrap();
    assert_eq!(data.get_line_manager(Channel::Rear).unwrap().max_x(), 4);
    let more: Vec<Point> = Vec::new();
    assert_eq!(
        data.set_line_manager(Channel::Rear, LineManager::new(more)),
        Err(TelemetryError::DuplicateField)
    );
}

#[test]
fn graph_descriptors_keep_their_names() {
    let sg = SuspensionGraph::new("rear_line".to_string(), "front_line".to_string());
    assert_eq!(sg.rear_sus_str, "rear_line");
    assert_eq!(sg.front_sus_str, "front_line");

    let dv = DispVelGraph::new("rebound".to_string(), "f".to_string(), "r".to_string());
    assert_eq!(dv.plot_id, "rebound");
    assert_eq!(dv.front, "f");
    assert_eq!(dv.rear, "r");

    let wg = WaveGen::new(300, 40);
    assert_eq!(wg.length, 10000);
    assert_eq!(wg.factor, 300);
    assert_eq!(wg.offset, 40);
}
