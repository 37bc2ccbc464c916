use sd2_telem::graph::line_manager::{LineManager, Point, MAX_POINTS};

fn ramp(n: usize) -> Vec<Point> {
    (0..n).map(|i| Point { t: i as i64, v: (i as i64) * 2 }).collect()
}

#[test]
fn level_zero_is_the_input_unmodified() {
    let pts = ramp(10);
    let lm = LineManager::new(pts.clone());
    assert_eq!(lm.level_count(), 2);
    assert_eq!(lm.level_data(0).as_slice(), pts.as_slice());
}

#[test]
fn coarser_levels_keep_every_power_of_two_point() {
    let pts = ramp(11);
    let lm = LineManager::new(pts.clone());
    let level1 = lm.level_data(1);
    assert_eq!(level1.len(), 6);
    for (j, p) in level1.iter().enumerate() {
        assert_eq!(*p, pts[2 * j]);
    }
}

#[test]
fn level_count_follows_the_data_size() {
    // 3000 / 1024 has binary magnitude 1, plus the two levels of head-room.
    let lm = LineManager::new(ramp(3000));
    assert_eq!(lm.level_count(), 3);
    assert_eq!(lm.level_data(0).len(), 3000);
    assert_eq!(lm.level_data(1).len(), 1500);
    assert_eq!(lm.level_data(2).len(), 750);
}

#[test]
fn query_returns_the_points_inside_the_window() {
    let lm = LineManager::new(ramp(10));
    let got = lm.gen_line(2, 5).unwrap();
    let times: Vec<i64> = got.iter().map(|p| p.t).collect();
    assert_eq!(times, vec![2, 3, 4, 5]);
    for p in &got {
        assert_eq!(p.v, p.t * 2);
    }
}

#[test]
fn query_answers_from_the_first_level_under_the_bound() {
    let lm = LineManager::new(ramp(3000));
    let got = lm.gen_line(0, 2999).unwrap();
    // Levels 0 and 1 exceed MAX_POINTS over the full window; level 2 fits.
    assert_eq!(got.len(), 750);
    assert!(got.len() <= MAX_POINTS);
    for (j, p) in got.iter().enumerate() {
        assert_eq!(p.t, (4 * j) as i64);
    }
}

#[test]
fn query_of_an_empty_store_is_none() {
    let lm = LineManager::new(Vec::new());
    assert!(lm.gen_line(0, 100).is_none());
}

#[test]
fn query_outside_the_data_is_empty() {
    let lm = LineManager::new(ramp(10));
    let got = lm.gen_line(50, 60).unwrap();
    assert_eq!(got.len(), 0);
}

#[test]
fn max_x_is_the_last_time() {
    let lm = LineManager::new(ramp(10));
    assert_eq!(lm.max_x(), 9);
    let empty = LineManager::new(Vec::new());
    assert_eq!(empty.max_x(), 0);
}
