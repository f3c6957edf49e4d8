use fract::timing::{
    accumulate, micros_between, nanos_between, sleep_nanos, FrameTotals, Timing, OVERHEAD_NANOS,
};

#[test]
fn pause_fills_the_frame_less_overhead() {
    assert_eq!(OVERHEAD_NANOS, 1_000_000);
    assert_eq!(sleep_nanos(60, Some(0)), 15_666_666);
    assert_eq!(sleep_nanos(60, Some(5_000_000)), 10_666_666);
    assert_eq!(sleep_nanos(60, Some(15_666_666)), 0);
    assert_eq!(sleep_nanos(60, Some(15_666_665)), 1);
    assert_eq!(sleep_nanos(60, Some(20_000_000)), 0);
    assert_eq!(sleep_nanos(60, Some(i64::MAX)), 0);
    assert_eq!(sleep_nanos(1, Some(0)), 999_000_000);
    assert_eq!(sleep_nanos(i32::MAX, Some(0)), 0);
}

#[test]
fn pause_is_never_longer_than_the_frame() {
    assert_eq!(sleep_nanos(60, Some(-5_000_000)), 16_666_666);
    assert_eq!(sleep_nanos(60, Some(-1_000_000)), 16_666_666);
    assert_eq!(sleep_nanos(60, Some(-999_999)), 16_666_665);
    assert_eq!(sleep_nanos(60, Some(i64::MIN)), 16_666_666);
    assert_eq!(sleep_nanos(60, None), 0);
}

#[test]
fn spans_add_up_as_far_as_they_fit() {
    assert_eq!(accumulate(5, Some(7)), 12);
    assert_eq!(accumulate(5, Some(-7)), -2);
    assert_eq!(accumulate(3, None), 3);
    assert_eq!(accumulate(i64::MAX, Some(1)), i64::MAX);
    assert_eq!(accumulate(i64::MIN, Some(-1)), i64::MIN);
    assert_eq!(accumulate(i64::MAX, Some(i64::MIN)), -1);
}

#[test]
fn spans_are_measured_between_readings() {
    assert_eq!(nanos_between(1_000, 4_500), Some(3_500));
    assert_eq!(nanos_between(7, 7), Some(0));
    assert_eq!(nanos_between(10, 5), None);
    assert_eq!(nanos_between(0, i64::MAX as u64), Some(i64::MAX));
    assert_eq!(nanos_between(0, i64::MAX as u64 + 1), None);
    assert_eq!(nanos_between(0, u64::MAX), None);
    assert_eq!(nanos_between(u64::MAX - 5, u64::MAX), Some(5));
    assert_eq!(micros_between(0, 999), Some(0));
    assert_eq!(micros_between(0, 1_999), Some(1));
    assert_eq!(micros_between(500, 2_500), Some(2));
    assert_eq!(micros_between(2_500, 500), None);
}

#[test]
fn rounds_end_every_target_fps_frames() {
    let mut timing = Timing::new_at(3, 1_000);
    assert_eq!(timing.frame_num, -1);
    let first = timing.frame_start_at(5_000).unwrap();
    assert_eq!(
        first,
        FrameTotals { frames: 3, elapsed_micros: Some(4), calc_micros: 0, draw_micros: 0 }
    );
    assert_eq!(timing.frame_num, 0);
    assert_eq!(timing.averages_start_time, 5_000);
    timing.calc_start_at(6_000);
    timing.calc_end_at(2_006_000);
    timing.draw_start_at(2_010_000);
    timing.draw_end_at(2_510_999);
    assert_eq!(timing.cum_calc_duration, 2_000);
    assert_eq!(timing.cum_draw_duration, 500);
    assert_eq!(timing.frame_start_at(3_000_000), None);
    timing.calc_start_at(3_000_000);
    timing.calc_end_at(3_001_000);
    assert_eq!(timing.cum_calc_duration, 2_001);
    assert_eq!(timing.frame_start_at(4_000_000), None);
    assert_eq!(timing.frame_num, 2);
    assert_eq!(timing.averages_start_time, 5_000);
    let second = timing.frame_start_at(9_005_000).unwrap();
    assert_eq!(
        second,
        FrameTotals { frames: 3, elapsed_micros: Some(9_000), calc_micros: 2_001, draw_micros: 500 }
    );
    assert_eq!(timing.frame_num, 0);
    assert_eq!(timing.cum_calc_duration, 0);
    assert_eq!(timing.cum_draw_duration, 0);
    assert_eq!(timing.averages_start_time, 9_005_000);
    assert_eq!(timing.frame_start_at(9_006_000), None);
}

#[test]
fn clock_that_ran_backwards_adds_nothing() {
    let mut timing = Timing::new_at(60, 1_000_000);
    timing.frame_start_at(1_000_000);
    timing.calc_start_at(5_000_000);
    timing.calc_end_at(4_000_000);
    assert_eq!(timing.cum_calc_duration, 0);
    assert_eq!(timing.get_sleep_duration_at(500_000), 0);
    timing.frame_start_at(2_000_000);
    let mut n = 0;
    loop {
        n += 1;
        if let Some(totals) = timing.frame_start_at(0) {
            assert_eq!(totals.elapsed_micros, None);
            break;
        }
    }
    assert_eq!(n, 59);
}

#[test]
fn pause_is_taken_from_the_start_of_the_frame() {
    let mut timing = Timing::new_at(3, 0);
    timing.frame_start_at(5_000);
    assert_eq!(timing.get_sleep_duration_at(5_000 + 3_000_000), 329_333_333);
    assert_eq!(timing.get_sleep_duration_at(5_000), 332_333_333);
    assert_eq!(timing.get_sleep_duration_at(5_000 + 400_000_000), 0);
}

#[test]
fn frames_are_timed_against_the_clock() {
    let mut timing = Timing::new(2);
    assert_eq!(timing.target_fps, 2);
    assert_eq!(timing.frame_num, -1);
    assert!(timing.frame_start().is_some());
    timing.calc_start();
    timing.calc_end();
    timing.draw_start();
    timing.draw_end();
    assert!(timing.calc_start_time >= timing.frame_start_time);
    assert!(timing.draw_start_time >= timing.calc_start_time);
    assert!(timing.cum_calc_duration >= 0);
    assert!(timing.cum_draw_duration >= 0);
    assert!(timing.get_sleep_duration() <= 500_000_000);
    assert!(timing.frame_start().is_none());
    let totals = timing.frame_start().unwrap();
    assert_eq!(totals.frames, 2);
    assert!(totals.elapsed_micros.unwrap() >= totals.calc_micros + totals.draw_micros);
}
