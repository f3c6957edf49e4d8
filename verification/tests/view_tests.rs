use fract::animator::Anim;
use fract::error::FractError;
use fract::exposure::{Bias, ExposureInfo};
use fract::fractalcalc::{FractalCalc, FractalSpecs, FractalType};
use fract::matrix::Matrix;
use fract::view::{CoordAnimAction, FractalView, LOWER_THRESH_PERMILLE, UPPER_THRESH_PERMILLE};

fn specs(num_threads: usize, use_multi_threads: bool) -> FractalSpecs<()> {
    FractalSpecs { fractal_type: FractalType::Mandelbrot, max_val: 10, num_threads, use_multi_threads }
}

fn view(w: usize, h: usize) -> FractalView<()> {
    FractalView::new(w, h, specs(2, true), 10).unwrap()
}

fn ramp(x: usize, _y: usize) -> u16 {
    (x % 11) as u16
}

fn index_of(v: u16) -> u8 {
    (v * 2) as u8
}

#[test]
fn thresholds_are_four_and_one_percent() {
    assert_eq!(LOWER_THRESH_PERMILLE, 40);
    assert_eq!(UPPER_THRESH_PERMILLE, 10);
}

#[test]
fn new_view_spans_every_count_and_is_dirty() {
    let v = view(5, 4);
    assert_eq!(v.fractal_matrix.width(), 5);
    assert_eq!(v.fractal_matrix.height(), 4);
    assert_eq!(v.index_matrix.width(), 5);
    assert_eq!(v.index_matrix.height(), 4);
    assert_eq!(v.exposure_info, ExposureInfo { floor: 0, ceil: 10, bias: Bias { numer: 0, denom: 1 } });
    assert!(v.use_exposure);
    assert!(v.dirty_fractal_checker.is_dirty());
    assert_eq!(v.dirty_fractal_checker.len(), 4);
    assert_eq!(v.dirty_exposure_checker.len(), 2);
    assert_eq!(v.coord_anim_phase, 0);
    assert_eq!(v.coord_count, 10);
    assert!(matches!(
        FractalView::new(0, 4, specs(2, true), 10),
        Err(FractError::InvalidDimensions)
    ));
    assert!(matches!(
        FractalView::new(4, 0, specs(2, true), 10),
        Err(FractError::InvalidDimensions)
    ));
}

#[test]
fn calculate_fills_only_when_scalars_changed() {
    let mut v = view(11, 4);
    assert_eq!(v.calculate(vec![1, 2, 3, 4], &ramp), Ok(true));
    for y in 0..4 {
        for x in 0..11 {
            assert_eq!(v.fractal_matrix.get(x, y), x as u16);
        }
    }
    assert_eq!(v.exposure_info, ExposureInfo { floor: 0, ceil: 9, bias: Bias { numer: 1, denom: 27 } });
    v.fractal_matrix.set(0, 0, 9);
    assert_eq!(v.calculate(vec![1, 2, 3, 4], &ramp), Ok(false));
    assert_eq!(v.fractal_matrix.get(0, 0), 9);
    assert_eq!(v.calculate(vec![1, 2, 3, 5], &ramp), Ok(true));
    assert_eq!(v.fractal_matrix.get(0, 0), 0);
}

#[test]
fn calculate_refuses_wrong_length_and_changes_nothing() {
    let mut v = view(3, 2);
    assert_eq!(v.calculate(vec![1, 2, 3], &ramp), Err(FractError::LengthMismatch));
    assert_eq!(v.fractal_matrix.get(2, 1), 0);
    assert!(v.dirty_fractal_checker.is_dirty());
    assert_eq!(v.calculate(vec![0, 0, 0, 0], &ramp), Ok(true));
}

#[test]
fn failed_fill_leaves_grid_and_tries_again() {
    let mut v: FractalView<()> = FractalView::new(3, 2, specs(3, true), 10).unwrap();
    v.fractal_matrix.set(1, 1, 7);
    assert_eq!(v.calculate(vec![1, 1, 1, 1], &ramp), Err(FractError::ComputeWorkerFailure));
    assert_eq!(v.fractal_matrix.get(1, 1), 7);
    assert_eq!(v.exposure_info.ceil, 10);
    assert!(v.dirty_fractal_checker.is_dirty());
    v.specs.num_threads = 2;
    assert_eq!(v.calculate(vec![1, 1, 1, 1], &ramp), Ok(true));
    assert_eq!(v.fractal_matrix.get(1, 1), 1);
}

#[test]
fn index_grid_follows_either_checker() {
    let mut v = view(4, 2);
    assert_eq!(v.calculate(vec![0, 0, 0, 0], &ramp), Ok(true));
    assert_eq!(v.calculate_index(vec![5, 6], &index_of), Ok(true));
    for y in 0..2 {
        for x in 0..4 {
            assert_eq!(v.index_matrix.get(x, y), (2 * x) as u8);
        }
    }
    v.index_matrix.set(0, 0, 99);
    assert_eq!(v.calculate(vec![0, 0, 0, 0], &ramp), Ok(false));
    assert_eq!(v.calculate_index(vec![5, 6], &index_of), Ok(false));
    assert_eq!(v.index_matrix.get(0, 0), 99);
    assert_eq!(v.calculate_index(vec![5, 7], &index_of), Ok(true));
    assert_eq!(v.index_matrix.get(0, 0), 0);
    v.index_matrix.set(0, 0, 99);
    assert_eq!(v.calculate(vec![0, 0, 0, 1], &ramp), Ok(true));
    assert_eq!(v.calculate_index(vec![5, 7], &index_of), Ok(true));
    assert_eq!(v.index_matrix.get(0, 0), 0);
    assert_eq!(v.calculate_index(vec![5], &index_of), Err(FractError::LengthMismatch));
}

#[test]
fn resize_makes_new_grids_and_forces_both_checkers() {
    let mut v = view(4, 2);
    v.calculate(vec![0, 0, 0, 0], &ramp).unwrap();
    v.calculate_index(vec![0, 0], &index_of).unwrap();
    v.calculate(vec![0, 0, 0, 0], &ramp).unwrap();
    v.calculate_index(vec![0, 0], &index_of).unwrap();
    assert!(!v.dirty_fractal_checker.is_dirty());
    assert!(!v.dirty_exposure_checker.is_dirty());
    assert_eq!(v.set_matrix_size(0, 5), Err(FractError::InvalidDimensions));
    assert_eq!(v.fractal_matrix.width(), 4);
    assert!(!v.dirty_fractal_checker.is_dirty());
    assert_eq!(v.set_matrix_size(6, 3), Ok(()));
    assert_eq!(v.fractal_matrix.width(), 6);
    assert_eq!(v.fractal_matrix.height(), 3);
    assert_eq!(v.index_matrix.width(), 6);
    assert_eq!(v.index_matrix.height(), 3);
    assert!(v.dirty_fractal_checker.is_dirty());
    assert!(v.dirty_exposure_checker.is_dirty());
    assert_eq!(v.calculate(vec![0, 0, 0, 0], &ramp), Ok(true));
    assert_eq!(v.calculate_index(vec![0, 0], &index_of), Ok(true));
}

#[test]
fn exposure_targets_follow_the_window_when_in_use() {
    let mut v = view(4, 2);
    v.exposure_info = ExposureInfo { floor: 3, ceil: 7, bias: Bias { numer: -1, denom: 4 } };
    assert_eq!(v.exposure_targets(), (3, 7));
    assert_eq!(v.applied_bias(), Bias { numer: -1, denom: 4 });
    v.toggle_use_exposure();
    assert!(!v.use_exposure);
    assert_eq!(v.exposure_targets(), (0, 10));
    assert_eq!(v.applied_bias(), Bias { numer: 0, denom: 1 });
    v.toggle_use_exposure();
    assert!(v.use_exposure);
    v.exposure_info.bias = Bias { numer: 1, denom: 4 };
    assert_eq!(v.applied_bias(), Bias { numer: 0, denom: 1 });
    v.exposure_info.bias = Bias { numer: 0, denom: 4 };
    assert_eq!(v.applied_bias(), Bias { numer: 0, denom: 4 });
}

#[test]
fn tour_runs_through_its_phases() {
    let mut v = view(4, 2);
    let idle: Anim<f64, f64> = Anim::Idle;
    let target: Anim<f64, f64> = Anim::Target { target: 1.0, coefficient: 0.5, epsilon: None };
    assert_eq!(v.advance_coord_anim(&idle, true), CoordAnimAction::Wait);
    assert!(!v.start_coord_anim(10));
    assert!(v.start_coord_anim(3));
    assert_eq!(v.coord_anim_phase, 1);
    assert_eq!(v.coord_anim_index, 3);
    assert!(!v.start_coord_anim(3));
    assert!(v.start_coord_anim(4));
    assert_eq!(v.coord_anim_index, 4);
    assert_eq!(v.advance_coord_anim(&target, true), CoordAnimAction::Wait);
    assert_eq!(v.coord_anim_phase, 1);
    assert_eq!(v.advance_coord_anim(&idle, false), CoordAnimAction::StartPhaseTwo);
    assert_eq!(v.coord_anim_phase, 2);
    assert_eq!(v.advance_coord_anim(&idle, true), CoordAnimAction::Wait);
    assert_eq!(v.advance_coord_anim(&target, false), CoordAnimAction::Wait);
    assert_eq!(v.coord_anim_phase, 2);
    assert_eq!(v.advance_coord_anim(&target, true), CoordAnimAction::Finish);
    assert_eq!(v.coord_anim_phase, 0);
    assert!(v.start_coord_anim(4));
    assert!(v.stop_coord_anim());
    assert_eq!(v.coord_anim_phase, 0);
    assert!(!v.stop_coord_anim());
}

#[test]
fn julia_view_watches_its_seed_as_well() {
    let julia = FractalSpecs {
        fractal_type: FractalType::Julia(()),
        max_val: 10,
        num_threads: 1,
        use_multi_threads: false,
    };
    let mut v: FractalView<()> = FractalView::new(3, 2, julia, 10).unwrap();
    assert_eq!(v.dirty_fractal_checker.len(), 6);
    assert_eq!(v.calculate(vec![1, 2, 3, 4], &ramp), Err(FractError::LengthMismatch));
    assert_eq!(v.calculate(vec![1, 2, 3, 4, 5, 6], &ramp), Ok(true));
    assert_eq!(v.calculate(vec![1, 2, 3, 4, 5, 6], &ramp), Ok(false));
    assert_eq!(v.calculate(vec![1, 2, 3, 4, 5, 7], &ramp), Ok(true));
    let mandelbrot = view(3, 2);
    assert_eq!(mandelbrot.dirty_fractal_checker.len(), 4);
}

#[test]
fn bands_filled_elsewhere_are_taken_as_the_fill() {
    let mut v = view(4, 3);
    assert_eq!(v.do_dirty_fractal_check(vec![1, 2, 3, 4]), Ok(true));
    let mut sections = vec![];
    for i in 0..2 {
        let band = FractalCalc::band(3, 2, i);
        let mut section: Matrix<u16> = Matrix::new(4, band.end - band.start).unwrap();
        FractalCalc::write_matrix_section(&mut section, band.start, 3, &|x: usize, y: usize| {
            (x + 2 * y) as u16
        });
        sections.push(Some(section));
    }
    assert_eq!(v.accept_sections(&sections), Ok(()));
    let mut single: Matrix<u16> = Matrix::new(4, 3).unwrap();
    FractalCalc::write_matrix_section(&mut single, 0, 3, &|x: usize, y: usize| (x + 2 * y) as u16);
    for y in 0..3 {
        assert_eq!(v.fractal_matrix.get_row(y), single.get_row(y));
    }
    assert!(v.exposure_info.floor <= v.exposure_info.ceil);
    assert_eq!(v.do_dirty_fractal_check(vec![1, 2, 3, 4]), Ok(false));
}

#[test]
fn bands_that_fail_leave_the_view_and_force_the_checker() {
    let mut v = view(2, 2);
    v.calculate(vec![0, 0, 0, 0], &ramp).unwrap();
    v.calculate(vec![0, 0, 0, 0], &ramp).unwrap();
    assert!(!v.dirty_fractal_checker.is_dirty());
    let window = v.exposure_info;
    let band = |value: u16| {
        let mut m: Matrix<u16> = Matrix::new(2, 1).unwrap();
        m.set(0, 0, value);
        Some(m)
    };
    let failure = Err(FractError::ComputeWorkerFailure);
    assert_eq!(v.accept_sections(&vec![band(3), None]), failure);
    assert!(v.dirty_fractal_checker.is_dirty());
    assert_eq!(v.accept_sections(&vec![band(3), band(11)]), failure);
    assert_eq!(v.accept_sections(&vec![band(3)]), failure);
    assert_eq!(v.fractal_matrix.get_row(0), &vec![0, 1]);
    assert_eq!(v.fractal_matrix.get_row(1), &vec![0, 1]);
    assert_eq!(v.exposure_info, window);
    assert_eq!(v.do_dirty_fractal_check(vec![0, 0, 0, 0]), Ok(true));
    assert_eq!(v.accept_sections(&vec![band(3), band(10)]), Ok(()));
    assert_eq!(v.fractal_matrix.get_row(0), &vec![3, 0]);
    assert_eq!(v.fractal_matrix.get_row(1), &vec![10, 0]);
}
