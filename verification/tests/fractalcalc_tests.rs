use fract::error::FractError;
use fract::fractalcalc::{Band, FractalCalc, FractalSpecs, FractalType};
use fract::matrix::Matrix;

fn pattern(x: usize, y: usize) -> u16 {
    ((x * 7 + y * 13) % 50) as u16
}

fn specs(num_threads: usize, use_multi_threads: bool) -> FractalSpecs<(i32, i32)> {
    FractalSpecs {
        fractal_type: FractalType::Mandelbrot,
        max_val: 50,
        num_threads,
        use_multi_threads,
    }
}

fn escape_time(cx: f64, cy: f64, max_val: u16) -> u16 {
    let (mut zx, mut zy) = (0.0f64, 0.0f64);
    let mut val = 0;
    while (zx * zx + zy * zy).sqrt() < 2.0 && val < max_val {
        let nx = zx * zx - zy * zy + cx;
        zy = 2.0 * zx * zy + cy;
        zx = nx;
        val += 1;
    }
    val
}

#[test]
fn defaults_follow_orbits_for_500_steps_on_every_processor() {
    let m: FractalSpecs<(i32, i32)> = FractalSpecs::new_mandelbrot_with_defaults();
    assert!(matches!(m.fractal_type, FractalType::Mandelbrot));
    assert_eq!(m.max_val, 500);
    assert!(m.num_threads >= 1);
    assert!(m.use_multi_threads);
    let j = FractalSpecs::new_julia((3, -4));
    assert!(matches!(j.fractal_type, FractalType::Julia((3, -4))));
    assert_eq!(j.max_val, 500);
    assert!(j.num_threads >= 1);
    assert!(j.use_multi_threads);
}

#[test]
fn bands_cover_every_row_once() {
    assert_eq!(FractalCalc::band(10, 3, 0), Band { start: 0, end: 3 });
    assert_eq!(FractalCalc::band(10, 3, 1), Band { start: 3, end: 6 });
    assert_eq!(FractalCalc::band(10, 3, 2), Band { start: 6, end: 10 });
    assert_eq!(FractalCalc::band(5, 1, 0), Band { start: 0, end: 5 });
    for i in 0..7 {
        assert_eq!(FractalCalc::band(7, 7, i), Band { start: i, end: i + 1 });
    }
    for h in 1..20usize {
        for n in 1..25usize {
            let mut next = 0;
            for i in 0..n {
                let b = FractalCalc::band(h, n, i);
                assert_eq!(b.start, next);
                assert!(b.start <= b.end);
                next = b.end;
            }
            assert_eq!(next, h);
        }
    }
}

#[test]
fn empty_bands_come_with_more_bands_than_rows() {
    assert_eq!(FractalCalc::band(2, 3, 0), Band { start: 0, end: 0 });
    assert_eq!(FractalCalc::band(2, 3, 1), Band { start: 0, end: 0 });
    assert_eq!(FractalCalc::band(2, 3, 2), Band { start: 0, end: 2 });
}

#[test]
fn section_uses_global_row_for_value_only() {
    let mut section: Matrix<u16> = Matrix::new(4, 2).unwrap();
    FractalCalc::write_matrix_section(&mut section, 5, 9, &pattern);
    for y in 0..2 {
        for x in 0..4 {
            assert_eq!(section.get(x, y), pattern(x, y + 5));
        }
    }
}

#[test]
fn one_pass_fill_sets_every_cell() {
    let mut m: Matrix<u16> = Matrix::new(5, 4).unwrap();
    assert_eq!(FractalCalc::write_matrix(&specs(8, false), &mut m, &pattern), Ok(()));
    for y in 0..4 {
        for x in 0..5 {
            assert_eq!(m.get(x, y), pattern(x, y));
        }
    }
}

#[test]
fn banded_fill_equals_one_pass_fill() {
    for height in 1..12usize {
        let mut single: Matrix<u16> = Matrix::new(6, height).unwrap();
        FractalCalc::write_matrix(&specs(1, false), &mut single, &pattern).unwrap();
        for threads in 1..=height {
            let mut banded: Matrix<u16> = Matrix::new(6, height).unwrap();
            assert_eq!(FractalCalc::write_matrix(&specs(threads, true), &mut banded, &pattern), Ok(()));
            for y in 0..height {
                assert_eq!(banded.get_row(y), single.get_row(y));
            }
        }
    }
}

#[test]
fn banded_fill_of_escape_counts_equals_one_pass_fill() {
    let kernel = |x: usize, y: usize| {
        escape_time(-2.5 + 3.5 * (x as f64) / 24.0, -1.25 + 2.5 * (y as f64) / 10.0, 50)
    };
    let mut single: Matrix<u16> = Matrix::new(24, 10).unwrap();
    FractalCalc::write_matrix(&specs(1, false), &mut single, &kernel).unwrap();
    let mut banded: Matrix<u16> = Matrix::new(24, 10).unwrap();
    FractalCalc::write_matrix(&specs(4, true), &mut banded, &kernel).unwrap();
    let mut inside = 0;
    for y in 0..10 {
        assert_eq!(banded.get_row(y), single.get_row(y));
        for x in 0..24 {
            assert!(single.get(x, y) <= 50);
            if single.get(x, y) == 50 {
                inside += 1;
            }
        }
    }
    assert!(inside > 0);
}

#[test]
fn more_bands_than_rows_fail_and_leave_grid() {
    let mut m: Matrix<u16> = Matrix::new(3, 2).unwrap();
    m.set(1, 1, 42);
    assert_eq!(
        FractalCalc::write_matrix(&specs(3, true), &mut m, &pattern),
        Err(FractError::ComputeWorkerFailure)
    );
    assert_eq!(FractalCalc::write_matrix_mt(5, &mut m, &pattern), Err(FractError::ComputeWorkerFailure));
    assert_eq!(m.get_row(0), &vec![0, 0, 0]);
    assert_eq!(m.get_row(1), &vec![0, 42, 0]);
    assert_eq!(FractalCalc::write_matrix(&specs(3, false), &mut m, &pattern), Ok(()));
    assert_eq!(m.get(1, 1), pattern(1, 1));
}

#[test]
fn merge_stacks_sections_in_order() {
    let mut top: Matrix<u16> = Matrix::new(2, 1).unwrap();
    top.set(0, 0, 1);
    top.set(1, 0, 2);
    let mut bottom: Matrix<u16> = Matrix::new(2, 2).unwrap();
    bottom.set(0, 0, 3);
    bottom.set(1, 0, 4);
    bottom.set(0, 1, 5);
    bottom.set(1, 1, 6);
    let mut m: Matrix<u16> = Matrix::new(2, 3).unwrap();
    assert_eq!(FractalCalc::merge_sections(&mut m, &vec![Some(top), Some(bottom)]), Ok(()));
    assert_eq!(m.get_row(0), &vec![1, 2]);
    assert_eq!(m.get_row(1), &vec![3, 4]);
    assert_eq!(m.get_row(2), &vec![5, 6]);
}

#[test]
fn merge_refuses_missing_or_misfit_sections() {
    let section = |w: usize, h: usize, v: u16| {
        let mut s: Matrix<u16> = Matrix::new(w, h).unwrap();
        for y in 0..h {
            for x in 0..w {
                s.set(x, y, v);
            }
        }
        s
    };
    let mut m: Matrix<u16> = Matrix::new(2, 3).unwrap();
    let failure = Err(FractError::ComputeWorkerFailure);
    assert_eq!(FractalCalc::merge_sections(&mut m, &vec![Some(section(2, 1, 9)), None]), failure);
    assert_eq!(FractalCalc::merge_sections(&mut m, &vec![None, Some(section(2, 3, 9))]), failure);
    assert_eq!(FractalCalc::merge_sections(&mut m, &vec![Some(section(2, 2, 9))]), failure);
    assert_eq!(
        FractalCalc::merge_sections(&mut m, &vec![Some(section(2, 2, 9)), Some(section(2, 2, 9))]),
        failure
    );
    assert_eq!(
        FractalCalc::merge_sections(&mut m, &vec![Some(section(3, 1, 9)), Some(section(2, 2, 9))]),
        failure
    );
    assert_eq!(
        FractalCalc::merge_sections(&mut m, &vec![Some(section(2, 1, 9)), Some(section(1, 2, 9))]),
        failure
    );
    assert_eq!(FractalCalc::merge_sections(&mut m, &vec![]), failure);
    for y in 0..3 {
        assert_eq!(m.get_row(y), &vec![0, 0]);
    }
    assert_eq!(FractalCalc::merge_sections(&mut m, &vec![Some(section(2, 3, 9))]), Ok(()));
    assert_eq!(m.get_row(2), &vec![9, 9]);
}

#[test]
fn known_points_keep_their_escape_counts_through_a_fill() {
    let kernel = |x: usize, _y: usize| escape_time(if x == 0 { -1.0 } else { 2.0 }, 0.0, 500);
    let orbit_specs: FractalSpecs<(i32, i32)> = FractalSpecs {
        fractal_type: FractalType::Mandelbrot,
        max_val: 500,
        num_threads: 1,
        use_multi_threads: true,
    };
    let mut m: Matrix<u16> = Matrix::new(2, 1).unwrap();
    assert_eq!(FractalCalc::write_matrix(&orbit_specs, &mut m, &kernel), Ok(()));
    assert_eq!(m.get(0, 0), 500);
    assert!(m.get(1, 0) <= 1);
}
