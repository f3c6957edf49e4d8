use vstd::prelude::*;
use crate::animator::Anim;
use crate::dirtychecker::DirtyChecker;
use crate::error::FractError;
use crate::exposure::{exposure_of, Bias, ExposureInfo, ExposureUtil, Ratio};
use crate::fractalcalc::{
    filled, is_stack_of, lemma_filled_within, lemma_stack_within, sections_fit, sections_within,
    FractalCalc, FractalSpecs, FractalType,
};
use crate::histogram::{grid_within, within};
use crate::matrix::Matrix;

verus! {

/// The share of the cells that the window leaves out at the low end, in
/// thousandths.
pub const LOWER_THRESH_PERMILLE: u32 = 40;

/// The share of the cells that the window leaves out at the high end, in
/// thousandths.
pub const UPPER_THRESH_PERMILLE: u32 = 10;

/// The share that is cut from the low end of the values.
pub open spec fn lower_thresh() -> Ratio {
    Ratio { numer: LOWER_THRESH_PERMILLE, denom: 1000 }
}

/// The share that is cut from the high end of the values.
pub open spec fn upper_thresh() -> Ratio {
    Ratio { numer: UPPER_THRESH_PERMILLE, denom: 1000 }
}

/// How many scalars place a view of a family, and so are watched for a
/// change: the two parts of the position, the width and the rotation, and
/// for a Julia set the two parts of its seed as well.
pub open spec fn watched_scalars<C>(fractal_type: FractalType<C>) -> nat {
    match fractal_type {
        FractalType::Mandelbrot => 4,
        FractalType::Julia(_) => 6,
    }
}

/// A grid whose cells all hold the default count holds no count above
/// `max_val`.
proof fn lemma_new_grid_within(grid: Matrix<u16>, max_val: int)
    requires
        grid.wf(),
        max_val >= 0,
        forall|x: int, y: int|
            0 <= x < grid.spec_width() && 0 <= y < grid.spec_height() ==> call_ensures(
                u16::default,
                (),
                #[trigger] grid.at(x, y),
            ),
    ensures
        grid_within(grid@, max_val),
{
    assert forall|y: int, x: int| 0 <= y < grid@.len() && 0 <= x < grid@[y].len() implies (
    #[trigger] grid@[y][x]) <= max_val by {
        assert(grid@[y].len() == grid.spec_width());
        assert(call_ensures(u16::default, (), grid.at(x, y)));
    }
}

/// What a tick asks of the caller for a tour to a point of interest.
#[derive(Clone, Copy, Debug, PartialEq, Eq, Structural)]
pub enum CoordAnimAction {
    /// Nothing.
    Wait,
    /// The zoom out has ended: send position and width to the point.
    StartPhaseTwo,
    /// The width is as good as there: set it on its target. The tour is over.
    Finish,
}

/// One view of a fractal: its grid of escape counts, the grid of glyph
/// indices made from it, its display window, the checkers that tell when either
/// grid is out of date, and where a tour to a point of interest stands.
///
/// The numbers that place the view in the plane are the caller's; the view
/// is told of them by their bit patterns, through its checkers.
pub struct FractalView<C> {
    pub specs: FractalSpecs<C>,
    pub fractal_matrix: Matrix<u16>,
    pub index_matrix: Matrix<u8>,
    pub exposure_util: ExposureUtil,
    pub exposure_info: ExposureInfo,
    pub use_exposure: bool,
    pub dirty_fractal_checker: DirtyChecker,
    pub dirty_exposure_checker: DirtyChecker,
    /// How many points of interest there are to tour.
    pub coord_count: usize,
    pub coord_anim_index: usize,
    /// 0 when no tour is on; else the phase of the tour, 1 or 2.
    pub coord_anim_phase: u8,
}

impl<C> FractalView<C> {
    /// The grids are well formed and of one shape, no escape count is above
    /// the largest that the settings allow, and the analyzer has a bin for
    /// each count up to it.
    pub open spec fn wf(&self) -> bool {
        &&& self.fractal_matrix.wf()
        &&& self.index_matrix.wf()
        &&& self.index_matrix.spec_width() == self.fractal_matrix.spec_width()
        &&& self.index_matrix.spec_height() == self.fractal_matrix.spec_height()
        &&& grid_within(self.fractal_matrix@, self.specs.max_val as int)
        &&& self.exposure_util.wf()
        &&& self.exposure_util.spec_max_val() == self.specs.max_val
        &&& self.exposure_info.wf()
        &&& self.exposure_info.ceil <= self.specs.max_val
        &&& self.dirty_fractal_checker@.baseline.len() == watched_scalars(self.specs.fractal_type)
        &&& self.specs.num_threads >= 1
        &&& self.coord_anim_phase <= 2
    }

    /// A view on a grid of `matrix_w` by `matrix_h` cells, which has
    /// `coord_count` points to tour. Its fractal checker watches as many
    /// scalars as place a view of its family: see [`watched_scalars`].
    /// Nothing is computed yet: the window spans every count, and both
    /// checkers report a change when first asked.
    pub fn new(
        matrix_w: usize,
        matrix_h: usize,
        specs: FractalSpecs<C>,
        coord_count: usize,
    ) -> (r: Result<Self, FractError>)
        requires
            matrix_w * matrix_h <= usize::MAX,
            specs.num_threads >= 1,
        ensures
            r is Err <==> matrix_w == 0 || matrix_h == 0,
            r matches Err(e) ==> e == FractError::InvalidDimensions,
            r matches Ok(view) ==> {
                &&& view.wf()
                &&& view.specs == specs
                &&& view.fractal_matrix.spec_width() == matrix_w
                &&& view.fractal_matrix.spec_height() == matrix_h
                &&& view.exposure_info == (ExposureInfo {
                    floor: 0,
                    ceil: specs.max_val as usize,
                    bias: Bias { numer: 0, denom: 1 },
                })
                &&& view.use_exposure
                &&& view.dirty_fractal_checker@ == crate::dirtychecker::CheckerState::fresh(
                    watched_scalars(specs.fractal_type),
                )
                &&& view.dirty_exposure_checker@ == crate::dirtychecker::CheckerState::fresh(2)
                &&& view.coord_count == coord_count
                &&& view.coord_anim_index == 0
                &&& view.coord_anim_phase == 0
            },
    {
        let fractal_matrix = match Matrix::<u16>::new(matrix_w, matrix_h) {
            Ok(m) => m,
            Err(e) => {
                return Err(e);
            },
        };
        let index_matrix = match Matrix::<u8>::new(matrix_w, matrix_h) {
            Ok(m) => m,
            Err(e) => {
                return Err(e);
            },
        };
        let max_val = specs.max_val;
        let num_vals: usize = match &specs.fractal_type {
            FractalType::Mandelbrot => 4,
            FractalType::Julia(_) => 6,
        };
        proof {
            lemma_new_grid_within(fractal_matrix, max_val as int);
        }
        Ok(
            FractalView {
                specs,
                fractal_matrix,
                index_matrix,
                exposure_util: ExposureUtil::new(max_val as usize),
                exposure_info: ExposureInfo {
                    floor: 0,
                    ceil: max_val as usize,
                    bias: Bias { numer: 0, denom: 1 },
                },
                use_exposure: true,
                dirty_fractal_checker: DirtyChecker::new(num_vals),
                dirty_exposure_checker: DirtyChecker::new(2),
                coord_count,
                coord_anim_index: 0,
                coord_anim_phase: 0,
            },
        )
    }

    /// Replaces both grids by new ones of `matrix_w` by `matrix_h` cells and
    /// forces both checkers, so that the next frame fills them. A size without
    /// columns or rows is refused, and the view stays as it was.
    pub fn set_matrix_size(&mut self, matrix_w: usize, matrix_h: usize) -> (r: Result<
        (),
        FractError,
    >)
        requires
            old(self).wf(),
            matrix_w * matrix_h <= usize::MAX,
        ensures
            final(self).wf(),
            r is Err <==> matrix_w == 0 || matrix_h == 0,
            r matches Err(e) ==> e == FractError::InvalidDimensions && *final(self) == *old(self),
            r is Ok ==> {
                &&& final(self).fractal_matrix.spec_width() == matrix_w
                &&& final(self).fractal_matrix.spec_height() == matrix_h
                &&& final(self).dirty_fractal_checker@ == old(self).dirty_fractal_checker@.forced_dirty()
                &&& final(self).dirty_exposure_checker@ == old(self).dirty_exposure_checker@.forced_dirty()
                &&& final(self).specs == old(self).specs
                &&& final(self).exposure_info == old(self).exposure_info
                &&& final(self).use_exposure == old(self).use_exposure
                &&& final(self).coord_count == old(self).coord_count
                &&& final(self).coord_anim_index == old(self).coord_anim_index
                &&& final(self).coord_anim_phase == old(self).coord_anim_phase
            },
    {
        let fractal_matrix = match Matrix::<u16>::new(matrix_w, matrix_h) {
            Ok(m) => m,
            Err(e) => {
                return Err(e);
            },
        };
        let index_matrix = match Matrix::<u8>::new(matrix_w, matrix_h) {
            Ok(m) => m,
            Err(e) => {
                return Err(e);
            },
        };
        proof {
            lemma_new_grid_within(fractal_matrix, self.specs.max_val as int);
        }
        self.fractal_matrix = fractal_matrix;
        self.index_matrix = index_matrix;
        self.dirty_fractal_checker.force_dirty();
        self.dirty_exposure_checker.force_dirty();
        Ok(())
    }

    /// Turns the use of the computed window on or off.
    pub fn toggle_use_exposure(&mut self)
        ensures
            *final(self) == (FractalView { use_exposure: !old(self).use_exposure, ..*old(self) }),
    {
        self.use_exposure = !self.use_exposure;
    }

    /// The range that the display window is to ease towards: the computed
    /// one where it is in use, else every count from 0 to the largest.
    pub fn exposure_targets(&self) -> (range: (usize, usize))
        ensures
            range == if self.use_exposure {
                (self.exposure_info.floor, self.exposure_info.ceil)
            } else {
                (0usize, self.specs.max_val as usize)
            },
    {
        if self.use_exposure {
            (self.exposure_info.floor, self.exposure_info.ceil)
        } else {
            (0, self.specs.max_val as usize)
        }
    }

    /// The skew that is applied to the display: the computed one where the
    /// window is in use and the skew is not positive, else none.
    pub fn applied_bias(&self) -> (bias: Bias)
        ensures
            bias == if self.use_exposure && self.exposure_info.bias.numer <= 0 {
                self.exposure_info.bias
            } else {
                Bias { numer: 0, denom: 1 }
            },
    {
        if self.use_exposure && self.exposure_info.bias.numer <= 0 {
            self.exposure_info.bias
        } else {
            Bias { numer: 0, denom: 1 }
        }
    }

    /// Starts a tour to the point of interest `index`, with its first phase.
    /// Nothing is started, and `false` returned, where that tour is on
    /// already or there is no such point.
    pub fn start_coord_anim(&mut self, index: usize) -> (started: bool)
        ensures
            started <==> index < old(self).coord_count && !(old(self).coord_anim_phase > 0 && index
                == old(self).coord_anim_index),
            started ==> *final(self) == (FractalView {
                coord_anim_phase: 1,
                coord_anim_index: index,
                ..*old(self)
            }),
            !started ==> *final(self) == *old(self),
    {
        if self.coord_anim_phase > 0 && index == self.coord_anim_index {
            false
        } else if index >= self.coord_count {
            false
        } else {
            self.coord_anim_phase = 1;
            self.coord_anim_index = index;
            true
        }
    }

    /// Calls a tour off. Returns whether one was on: the caller then stops
    /// the motions of position and width.
    pub fn stop_coord_anim(&mut self) -> (stopped: bool)
        ensures
            stopped <==> old(self).coord_anim_phase > 0,
            *final(self) == (FractalView { coord_anim_phase: 0, ..*old(self) }),
    {
        if self.coord_anim_phase > 0 {
            self.coord_anim_phase = 0;
            true
        } else {
            false
        }
    }

    /// Moves a tour on by one tick, after the motions were updated.
    /// `width_anim` is the motion of the width as the tick left it, and
    /// `width_near_target` says whether the width is as good as on its
    /// target. The first phase, the zoom out, is over when the width has
    /// come to rest; the second is over when the width, still under way to
    /// its target, is near it.
    pub fn advance_coord_anim<T, S>(&mut self, width_anim: &Anim<T, S>, width_near_target: bool) -> (action:
        CoordAnimAction)
        ensures
            action == if old(self).coord_anim_phase == 1 && *width_anim is Idle {
                CoordAnimAction::StartPhaseTwo
            } else if old(self).coord_anim_phase == 2 && *width_anim is Target
                && width_near_target {
                CoordAnimAction::Finish
            } else {
                CoordAnimAction::Wait
            },
            *final(self) == (FractalView {
                coord_anim_phase: match action {
                    CoordAnimAction::StartPhaseTwo => 2u8,
                    CoordAnimAction::Finish => 0u8,
                    CoordAnimAction::Wait => old(self).coord_anim_phase,
                },
                ..*old(self)
            }),
    {
        if self.coord_anim_phase == 1 {
            match width_anim {
                Anim::Idle => {
                    self.coord_anim_phase = 2;
                    CoordAnimAction::StartPhaseTwo
                },
                _ => CoordAnimAction::Wait,
            }
        } else if self.coord_anim_phase == 2 {
            match width_anim {
                Anim::Target { .. } => {
                    if width_near_target {
                        self.coord_anim_phase = 0;
                        CoordAnimAction::Finish
                    } else {
                        CoordAnimAction::Wait
                    }
                },
                _ => CoordAnimAction::Wait,
            }
        } else {
            CoordAnimAction::Wait
        }
    }

    /// Asks the fractal checker whether the scalars that place the view,
    /// given by their bit patterns, have changed since the last frame, and
    /// so whether the grid of escape counts is out of date. A vector of the
    /// wrong length is refused and nothing changes.
    pub fn do_dirty_fractal_check(&mut self, vals: Vec<u64>) -> (r: Result<bool, FractError>)
        ensures
            vals@.len() != old(self).dirty_fractal_checker@.baseline.len() ==> {
                &&& r == Err::<bool, FractError>(FractError::LengthMismatch)
                &&& *final(self) == *old(self)
            },
            vals@.len() == old(self).dirty_fractal_checker@.baseline.len() ==> {
                &&& r == Ok::<bool, FractError>(old(self).dirty_fractal_checker@.reports(vals@))
                &&& final(self).dirty_fractal_checker@ == old(self).dirty_fractal_checker@.checked(
                    vals@,
                )
                &&& *final(self) == (FractalView {
                    dirty_fractal_checker: final(self).dirty_fractal_checker,
                    ..*old(self)
                })
            },
    {
        self.dirty_fractal_checker.do_check(vals)
    }

    /// Takes the bands of a fill that was made elsewhere, band by band, and
    /// derives the display window from the new grid. Bands that were each
    /// filled for their place make the grid that one fill of the whole
    /// leaves: see [`crate::fractalcalc::lemma_merged_bands_are_filled`].
    ///
    /// The bands are put into the grid one below the other. Where a band is
    /// missing, the bands do not make up the grid, or a cell holds more than
    /// the largest escape count, the fill has failed: grid and window stay
    /// as they were, and the fractal checker is forced, so that the next
    /// frame fills the grid again.
    pub fn accept_sections(&mut self, sections: &Vec<Option<Matrix<u16>>>) -> (r: Result<
        (),
        FractError,
    >)
        requires
            old(self).wf(),
            forall|k: int|
                0 <= k < sections@.len() ==> ((#[trigger] sections@[k]) matches Some(m) ==> m.wf()),
        ensures
            final(self).wf(),
            final(self).specs == old(self).specs,
            final(self).index_matrix == old(self).index_matrix,
            final(self).use_exposure == old(self).use_exposure,
            final(self).dirty_exposure_checker == old(self).dirty_exposure_checker,
            final(self).coord_count == old(self).coord_count,
            final(self).coord_anim_index == old(self).coord_anim_index,
            final(self).coord_anim_phase == old(self).coord_anim_phase,
            r is Ok <==> sections_fit(
                sections@,
                old(self).fractal_matrix.spec_width() as int,
                old(self).fractal_matrix.spec_height() as int,
            ) && sections_within(sections@, old(self).specs.max_val as int),
            r matches Err(e) ==> {
                &&& e == FractError::ComputeWorkerFailure
                &&& final(self).fractal_matrix == old(self).fractal_matrix
                &&& final(self).exposure_info == old(self).exposure_info
                &&& final(self).dirty_fractal_checker@ == old(self).dirty_fractal_checker@.forced_dirty()
            },
            r is Ok ==> {
                &&& final(self).fractal_matrix.spec_width() == old(self).fractal_matrix.spec_width()
                &&& final(self).fractal_matrix.spec_height() == old(self).fractal_matrix.spec_height()
                &&& is_stack_of(final(self).fractal_matrix, sections@)
                &&& final(self).exposure_info == exposure_of(
                    final(self).exposure_util.bins(),
                    (final(self).fractal_matrix.spec_width() * final(self).fractal_matrix.spec_height()) as int,
                    lower_thresh(),
                    upper_thresh(),
                )
                &&& final(self).exposure_info.wf()
                &&& final(self).dirty_fractal_checker == old(self).dirty_fractal_checker
            },
    {
        let max_val = self.specs.max_val;
        let mut k: usize = 0;
        while k < sections.len()
            invariant
                k <= sections@.len(),
                *self == *old(self),
                self.wf(),
                max_val == self.specs.max_val,
                forall|j: int|
                    0 <= j < sections@.len() ==> ((#[trigger] sections@[j]) matches Some(m)
                        ==> m.wf()),
                forall|j: int|
                    0 <= j < k ==> ((#[trigger] sections@[j]) matches Some(m) ==> grid_within(
                        m@,
                        max_val as int,
                    )),
            decreases sections@.len() - k,
        {
            match &sections[k] {
                Some(section) => {
                    if !within(section, max_val) {
                        self.dirty_fractal_checker.force_dirty();
                        return Err(FractError::ComputeWorkerFailure);
                    }
                },
                None => {},
            }
            k = k + 1;
        }
        match FractalCalc::merge_sections(&mut self.fractal_matrix, sections) {
            Ok(()) => {},
            Err(e) => {
                self.dirty_fractal_checker.force_dirty();
                return Err(e);
            },
        }
        proof {
            lemma_stack_within(self.fractal_matrix, sections@, max_val as int);
        }
        let lower = Ratio { numer: LOWER_THRESH_PERMILLE, denom: 1000 };
        let upper = Ratio { numer: UPPER_THRESH_PERMILLE, denom: 1000 };
        self.exposure_info = self.exposure_util.calc(&self.fractal_matrix, lower, upper);
        Ok(())
    }

    /// Brings the grid of escape counts and the display window up to date.
    ///
    /// `vals` holds the scalars that place the view, as bit patterns. If
    /// the fractal checker reports no change against the last frame, nothing is
    /// computed. Else every cell is computed anew with `cell_value` and the
    /// window is derived from the new grid. Returns whether it was.
    ///
    /// A vector of the wrong length is refused and nothing changes. A fill
    /// that fails leaves grid and window as they were and the checker forced,
    /// so that the next frame tries again.
    pub fn calculate<F: Fn(usize, usize) -> u16>(&mut self, vals: Vec<u64>, cell_value: &F) -> (r:
        Result<bool, FractError>)
        requires
            old(self).wf(),
            forall|x: usize, y: usize| call_requires(*cell_value, (x, y)),
            forall|x: usize, y: usize, v: u16|
                call_ensures(*cell_value, (x, y), v) ==> v <= old(self).specs.max_val,
        ensures
            final(self).wf(),
            final(self).specs == old(self).specs,
            final(self).index_matrix == old(self).index_matrix,
            final(self).use_exposure == old(self).use_exposure,
            final(self).dirty_exposure_checker == old(self).dirty_exposure_checker,
            final(self).coord_count == old(self).coord_count,
            final(self).coord_anim_index == old(self).coord_anim_index,
            final(self).coord_anim_phase == old(self).coord_anim_phase,
            vals@.len() != old(self).dirty_fractal_checker@.baseline.len() ==> {
                &&& r == Err::<bool, FractError>(FractError::LengthMismatch)
                &&& *final(self) == *old(self)
            },
            vals@.len() == old(self).dirty_fractal_checker@.baseline.len() && !old(self).dirty_fractal_checker@.reports(vals@) ==> {
                &&& r == Ok::<bool, FractError>(false)
                &&& final(self).fractal_matrix == old(self).fractal_matrix
                &&& final(self).exposure_info == old(self).exposure_info
                &&& final(self).dirty_fractal_checker@ == old(self).dirty_fractal_checker@.checked(
                    vals@,
                )
            },
            vals@.len() == old(self).dirty_fractal_checker@.baseline.len() && old(self).dirty_fractal_checker@.reports(vals@) ==> {
                if old(self).specs.use_multi_threads && old(self).specs.num_threads > old(self).fractal_matrix.spec_height() {
                    &&& r == Err::<bool, FractError>(FractError::ComputeWorkerFailure)
                    &&& final(self).fractal_matrix == old(self).fractal_matrix
                    &&& final(self).exposure_info == old(self).exposure_info
                    &&& final(self).dirty_fractal_checker@ == old(self).dirty_fractal_checker@.checked(vals@).forced_dirty()
                } else {
                    &&& r == Ok::<bool, FractError>(true)
                    &&& filled(old(self).fractal_matrix, final(self).fractal_matrix, *cell_value)
                    &&& final(self).exposure_info == exposure_of(
                        final(self).exposure_util.bins(),
                        (final(self).fractal_matrix.spec_width() * final(self).fractal_matrix.spec_height()) as int,
                        lower_thresh(),
                        upper_thresh(),
                    )
                    &&& final(self).exposure_info.wf()
                    &&& final(self).dirty_fractal_checker@ == old(self).dirty_fractal_checker@.checked(vals@)
                }
            },
    {
        let dirty = match self.do_dirty_fractal_check(vals) {
            Ok(dirty) => dirty,
            Err(e) => {
                return Err(e);
            },
        };
        if !dirty {
            return Ok(false);
        }
        let ghost before = self.fractal_matrix;
        match FractalCalc::write_matrix(&self.specs, &mut self.fractal_matrix, cell_value) {
            Ok(()) => {},
            Err(e) => {
                self.dirty_fractal_checker.force_dirty();
                return Err(e);
            },
        }
        proof {
            lemma_filled_within(
                *cell_value,
                before,
                self.fractal_matrix,
                self.specs.max_val as int,
            );
        }
        let lower = Ratio { numer: LOWER_THRESH_PERMILLE, denom: 1000 };
        let upper = Ratio { numer: UPPER_THRESH_PERMILLE, denom: 1000 };
        self.exposure_info = self.exposure_util.calc(&self.fractal_matrix, lower, upper);
        Ok(true)
    }

    /// Brings the grid of glyph indices up to date, after [`FractalView::calculate`].
    ///
    /// `vals` holds the two bounds of the display window as it is shown,
    /// as bit patterns. The indices are made anew, each from its escape
    /// count by `to_char_index`, if the escape counts were computed anew in
    /// this frame or the exposure checker reports a change. Returns whether
    /// they were. A vector of the wrong length is refused and nothing
    /// changes.
    pub fn calculate_index<G: Fn(u16) -> u8>(&mut self, vals: Vec<u64>, to_char_index: &G) -> (r:
        Result<bool, FractError>)
        requires
            old(self).wf(),
            forall|v: u16| call_requires(*to_char_index, (v,)),
        ensures
            final(self).wf(),
            final(self).specs == old(self).specs,
            final(self).fractal_matrix == old(self).fractal_matrix,
            final(self).exposure_info == old(self).exposure_info,
            final(self).use_exposure == old(self).use_exposure,
            final(self).dirty_fractal_checker == old(self).dirty_fractal_checker,
            final(self).coord_count == old(self).coord_count,
            final(self).coord_anim_index == old(self).coord_anim_index,
            final(self).coord_anim_phase == old(self).coord_anim_phase,
            vals@.len() != old(self).dirty_exposure_checker@.baseline.len() ==> {
                &&& r == Err::<bool, FractError>(FractError::LengthMismatch)
                &&& *final(self) == *old(self)
            },
            vals@.len() == old(self).dirty_exposure_checker@.baseline.len() ==> {
                &&& r == Ok::<bool, FractError>(
                    old(self).dirty_fractal_checker@.dirty() || old(self).dirty_exposure_checker@.reports(vals@),
                )
                &&& final(self).dirty_exposure_checker@ == old(self).dirty_exposure_checker@.checked(vals@)
                &&& r == Ok::<bool, FractError>(false) ==> final(self).index_matrix == old(self).index_matrix
                &&& r == Ok::<bool, FractError>(true) ==> indices_from(
                    final(self).index_matrix,
                    final(self).fractal_matrix,
                    *to_char_index,
                )
            },
    {
        let dirty1 = self.dirty_fractal_checker.is_dirty();
        let dirty2 = match self.dirty_exposure_checker.do_check(vals) {
            Ok(dirty) => dirty,
            Err(e) => {
                return Err(e);
            },
        };
        if dirty1 || dirty2 {
            self.calc_index_matrix(to_char_index);
            Ok(true)
        } else {
            Ok(false)
        }
    }

    /// Makes the glyph index of every cell from its escape count.
    pub fn calc_index_matrix<G: Fn(u16) -> u8>(&mut self, to_char_index: &G)
        requires
            old(self).wf(),
            forall|v: u16| call_requires(*to_char_index, (v,)),
        ensures
            final(self).wf(),
            indices_from(final(self).index_matrix, final(self).fractal_matrix, *to_char_index),
            *final(self) == (FractalView { index_matrix: final(self).index_matrix, ..*old(self) }),
    {
        let width = self.fractal_matrix.width();
        let height = self.fractal_matrix.height();
        let mut y: usize = 0;
        while y < height
            invariant
                y <= height,
                self.wf(),
                width == self.fractal_matrix.spec_width(),
                height == self.fractal_matrix.spec_height(),
                forall|v: u16| call_requires(*to_char_index, (v,)),
                *self == (FractalView { index_matrix: self.index_matrix, ..*old(self) }),
                forall|i: int, j: int|
                    0 <= i < width && 0 <= j < y ==> call_ensures(
                        *to_char_index,
                        (self.fractal_matrix.at(i, j),),
                        #[trigger] self.index_matrix.at(i, j),
                    ),
            decreases height - y,
        {
            let mut x: usize = 0;
            while x < width
                invariant
                    x <= width,
                    y < height,
                    self.wf(),
                    width == self.fractal_matrix.spec_width(),
                    height == self.fractal_matrix.spec_height(),
                    forall|v: u16| call_requires(*to_char_index, (v,)),
                    *self == (FractalView { index_matrix: self.index_matrix, ..*old(self) }),
                    forall|i: int, j: int|
                        0 <= i < width && (0 <= j < y || (j == y && i < x)) ==> call_ensures(
                            *to_char_index,
                            (self.fractal_matrix.at(i, j),),
                            #[trigger] self.index_matrix.at(i, j),
                        ),
                decreases width - x,
            {
                let val = self.fractal_matrix.get(x, y);
                let i = to_char_index(val);
                let ghost before = self.index_matrix;
                self.index_matrix.set(x, y, i);
                proof {
                    assert forall|i: int, j: int|
                        0 <= i < width && (0 <= j < y || (j == y && i < x + 1)) implies call_ensures(
                        *to_char_index,
                        (self.fractal_matrix.at(i, j),),
                        #[trigger] self.index_matrix.at(i, j),
                    ) by {
                        assert(before@[j].len() == width);
                        if j != y || i != x {
                            assert(self.index_matrix.at(i, j) == before.at(i, j));
                        }
                    }
                }
                x = x + 1;
            }
            y = y + 1;
        }
    }
}

/// Each cell of `indices` is what `to_char_index` makes of the cell of
/// `counts` in its place.
pub open spec fn indices_from<G: Fn(u16) -> u8>(
    indices: Matrix<u8>,
    counts: Matrix<u16>,
    to_char_index: G,
) -> bool {
    forall|x: int, y: int|
        0 <= x < counts.spec_width() && 0 <= y < counts.spec_height() ==> call_ensures(
            to_char_index,
            (counts.at(x, y),),
            #[trigger] indices.at(x, y),
        )
}

} // verus!
