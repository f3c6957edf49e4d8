use vstd::prelude::*;

verus! {

/// The reading of a clock that never runs backwards, in nanoseconds since a
/// start that is not told, from `time::precise_time_ns`. Which reading comes
/// back depends on the moment of the call: nothing is promised of it.
#[verifier::external_body]
fn clock_nanos() -> (nanos: u64) {
    time::precise_time_ns()
}

/// The time that is taken off every pause, for what the loop itself costs,
/// in nanoseconds.
pub const OVERHEAD_NANOS: i64 = 1_000_000;

/// The sums of one round of frames, from which the averages are made.
#[derive(Clone, Copy, Debug, PartialEq, Eq)]
pub struct FrameTotals {
    /// How many frames the round had.
    pub frames: i32,
    /// How long the round took, in microseconds; `None` if that could not be
    /// measured.
    pub elapsed_micros: Option<i64>,
    /// How long its computations took together, in microseconds.
    pub calc_micros: i64,
    /// How long its drawing took together, in microseconds.
    pub draw_micros: i64,
}

/// The nanoseconds from the reading `start` to the reading `later`; `None`
/// where `later` lies before `start` or the span does not fit.
pub open spec fn span_nanos(start: u64, later: u64) -> Option<i64> {
    if start <= later && later - start <= i64::MAX {
        Some((later - start) as i64)
    } else {
        None
    }
}

/// The whole microseconds from the reading `start` to the reading `later`.
pub open spec fn span_micros(start: u64, later: u64) -> Option<i64> {
    match span_nanos(start, later) {
        Some(nanos) => Some((nanos / 1000) as i64),
        None => None,
    }
}

/// `total` with `span` added, as far as it fits; a span that could not be
/// measured adds nothing.
pub open spec fn accumulated(total: i64, span: Option<i64>) -> i64 {
    match span {
        Some(s) => if total + s > i64::MAX {
            i64::MAX
        } else if total + s < i64::MIN {
            i64::MIN
        } else {
            (total + s) as i64
        },
        None => total,
    }
}

/// The pause that fills a frame up to its share of a second, in
/// nanoseconds: the share less what the frame took so far, less the
/// overhead; never negative, and never more than the share. Nothing is
/// paused where what the frame took could not be measured.
pub open spec fn pause_nanos(target_fps: int, elapsed_nanos: Option<i64>) -> int {
    let interval = 1_000_000_000int / target_fps;
    match elapsed_nanos {
        Some(elapsed) => {
            let pause = interval - elapsed - OVERHEAD_NANOS;
            if pause < 0 {
                0
            } else if pause > interval {
                interval
            } else {
                pause
            }
        },
        None => 0,
    }
}

/// The nanoseconds between two readings of the clock: see [`span_nanos`].
pub fn nanos_between(start: u64, later: u64) -> (span: Option<i64>)
    ensures
        span == span_nanos(start, later),
{
    if start <= later && later - start <= i64::MAX as u64 {
        Some((later - start) as i64)
    } else {
        None
    }
}

/// The whole microseconds between two readings of the clock: see
/// [`span_micros`].
pub fn micros_between(start: u64, later: u64) -> (span: Option<i64>)
    ensures
        span == span_micros(start, later),
{
    match nanos_between(start, later) {
        Some(nanos) => Some(nanos / 1000),
        None => None,
    }
}

/// Adds a span to a running total: see [`accumulated`].
pub fn accumulate(total: i64, span: Option<i64>) -> (sum: i64)
    ensures
        sum == accumulated(total, span),
{
    match span {
        Some(s) => {
            let wide: i128 = total as i128 + s as i128;
            if wide > i64::MAX as i128 {
                i64::MAX
            } else if wide < i64::MIN as i128 {
                i64::MIN
            } else {
                wide as i64
            }
        },
        None => total,
    }
}

/// The pause that fills a frame: see [`pause_nanos`].
pub fn sleep_nanos(target_fps: i32, elapsed_nanos: Option<i64>) -> (nanos: u32)
    requires
        target_fps > 0,
    ensures
        nanos == pause_nanos(target_fps as int, elapsed_nanos),
        nanos <= 1_000_000_000,
{
    let interval: i128 = 1_000_000_000 / (target_fps as i128);
    match elapsed_nanos {
        Some(elapsed) => {
            let pause: i128 = interval - elapsed as i128 - OVERHEAD_NANOS as i128;
            if pause < 0 {
                0
            } else if pause > interval {
                interval as u32
            } else {
                pause as u32
            }
        },
        None => 0,
    }
}

/// The bookkeeping of the main loop: how long the frames take, and how long
/// to pause between them to hold a frame rate. Moments are readings of the
/// clock in nanoseconds.
#[derive(Clone, Copy, Debug, PartialEq, Eq)]
pub struct Timing {
    /// The frame rate that is aimed at.
    pub target_fps: i32,
    pub frame_start_time: u64,
    pub calc_start_time: u64,
    pub draw_start_time: u64,
    /// When the round of frames started.
    pub averages_start_time: u64,
    /// How many frames the round has had; -1 before the first frame.
    pub frame_num: i32,
    /// What the computations of the round took so far, in microseconds.
    pub cum_calc_duration: i64,
    /// What the drawing of the round took so far, in microseconds.
    pub cum_draw_duration: i64,
}

impl Timing {
    pub open spec fn wf(&self) -> bool {
        &&& self.target_fps > 0
        &&& -1 <= self.frame_num < self.target_fps
    }

    /// The bookkeeping of a loop that starts at the reading `now`.
    pub open spec fn started(target_fps: i32, now: u64) -> Timing {
        Timing {
            target_fps,
            frame_start_time: now,
            calc_start_time: now,
            draw_start_time: now,
            averages_start_time: now,
            frame_num: -1i32,
            cum_calc_duration: 0,
            cum_draw_duration: 0,
        }
    }

    /// Whether the frame that starts next ends a round: every `target_fps`
    /// frames one does, the first frame included.
    pub open spec fn round_ends(self) -> bool {
        (self.frame_num + 1) % (self.target_fps as int) == 0
    }

    /// The sums that are handed out if a round ends at the reading `now`.
    pub open spec fn totals_at(self, now: u64) -> FrameTotals {
        FrameTotals {
            frames: self.target_fps,
            elapsed_micros: span_micros(self.averages_start_time, now),
            calc_micros: self.cum_calc_duration,
            draw_micros: self.cum_draw_duration,
        }
    }

    /// The bookkeeping after a frame started at the reading `now`. Where a
    /// round ends with it, the sums start over and the next round starts at
    /// `now`.
    pub open spec fn frame_started(self, now: u64) -> Timing {
        if self.round_ends() {
            Timing {
                frame_start_time: now,
                averages_start_time: now,
                frame_num: 0,
                cum_calc_duration: 0,
                cum_draw_duration: 0,
                ..self
            }
        } else {
            Timing { frame_start_time: now, frame_num: (self.frame_num + 1) as i32, ..self }
        }
    }

    /// The bookkeeping after a computation started at the reading `now`.
    pub open spec fn calc_started(self, now: u64) -> Timing {
        Timing { calc_start_time: now, ..self }
    }

    /// The bookkeeping after drawing started at the reading `now`.
    pub open spec fn draw_started(self, now: u64) -> Timing {
        Timing { draw_start_time: now, ..self }
    }

    /// The bookkeeping after a computation ended at the reading `now`.
    pub open spec fn calc_ended(self, now: u64) -> Timing {
        Timing {
            cum_calc_duration: accumulated(
                self.cum_calc_duration,
                span_micros(self.calc_start_time, now),
            ),
            ..self
        }
    }

    /// The bookkeeping after drawing ended at the reading `now`.
    pub open spec fn draw_ended(self, now: u64) -> Timing {
        Timing {
            cum_draw_duration: accumulated(
                self.cum_draw_duration,
                span_micros(self.draw_start_time, now),
            ),
            ..self
        }
    }

    /// Bookkeeping for a loop that aims at `target_fps` frames a second and
    /// starts at the reading `now`.
    pub fn new_at(target_fps: i32, now: u64) -> (timing: Timing)
        requires
            target_fps > 0,
        ensures
            timing.wf(),
            timing == Timing::started(target_fps, now),
    {
        Timing {
            target_fps,
            frame_start_time: now,
            calc_start_time: now,
            draw_start_time: now,
            averages_start_time: now,
            frame_num: -1,
            cum_calc_duration: 0,
            cum_draw_duration: 0,
        }
    }

    /// Bookkeeping for a loop that aims at `target_fps` frames a second and
    /// starts now.
    pub fn new(target_fps: i32) -> (timing: Timing)
        requires
            target_fps > 0,
        ensures
            timing.wf(),
            exists|now: u64| timing == #[trigger] Timing::started(target_fps, now),
    {
        let now = clock_nanos();
        let timing = Self::new_at(target_fps, now);
        assert(timing == Timing::started(target_fps, now));
        timing
    }

    /// Marks the start of a frame at the reading `now`, and counts it. Where
    /// a round ends with this frame, its sums are handed out.
    pub fn frame_start_at(&mut self, now: u64) -> (totals: Option<FrameTotals>)
        requires
            old(self).wf(),
        ensures
            final(self).wf(),
            *final(self) == old(self).frame_started(now),
            totals == if old(self).round_ends() {
                Some(old(self).totals_at(now))
            } else {
                None
            },
    {
        self.frame_start_time = now;
        let next = self.frame_num + 1;
        proof {
            let fps = self.target_fps as int;
            assert(fps % fps == 0) by (nonlinear_arith)
                requires
                    fps > 0,
            ;
        }
        if next % self.target_fps == 0 {
            let totals = FrameTotals {
                frames: self.target_fps,
                elapsed_micros: micros_between(self.averages_start_time, now),
                calc_micros: self.cum_calc_duration,
                draw_micros: self.cum_draw_duration,
            };
            self.averages_start_time = now;
            self.frame_num = 0;
            self.cum_calc_duration = 0;
            self.cum_draw_duration = 0;
            Some(totals)
        } else {
            self.frame_num = next;
            None
        }
    }

    /// Marks the start of a frame and counts it: see
    /// [`Timing::frame_start_at`]. The moment is read off the clock.
    pub fn frame_start(&mut self) -> (totals: Option<FrameTotals>)
        requires
            old(self).wf(),
        ensures
            final(self).wf(),
            exists|now: u64|
                *final(self) == #[trigger] old(self).frame_started(now) && totals == if old(self).round_ends() {
                    Some(old(self).totals_at(now))
                } else {
                    None
                },
    {
        let now = clock_nanos();
        let totals = self.frame_start_at(now);
        assert(*self == old(self).frame_started(now));
        totals
    }

    /// Marks the start of a computation at the reading `now`.
    pub fn calc_start_at(&mut self, now: u64)
        ensures
            *final(self) == old(self).calc_started(now),
    {
        self.calc_start_time = now;
    }

    /// Marks the start of a computation. The moment is read off the clock.
    pub fn calc_start(&mut self)
        ensures
            exists|now: u64| *final(self) == #[trigger] old(self).calc_started(now),
    {
        let now = clock_nanos();
        self.calc_start_at(now);
        assert(*self == old(self).calc_started(now));
    }

    /// Marks the end of a computation at the reading `now`, and adds what it
    /// took to the sum of the round.
    pub fn calc_end_at(&mut self, now: u64)
        ensures
            *final(self) == old(self).calc_ended(now),
    {
        let span = micros_between(self.calc_start_time, now);
        self.cum_calc_duration = accumulate(self.cum_calc_duration, span);
    }

    /// Marks the end of a computation, and adds what it took to the sum of
    /// the round. The moment is read off the clock.
    pub fn calc_end(&mut self)
        ensures
            exists|now: u64| *final(self) == #[trigger] old(self).calc_ended(now),
    {
        let now = clock_nanos();
        self.calc_end_at(now);
        assert(*self == old(self).calc_ended(now));
    }

    /// Marks the start of drawing at the reading `now`.
    pub fn draw_start_at(&mut self, now: u64)
        ensures
            *final(self) == old(self).draw_started(now),
    {
        self.draw_start_time = now;
    }

    /// Marks the start of drawing. The moment is read off the clock.
    pub fn draw_start(&mut self)
        ensures
            exists|now: u64| *final(self) == #[trigger] old(self).draw_started(now),
    {
        let now = clock_nanos();
        self.draw_start_at(now);
        assert(*self == old(self).draw_started(now));
    }

    /// Marks the end of drawing at the reading `now`, and adds what it took
    /// to the sum of the round.
    pub fn draw_end_at(&mut self, now: u64)
        ensures
            *final(self) == old(self).draw_ended(now),
    {
        let span = micros_between(self.draw_start_time, now);
        self.cum_draw_duration = accumulate(self.cum_draw_duration, span);
    }

    /// Marks the end of drawing, and adds what it took to the sum of the
    /// round. The moment is read off the clock.
    pub fn draw_end(&mut self)
        ensures
            exists|now: u64| *final(self) == #[trigger] old(self).draw_ended(now),
    {
        let now = clock_nanos();
        self.draw_end_at(now);
        assert(*self == old(self).draw_ended(now));
    }

    /// How long to pause at the reading `now`, in nanoseconds, so that the
    /// frame that is under way fills its share of a second: see
    /// [`pause_nanos`].
    pub fn get_sleep_duration_at(&self, now: u64) -> (nanos: u32)
        requires
            self.wf(),
        ensures
            nanos == pause_nanos(self.target_fps as int, span_nanos(self.frame_start_time, now)),
            nanos <= 1_000_000_000,
    {
        sleep_nanos(self.target_fps, nanos_between(self.frame_start_time, now))
    }

    /// How long to pause now: see [`Timing::get_sleep_duration_at`]. The
    /// moment is read off the clock.
    pub fn get_sleep_duration(&self) -> (nanos: u32)
        requires
            self.wf(),
        ensures
            exists|now: u64|
                nanos == pause_nanos(
                    self.target_fps as int,
                    #[trigger] span_nanos(self.frame_start_time, now),
                ),
            nanos <= 1_000_000_000,
    {
        let now = clock_nanos();
        let nanos = self.get_sleep_duration_at(now);
        assert(nanos == pause_nanos(
            self.target_fps as int,
            span_nanos(self.frame_start_time, now),
        ));
        nanos
    }
}

} // verus!
