use vstd::prelude::*;
use crate::error::FractError;

verus! {

/// What a dirty checker knows between two checks.
pub struct CheckerState {
    /// The values of the last check, each scalar as its bit pattern.
    pub baseline: Seq<u64>,
    /// The next check reports a change whatever it is handed.
    pub forced: bool,
    /// What the last check reported.
    pub result: bool,
}

impl CheckerState {
    /// A checker for `num_vals` scalars that has not checked anything yet: its
    /// first check reports a change.
    pub open spec fn fresh(num_vals: nat) -> CheckerState {
        CheckerState { baseline: Seq::new(num_vals, |i: int| 0u64), forced: true, result: true }
    }

    /// What a check of `vals` reports: a change if it was forced or if any
    /// scalar differs from the baseline.
    pub open spec fn reports(self, vals: Seq<u64>) -> bool {
        self.forced || vals != self.baseline
    }

    /// The checker after a check of `vals`: they are the new baseline, and the
    /// force is spent.
    pub open spec fn checked(self, vals: Seq<u64>) -> CheckerState {
        CheckerState { baseline: vals, forced: false, result: self.reports(vals) }
    }

    /// The checker after it was forced.
    pub open spec fn forced_dirty(self) -> CheckerState {
        CheckerState { forced: true, ..self }
    }

    /// Whether the checker stands dirty: after a check that reported a change,
    /// or with a force pending.
    pub open spec fn dirty(self) -> bool {
        self.result || self.forced
    }
}

/// Tells whether a fixed set of tracked scalars has changed since it was last
/// asked, so that nothing is recomputed for a frame that moved nothing.
///
/// A scalar is tracked by its bit pattern: two values are the same when every
/// bit is.
pub struct DirtyChecker {
    vals: Vec<u64>,
    result: bool,
    force_flag: bool,
}

impl View for DirtyChecker {
    type V = CheckerState;

    closed spec fn view(&self) -> CheckerState {
        CheckerState { baseline: self.vals@, forced: self.force_flag, result: self.result }
    }
}

impl DirtyChecker {
    /// A checker that tracks `num_vals` scalars and reports a change at its
    /// first check.
    pub fn new(num_vals: usize) -> (checker: DirtyChecker)
        ensures
            checker@ == CheckerState::fresh(num_vals as nat),
    {
        let mut vals: Vec<u64> = Vec::new();
        let mut i: usize = 0;
        while i < num_vals
            invariant
                i <= num_vals,
                vals@.len() == i,
                forall|k: int| 0 <= k < i ==> vals@[k] == 0,
            decreases num_vals - i,
        {
            vals.push(0);
            i = i + 1;
        }
        assert(vals@ =~= CheckerState::fresh(num_vals as nat).baseline);
        DirtyChecker { vals, result: true, force_flag: true }
    }

    /// Takes `vals` as the new baseline and reports whether anything changed
    /// against the old one, or a force was pending. A vector of another
    /// length than the checker tracks is refused, and the checker stays as it was.
    pub fn do_check(&mut self, vals: Vec<u64>) -> (r: Result<bool, FractError>)
        ensures
            vals@.len() != old(self)@.baseline.len() ==> r == Err::<bool, FractError>(
                FractError::LengthMismatch,
            ) && *final(self) == *old(self),
            vals@.len() == old(self)@.baseline.len() ==> r == Ok::<bool, FractError>(
                old(self)@.reports(vals@),
            ) && final(self)@ == old(self)@.checked(vals@),
    {
        if vals.len() != self.vals.len() {
            return Err(FractError::LengthMismatch);
        }
        let mut changed = false;
        let mut i: usize = 0;
        while i < vals.len()
            invariant
                i <= vals@.len(),
                vals@.len() == self.vals@.len(),
                *self == *old(self),
                changed <==> exists|k: int| 0 <= k < i && vals@[k] != self.vals@[k],
            decreases vals@.len() - i,
        {
            if self.vals[i] != vals[i] {
                changed = true;
            }
            i = i + 1;
        }
        proof {
            if !changed {
                assert(vals@ =~= self.vals@);
            }
        }
        self.result = changed || self.force_flag;
        self.force_flag = false;
        self.vals = vals;
        Ok(self.result)
    }

    /// Makes the next check report a change, whatever it is handed.
    pub fn force_dirty(&mut self)
        ensures
            final(self)@ == old(self)@.forced_dirty(),
    {
        self.force_flag = true;
    }

    /// Whether the last check reported a change or a force is pending.
    pub fn is_dirty(&self) -> (b: bool)
        ensures
            b == self@.dirty(),
    {
        self.result || self.force_flag
    }

    /// How many scalars the checker tracks.
    pub fn len(&self) -> (n: usize)
        ensures
            n == self@.baseline.len(),
    {
        self.vals.len()
    }
}

/// The first check of a new checker reports a change, whatever the values.
pub proof fn lemma_first_check_reports_change(num_vals: nat, vals: Seq<u64>)
    ensures
        CheckerState::fresh(num_vals).reports(vals),
{
}

/// The check that follows a force reports a change, whatever the values.
pub proof fn lemma_forced_check_reports_change(checker: CheckerState, vals: Seq<u64>)
    ensures
        checker.forced_dirty().reports(vals),
{
}

/// A check repeated at once with the same values reports no change.
pub proof fn lemma_repeated_check_reports_none(checker: CheckerState, vals: Seq<u64>)
    ensures
        !checker.checked(vals).reports(vals),
{
}

} // verus!
