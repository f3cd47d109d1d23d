//! The stage state machine of the seed.
//!
//! A seed starts in the genesis stage and advances one stage at a time, never
//! back, up to the terminal stage. It advances when its accumulated time has
//! passed the threshold of its current stage; that threshold is the golden
//! ratio raised to the exponent that `threshold_exponent` gives.

use vstd::prelude::*;

verus! {

/// The stage every seed starts in.
pub const GENESIS_STAGE: u8 = 1;

/// The terminal stage: no threshold, no further advance.
pub const FINAL_STAGE: u8 = 8;

/// Exponent of the golden ratio that gives the time threshold of `stage`
/// (1 to 7): 3 for the first stage, then 5, 6, ..., 10.
pub open spec fn threshold_exponent_of(stage: int) -> int {
    if stage == 1 {
        3
    } else {
        stage + 3
    }
}

/// The stage after one check: one stage up when the threshold was passed and
/// the stage is not terminal, else unchanged.
pub open spec fn stage_after(stage: int, time_passed_threshold: bool) -> int {
    if time_passed_threshold && stage < FINAL_STAGE {
        stage + 1
    } else {
        stage
    }
}

/// The stage after a run of checks, one per step, in order.
pub open spec fn stage_after_all(stage: int, checks: Seq<bool>) -> int
    decreases checks.len(),
{
    if checks.len() == 0 {
        stage
    } else {
        stage_after_all(stage_after(stage, checks[0]), checks.drop_first())
    }
}

/// The discrete stage of a seed.
pub struct Phase {
    stage: u8,
}

impl Phase {
    /// The stage as a number.
    pub closed spec fn view(&self) -> int {
        self.stage as int
    }

    /// A stage lies between the genesis and the terminal stage.
    pub closed spec fn wf(&self) -> bool {
        GENESIS_STAGE <= self.stage <= FINAL_STAGE
    }

    /// The genesis stage.
    pub fn new() -> (r: Phase)
        ensures
            r.wf(),
            r@ == GENESIS_STAGE,
    {
        Phase { stage: GENESIS_STAGE }
    }

    /// The current stage.
    pub fn stage(&self) -> (r: u8)
        ensures
            r == self@,
    {
        self.stage
    }

    /// Whether the stage is terminal.
    pub fn is_final(&self) -> (r: bool)
        requires
            self.wf(),
        ensures
            r == (self@ == FINAL_STAGE),
    {
        self.stage == FINAL_STAGE
    }

    /// Exponent of the golden ratio that gives the threshold which the
    /// accumulated time must pass to leave the current stage; none in the
    /// terminal stage.
    pub fn threshold_exponent(&self) -> (r: Option<u32>)
        requires
            self.wf(),
        ensures
            r is None <==> self@ == FINAL_STAGE,
            r matches Some(k) ==> k == threshold_exponent_of(self@),
    {
        if self.stage == FINAL_STAGE {
            None
        } else if self.stage == GENESIS_STAGE {
            Some(3)
        } else {
            Some(self.stage as u32 + 3)
        }
    }

    /// One check of the state machine, made once per step: advances by one
    /// stage when `time_passed_threshold` and the stage is not terminal.
    /// Returns whether it advanced.
    pub fn advance(&mut self, time_passed_threshold: bool) -> (advanced: bool)
        requires
            old(self).wf(),
        ensures
            final(self).wf(),
            final(self)@ == stage_after(old(self)@, time_passed_threshold),
            advanced == (final(self)@ != old(self)@),
    {
        if time_passed_threshold && self.stage < FINAL_STAGE {
            self.stage = self.stage + 1;
            true
        } else {
            false
        }
    }
}

/// Every check keeps a well-formed stage within its bounds, never lowers it
/// and raises it by at most one: a step that passes a threshold gives exactly
/// the next stage, never a later one.
pub proof fn lemma_single_check(stage: int, time_passed_threshold: bool)
    requires
        GENESIS_STAGE <= stage <= FINAL_STAGE,
    ensures
        GENESIS_STAGE <= stage_after(stage, time_passed_threshold) <= FINAL_STAGE,
        stage <= stage_after(stage, time_passed_threshold) <= stage + 1,
        time_passed_threshold && stage < FINAL_STAGE ==> stage_after(stage, time_passed_threshold)
            == stage + 1,
{
}

/// Over any run of steps the stage never decreases, never passes the
/// terminal stage, and rises by at most one per step.
pub proof fn lemma_stage_monotone(stage: int, checks: Seq<bool>)
    requires
        GENESIS_STAGE <= stage <= FINAL_STAGE,
    ensures
        stage <= stage_after_all(stage, checks) <= FINAL_STAGE,
        stage_after_all(stage, checks) <= stage + checks.len(),
    decreases checks.len(),
{
    if checks.len() > 0 {
        lemma_single_check(stage, checks[0]);
        lemma_stage_monotone(stage_after(stage, checks[0]), checks.drop_first());
    }
}

} // verus!
