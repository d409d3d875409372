//! Unlocking the frame rate: the frame limiter's frame time and the game
//! speed correction that goes with it, patched while the game is stopped.

use vstd::prelude::*;

use crate::gamedata::patterns;
use crate::patch::{Locate, PatchPlan, Restore};
use crate::vm::Prot;

verus! {

/// The patch of the frame limiter: the frame time (the bits of an `f32`,
/// in seconds) is written 3 bytes past the match of the framelock
/// signature, in a page made readable, writable and executable; the page's
/// previous protection is restored afterwards.
pub fn framelock_plan(frame_time_bits: u32) -> (plan: PatchPlan)
    ensures
        plan.pattern == patterns::FRAMELOCK_FUZZY,
        plan.locate == Locate::At(3),
        plan.unlock == Prot::XRW,
        plan.restore == Restore::Previous,
        plan.unlock_failure matches Some(e) && e@ == "framelock mprotect failed."@,
        !plan.inspect_early,
        plan.recheck,
        plan.value == frame_time_bits,
{
    PatchPlan {
        pattern: patterns::FRAMELOCK_FUZZY,
        locate: Locate::At(patterns::FRAMELOCK_OFFSET as usize),
        unlock: Prot::XRW,
        restore: Restore::Previous,
        unlock_failure: Some("framelock mprotect failed."),
        inspect_early: false,
        recheck: true,
        value: frame_time_bits,
    }
}

/// The patch of the game speed correction: the correction (the bits of an
/// `f32`) is written at the RIP-relative operand of the `mulss` instruction
/// whose signed displacement lies 15 bytes past the match of the speed fix
/// signature (the instruction ends 19 bytes past the match), in a page made
/// readable and writable; the page's previous protection is restored
/// afterwards.
pub fn framespeed_plan(speed_fix_bits: u32) -> (plan: PatchPlan)
    ensures
        plan.pattern == patterns::FRAMELOCK_SPEED_FIX,
        plan.locate == Locate::RipRelative(15),
        plan.unlock == Prot::RW,
        plan.restore == Restore::Previous,
        plan.unlock_failure matches Some(e) && e@ == "framespeed mprotect failed"@,
        !plan.inspect_early,
        plan.recheck,
        plan.value == speed_fix_bits,
{
    PatchPlan {
        pattern: patterns::FRAMELOCK_SPEED_FIX,
        locate: Locate::RipRelative(patterns::FRAMELOCK_SPEED_FIX_OFFSET as usize),
        unlock: Prot::RW,
        restore: Restore::Previous,
        unlock_failure: Some("framespeed mprotect failed"),
        inspect_early: false,
        recheck: true,
        value: speed_fix_bits,
    }
}

/// The stages of unlocking the frame rate, in order.
#[derive(Clone, Copy, Debug)]
pub enum UnlockStage {
    /// Stopping the game.
    Pausing,
    /// Patching the frame limiter.
    Framelock,
    /// Patching the game speed correction.
    Framespeed,
    /// Resuming the game.
    Resuming,
    /// Over, with this outcome.
    Done(Result<(), &'static str>),
}

/// The stage after `stage` ended with `result`: the next stage in order, or
/// the end as soon as a stage fails (the game then stays as that stage left
/// it). The end is final.
pub open spec fn next_unlock_stage(stage: UnlockStage, result: Result<(), &'static str>) -> UnlockStage {
    match stage {
        UnlockStage::Done(outcome) => UnlockStage::Done(outcome),
        _ => match result {
            Err(e) => UnlockStage::Done(Err(e)),
            Ok(()) => match stage {
                UnlockStage::Pausing => UnlockStage::Framelock,
                UnlockStage::Framelock => UnlockStage::Framespeed,
                UnlockStage::Framespeed => UnlockStage::Resuming,
                _ => UnlockStage::Done(Ok(())),
            },
        },
    }
}

impl UnlockStage {
    /// Unlocking starts by stopping the game.
    pub fn start() -> (stage: UnlockStage)
        ensures
            stage == UnlockStage::Pausing,
    {
        UnlockStage::Pausing
    }

    /// The stage that follows this one once it ended with `result`.
    pub fn advance(self, result: Result<(), &'static str>) -> (next: UnlockStage)
        requires
            !(self is Done),
        ensures
            next == next_unlock_stage(self, result),
    {
        match result {
            Err(e) => UnlockStage::Done(Err(e)),
            Ok(()) => match self {
                UnlockStage::Pausing => UnlockStage::Framelock,
                UnlockStage::Framelock => UnlockStage::Framespeed,
                UnlockStage::Framespeed => UnlockStage::Resuming,
                _ => UnlockStage::Done(Ok(())),
            },
        }
    }
}

/// The stage reached when the stages' results are `results`, in order.
pub open spec fn unlock_stage_after(results: Seq<Result<(), &'static str>>) -> UnlockStage
    decreases results.len(),
{
    if results.len() == 0 {
        UnlockStage::Pausing
    } else {
        next_unlock_stage(unlock_stage_after(results.drop_last()), results.last())
    }
}

/// The position of a stage in the order of the stages.
spec fn stage_number(stage: UnlockStage) -> int {
    match stage {
        UnlockStage::Pausing => 0,
        UnlockStage::Framelock => 1,
        UnlockStage::Framespeed => 2,
        UnlockStage::Resuming => 3,
        UnlockStage::Done(_) => 4,
    }
}

proof fn lemma_unlock_progress(results: Seq<Result<(), &'static str>>)
    ensures
        ({
            let stage = unlock_stage_after(results);
            let ok_prefix = forall|i: int| 0 <= i < results.len() && i < 4 ==> #[trigger] results[i] is Ok;
            &&& ok_prefix ==> stage_number(stage) == if results.len() < 4 { results.len() as int } else { 4 }
            &&& ok_prefix && results.len() >= 4 ==> stage == UnlockStage::Done(Ok(()))
            &&& !ok_prefix ==> stage matches UnlockStage::Done(Err(_))
        }),
    decreases results.len(),
{
    if results.len() > 0 {
        let before = results.drop_last();
        lemma_unlock_progress(before);
        assert(forall|i: int| 0 <= i < before.len() ==> before[i] == results[i]);
    }
}

/// Unlocking succeeds exactly when stopping the game, both patches and
/// resuming the game all succeeded, in that order; the game is resumed only
/// when both patches succeeded.
pub proof fn lemma_unlock_succeeds_only_when_every_stage_does(results: Seq<Result<(), &'static str>>)
    ensures
        unlock_stage_after(results) == UnlockStage::Done(Ok(())) <==> (results.len() >= 4 && forall|i: int|
            0 <= i < 4 ==> #[trigger] results[i] is Ok),
        unlock_stage_after(results) is Resuming ==> results.len() == 3 && forall|i: int|
            0 <= i < 3 ==> #[trigger] results[i] is Ok,
{
    lemma_unlock_progress(results);
}

} // verus!
