//! Patching the camera's field of view.

use vstd::prelude::*;

use crate::gamedata::patterns;
use crate::patch::{Locate, PatchPlan, Restore};
use crate::vm::Prot;

verus! {

/// The patch of the field of view: the value (the bits of an `f32`, in
/// radians) is written at the address named by the displacement 8 bytes
/// past the match of the field of view signature; the value is inspected as
/// soon as its address is known, its page is made readable and writable,
/// and made read-only afterwards. A page that cannot be made writable is
/// not recoverable.
pub fn patch_plan(fov_bits: u32) -> (plan: PatchPlan)
    ensures
        plan.pattern == patterns::FOV,
        plan.locate == Locate::Displacement(8),
        plan.unlock == Prot::RW,
        plan.restore == Restore::To(Prot::R),
        plan.unlock_failure is None,
        plan.inspect_early,
        !plan.recheck,
        plan.value == fov_bits,
{
    PatchPlan {
        pattern: patterns::FOV,
        locate: Locate::Displacement(patterns::FOV_OFFSET as usize),
        unlock: Prot::RW,
        restore: Restore::To(Prot::R),
        unlock_failure: None,
        inspect_early: true,
        recheck: false,
        value: fov_bits,
    }
}

} // verus!
