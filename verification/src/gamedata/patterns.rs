//! Byte signatures that locate the patched instructions, and the offsets
//! from a signature's match to the bytes of interest.

use vstd::prelude::*;

verus! {

pub const FRAMELOCK_FUZZY: &'static str = "C7 43 ?? ?? ?? ?? ?? 4C 89 AB";
pub const FRAMELOCK_OFFSET: i32 = 3;

pub const FRAMELOCK_SPEED_FIX: &'static str = "F3 0F 58 ?? 0F C6 ?? 00 0F 51 ?? F3 0F 59 ?? ?? ?? ?? ?? 0F 2F";
pub const FRAMELOCK_SPEED_FIX_OFFSET: i32 = 15;

/// The displacement read at `FRAMELOCK_SPEED_FIX_OFFSET` is relative to the
/// end of the instruction, which lies 19 bytes past the signature's match.
pub const FRAMELOCK_SPEED_FIX_INSTR_OFFSET: i32 = 19;

pub const FOV: &'static str = "";
pub const FOV_OFFSET: i32 = 8;

pub const CAMADJUST_PITCH: &'static str = "";
pub const CAMADJUST_PITCH_OVERWRITE_LENGTH: i32 = 7;

pub const CAMADJUST_YAW_Z: &'static str = "";
pub const CAMADJUST_YAW_Z_OFFSET: i32 = 5;
pub const CAMADJUST_YAW_Z_OVERWRITE_LENGTH: i32 = 8;

pub const CAMADJUST_PITCH_XY: &'static str = "";
pub const CAMADJUST_PITCH_XY_OVERWRITE_LENGTH: i32 = 12;

pub const CAMADJUST_YAW_XY: &'static str = "";
pub const CAMADJUST_YAW_XY_OFFSET: i32 = 5;
pub const CAMADJUST_YAW_XY_OVERWRITE: i32 = 8;

pub const CAMRESET_LOCKON: &'static str = "";
pub const CAMRESET_LOCKON_OFFSET: i32 = 6;

pub const AUTOLOOT: &'static str = "";
pub const AUTOLOOT_OFFSET: i32 = 18;

pub const DRAGONROT_EFFECT: &'static str = "";
pub const DRAGONROT_EFFECT_OFFSET: i32 = 13;

} // verus!
