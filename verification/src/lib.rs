//! Frame-rate unlocker for Sekiro running under Linux: the verified part.
//!
//! The library decides what to patch in the game's memory and in which
//! order; the process access itself (signature scans, page lookups, memory
//! reads, writes and protection changes) is carried out by the program that
//! drives the state machines defined here.

use vstd::prelude::*;

pub mod gamedata;
pub mod vm;
pub mod patch;
pub mod fps_unlock;
pub mod fov;
