//! The palette of the scene, as 24-bit RGB values.

use vstd::prelude::*;

verus! {

pub const WIND: u32 = 0x446688;

pub const BG: u32 = 0x203050;

pub const WINDEX: u32 = 0xFFA500;

pub const HULL: u32 = 0xAAAAAA;

pub const SAIL: u32 = 0xFFFFFF;

pub const RUDDER: u32 = 0x882222;

} // verus!
