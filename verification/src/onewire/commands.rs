use vstd::prelude::*;

verus! {

/// ROM command: address a single device by its 64-bit address.
pub const MATCH_ROM: u8 = 0x55;

/// ROM command: broadcast to every device on the bus.
pub const SKIP_ROM: u8 = 0xCC;

/// ROM command: begin one pass of the device-discovery search.
pub const SEARCH_NORMAL: u8 = 0xF0;

} // verus!
