//! USB devices recognised as boards.
use vstd::prelude::*;

use crate::engine::Board;

verus! {

/// A connected device and the board it was recognised as.
#[derive(Debug)]
pub struct DeviceInfo {
    pub board: Board,
    pub vendor_id: u16,
    pub product_id: u16,
}

} // verus!
