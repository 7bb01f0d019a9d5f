//! CAN frame as this core sees it: an 11-bit communication object
//! identifier (COB-ID) carried in a 16-bit word, and up to eight payload
//! bytes. Conversion to a concrete bus driver's frame type happens outside
//! this core.

use vstd::prelude::*;

verus! {

/// Abstract value of a frame: its COB-ID and its payload bytes.
#[verifier::ext_equal]
pub struct FrameView {
    pub cob_id: u16,
    pub data: Seq<u8>,
}

/// One CAN frame: COB-ID and payload.
pub struct CanFrame {
    pub cob_id: u16,
    pub data: Vec<u8>,
}

impl View for CanFrame {
    type V = FrameView;

    open spec fn view(&self) -> FrameView {
        FrameView { cob_id: self.cob_id, data: self.data@ }
    }
}

impl CanFrame {
    /// Builds a frame from its identifier and payload bytes.
    pub fn new(cob_id: u16, data: Vec<u8>) -> (r: CanFrame)
        ensures
            r@ == (FrameView { cob_id, data: data@ }),
    {
        CanFrame { cob_id, data }
    }
}

} // verus!
