//! The spectrum bridge: the single owner of the latest stabilized frame.
//!
//! All synchronization with the capture and render threads happens outside
//! the library, by message passing into one control loop; that loop holds a
//! `SpectrumBridge` and is its sole mutator, so the state machine here is
//! plain sequential code.

use vstd::prelude::*;

use crate::frame::{copy_frame, frame_zero};

verus! {

/// The messages the bridge's control loop dispatches on: a raw sample chunk
/// from the capture side, or a consumer's request for the latest frame.
pub enum Event {
    Push(Vec<i64>),
    Consume,
}

/// The most recently published stabilized spectrum.
pub struct SpectrumBridge {
    /// The latest accepted frame; empty until the first publish.
    pub latest: Vec<u64>,
    /// Sequence number of the latest accepted frame.
    pub latest_seq: u64,
    /// Whether any frame has been published yet.
    pub has_frame: bool,
}

impl SpectrumBridge {
    /// Before the first publish nothing is stored.
    pub open spec fn wf(&self) -> bool {
        !self.has_frame ==> self.latest@.len() == 0 && self.latest_seq == 0
    }

    pub fn new() -> (b: SpectrumBridge)
        ensures
            b.wf(),
            !b.has_frame,
            b.latest@.len() == 0,
    {
        SpectrumBridge { latest: Vec::new(), latest_seq: 0, has_frame: false }
    }

    /// Number of bars a frame must have to be accepted: fixed per session by
    /// the first published frame.
    pub open spec fn bar_count(&self) -> int {
        self.latest@.len() as int
    }

    /// Whether a publish with this length and sequence number is accepted:
    /// the first frame always, later ones only when newer than the stored
    /// frame and of the session's length.
    pub open spec fn accepts(&self, len: int, seq: int) -> bool {
        !self.has_frame || (seq > self.latest_seq && len == self.bar_count())
    }

    /// Replaces the stored frame wholesale. A frame older than the stored
    /// one (out-of-order completion of a concurrent cycle) or of a different
    /// length than the session's bar count is discarded, so consumers always
    /// see a recent frame of stable size.
    pub fn publish(&mut self, frame: Vec<u64>, seq: u64) -> (accepted: bool)
        requires
            old(self).wf(),
        ensures
            final(self).wf(),
            accepted == old(self).accepts(frame@.len() as int, seq as int),
            accepted ==> final(self).latest@ == frame@ && final(self).latest_seq == seq
                && final(self).has_frame,
            !accepted ==> final(self).latest@ == old(self).latest@
                && final(self).latest_seq == old(self).latest_seq
                && final(self).has_frame == old(self).has_frame,
    {
        if !self.has_frame || (seq > self.latest_seq && frame.len() == self.latest.len()) {
            self.latest = frame;
            self.latest_seq = seq;
            self.has_frame = true;
            true
        } else {
            false
        }
    }

    /// Returns a copy of the current state: the latest published frame, or
    /// the well-defined empty frame when nothing has been published yet.
    /// Never an error, never a panic, no waiting on anything.
    pub fn query(&self) -> (frame: Vec<u64>)
        requires
            self.wf(),
        ensures
            frame@ == self.latest@,
            self.has_frame ==> frame@.len() == self.bar_count(),
            !self.has_frame ==> frame@.len() == 0 && frame_zero(frame@),
    {
        copy_frame(&self.latest)
    }
}

} // verus!
