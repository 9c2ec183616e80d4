//! Selection of the capture device the surrounding application records from.

use vstd::prelude::*;

verus! {

/// Which capture device the application should open: the `usize` is the
/// index into the host's list of input or output devices.
#[derive(Debug, Clone, Copy, PartialEq, Eq, Structural)]
pub enum AudioDevice {
    Input(usize),
    Output(usize),
}

} // verus!
