//! Stream reassembly, face tracking and telemetry decoding for a small
//! camera drone that streams H.264 video and state records over UDP.

pub mod assembler;
pub mod decoding;
pub mod movement;
pub mod state;
pub mod tracker;
pub mod video;

use vstd::prelude::*;

verus! {

/// A message sent to a worker loop by the command shell.
#[derive(PartialEq, Eq, Structural, Clone, Copy, Debug)]
pub enum ThreadMsg {
    ShutdownThread,
}

} // verus!
