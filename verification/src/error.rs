//! What a session answers in place of doing what it was asked.
use vstd::prelude::*;

use crate::{Frame, PlayerHandle};

verus! {

/// The errors of a session. They are returned as values; a session never panics.
#[derive(Clone, Debug, PartialEq, Eq)]
pub enum GGRSError {
    /// The prediction window is full: poll the network and try again.
    PredictionThreshold,
    /// The session is not synchronized with its peers yet.
    NotSynchronized,
    /// The request makes no sense; `info` says why.
    InvalidRequest { info: String },
    /// An input has the wrong size or comes out of order.
    InvalidInput,
    /// The input that a spectator needs has been overwritten already.
    SpectatorTooFarBehind,
    /// Replaying `frame` gave another checksum than the first pass.
    MismatchedChecksum { frame: Frame },
    /// The player is gone.
    PlayerDisconnected { handle: PlayerHandle },
    /// The session is in a state in which the request cannot be served.
    GeneralFailure,
}

} // verus!
