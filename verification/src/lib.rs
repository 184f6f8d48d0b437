//! Rollback netcode sessions for deterministic lockstep games.
//!
//! Peers exchange per-frame inputs over an unreliable transport. Each peer
//! simulates on its own, predicts the inputs that have not arrived yet, and
//! rewinds and replays when a prediction turns out wrong. The library never
//! drives the game: it hands out ordered requests that the host fulfils.
//!
//! The library does no I/O and reads no clock. The caller hands it the
//! messages that arrived and the time in milliseconds, and takes back the
//! messages to send.
use vstd::prelude::*;

pub mod error;
pub mod frame_info;
pub mod input_queue;
pub mod network;
pub mod sessions;
pub mod sync_layer;
pub mod time_sync;

use crate::frame_info::{views, InputView, PlayerInput};
use crate::error::GGRSError;
use crate::input_queue::MAX_PREDICTION_FRAMES;
use crate::sessions::sync_test_session::{initial_sync_test, SyncTestSession};

verus! {

/// A frame number. Valid frames start at 0.
pub type Frame = i32;

/// A slot of a local or remote player.
pub type PlayerHandle = usize;

/// Stands for "no frame" or "frame unknown".
pub const NULL_FRAME: Frame = -1;

/// Whether a session is still shaking hands with its peers or runs.
#[derive(Copy, Clone, Debug, PartialEq, Eq, Structural)]
pub enum SessionState {
    /// The session waits for its peers to synchronize.
    Synchronizing,
    /// The session is synchronized and accepts input.
    Running,
}

/// What a session tells the host about its peers.
#[derive(Copy, Clone, Debug, PartialEq, Eq, Structural)]
pub enum GGRSEvent {
    /// The handshake with a peer has made progress: `count` of `total` round trips are done.
    Synchronizing { player_handle: PlayerHandle, total: u32, count: u32 },
    /// The handshake with a peer is complete.
    Synchronized { player_handle: PlayerHandle },
    /// The peer is gone.
    Disconnected { player_handle: PlayerHandle },
    /// Nothing has arrived from the peer for a while; after `disconnect_timeout`
    /// more milliseconds of silence it will count as gone.
    NetworkInterrupted { player_handle: PlayerHandle, disconnect_timeout: u128 },
    /// Messages from the peer arrive again.
    NetworkResumed { player_handle: PlayerHandle },
    /// The session is ahead of its peers; the host should skip `skip_frames` frames.
    WaitRecommendation { skip_frames: u32 },
}

/// What a session asks of the host. The host fulfils the requests of one
/// call in the order in which they are given.
#[derive(Clone, Debug, PartialEq, Eq)]
pub enum GGRSRequest {
    /// Save the state of the game for `frame` into the cell with this number.
    SaveGameState { cell: usize, frame: Frame },
    /// Restore the state of the game from the cell with this number, which holds `frame`.
    LoadGameState { cell: usize, frame: Frame },
    /// Advance the game by one frame with these inputs, one per player. An
    /// input whose frame is `NULL_FRAME` belongs to a player who has left.
    AdvanceFrame { inputs: Vec<PlayerInput> },
}

/// The mathematical value of a [`GGRSRequest`].
pub enum RequestView {
    SaveGameState { cell: int, frame: int },
    LoadGameState { cell: int, frame: int },
    AdvanceFrame { inputs: Seq<InputView> },
}

impl View for GGRSRequest {
    type V = RequestView;

    open spec fn view(&self) -> RequestView {
        match *self {
            GGRSRequest::SaveGameState { cell, frame } => RequestView::SaveGameState {
                cell: cell as int,
                frame: frame as int,
            },
            GGRSRequest::LoadGameState { cell, frame } => RequestView::LoadGameState {
                cell: cell as int,
                frame: frame as int,
            },
            GGRSRequest::AdvanceFrame { inputs } => RequestView::AdvanceFrame {
                inputs: views(inputs@),
            },
        }
    }
}

/// The views of a sequence of requests, one for one.
pub open spec fn request_views(requests: Seq<GGRSRequest>) -> Seq<RequestView> {
    Seq::new(requests.len(), |i: int| requests[i]@)
}

/// A session that tests whether a game is deterministic: for `num_players`
/// players with inputs of `input_size` bytes, in which the game goes back
/// `check_distance` frames in every frame.
///
/// # Errors
/// - `InvalidRequest` if `check_distance` is not below the widest prediction window.
pub fn start_synctest_session(num_players: usize, input_size: u16, check_distance: u32) -> (result:
    Result<SyncTestSession, GGRSError>)
    ensures
        check_distance < MAX_PREDICTION_FRAMES ==> (result matches Ok(session) && session.wf()
            && session@ == initial_sync_test(num_players, input_size, check_distance)),
        check_distance >= MAX_PREDICTION_FRAMES ==> (result matches Err(
            GGRSError::InvalidRequest { info },
        ) && info@ == "Check distance too big."@),
{
    SyncTestSession::new(num_players, input_size, check_distance)
}

/// Figures on the connection to one peer.
#[derive(Copy, Clone, Debug, PartialEq, Eq, Structural)]
pub struct NetworkStats {
    /// The number of inputs that wait for the peer's acknowledgement.
    pub send_queue_len: usize,
    /// The round-trip time in milliseconds.
    pub ping: u128,
    /// The rate of sending, in kilobytes per second.
    pub kbps_sent: usize,
    /// How many frames this side is behind the peer.
    pub local_frames_behind: i32,
    /// How many frames the peer is behind this side.
    pub remote_frames_behind: i32,
}

} // verus!
