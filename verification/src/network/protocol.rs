//! The endpoint of the connection to one peer.
//!
//! An endpoint shakes hands with its peer, sends the local inputs until the
//! peer acknowledges them, hands on the inputs that arrive, measures the
//! quality of the connection and notices when the peer falls silent. It does
//! no I/O: the caller hands it the messages that arrived together with the
//! time, and takes the messages to send out of its queue.
//!
//! What an endpoint does is stated on its mathematical value, an
//! [`EndpointView`]: every operation of [`UdpProtocol`] takes the value to
//! the one that the spec function of the same purpose gives.
use vstd::prelude::*;

use crate::error::GGRSError;
use crate::frame_info::{views, InputView, PlayerInput};
use crate::network::compression::{decode, decoded, delta_encoded, encode, rle_encoded, run_starts_at};
use crate::network::udp_msg::{
    message_views, BodyView, ConnectionStatus, Input, InputAck, InputBody, MessageBody,
    MessageHeader, MessageView, QualityReply, QualityReport, SyncReply, SyncRequest, UdpMessage,
};
use crate::time_sync::{TimeSync, TimeSyncView, FRAME_WINDOW_SIZE};
use crate::{Frame, NetworkStats, PlayerHandle, NULL_FRAME};

verus! {

/// The number of round trips that complete the handshake.
pub const NUM_SYNC_PACKETS: u32 = 5;

/// After this many milliseconds without sending, a handshake request is sent again.
pub const SYNC_RETRY_INTERVAL: u128 = 500;

/// After this many milliseconds without an input from the peer, the pending inputs are sent again.
pub const RUNNING_RETRY_INTERVAL: u128 = 200;

/// After this many milliseconds without sending, a keep-alive is sent.
pub const KEEP_ALIVE_INTERVAL: u128 = 200;

/// A quality report is sent every so many milliseconds.
pub const QUALITY_REPORT_INTERVAL: u128 = 1000;

/// The most inputs that may wait for the peer's acknowledgement.
pub const PENDING_OUTPUT_SIZE: usize = 64;

/// The bytes that the transport adds to every datagram.
pub const UDP_HEADER_SIZE: usize = 28;

/// The states of an endpoint, in the order in which it passes through them.
#[derive(Copy, Clone, Debug, PartialEq, Eq, Structural)]
pub enum ProtocolState {
    /// Made, but the handshake has not begun.
    Initializing,
    /// The handshake is under way.
    Synchronizing,
    /// The handshake is complete; the endpoint runs from the next poll on.
    Synchronized,
    /// Inputs are exchanged.
    Running,
    /// The peer is gone. An endpoint never leaves this state and emits nothing in it.
    Disconnected,
}

/// What an endpoint tells its session.
#[derive(Clone, Debug, PartialEq, Eq)]
pub enum Event {
    /// The handshake has made progress: `count` of `total` round trips are done.
    Synchronizing { total: u32, count: u32 },
    /// The handshake is complete.
    Synchronized,
    /// An input of the peer has arrived.
    Input(PlayerInput),
    /// The peer is gone.
    Disconnected,
    /// The peer has been silent for a while; `disconnect_timeout` more
    /// milliseconds and it counts as gone.
    NetworkInterrupted { disconnect_timeout: u128 },
    /// The peer is heard again.
    NetworkResumed,
}

/// The mathematical value of an [`Event`].
pub enum EventView {
    Synchronizing { total: u32, count: u32 },
    Synchronized,
    Input(InputView),
    Disconnected,
    NetworkInterrupted { disconnect_timeout: u128 },
    NetworkResumed,
}

impl View for Event {
    type V = EventView;

    open spec fn view(&self) -> EventView {
        match *self {
            Event::Synchronizing { total, count } => EventView::Synchronizing { total, count },
            Event::Synchronized => EventView::Synchronized,
            Event::Input(input) => EventView::Input(input@),
            Event::Disconnected => EventView::Disconnected,
            Event::NetworkInterrupted { disconnect_timeout } => EventView::NetworkInterrupted {
                disconnect_timeout,
            },
            Event::NetworkResumed => EventView::NetworkResumed,
        }
    }
}

/// The views of a sequence of events, one for one.
pub open spec fn event_views(events: Seq<Event>) -> Seq<EventView> {
    Seq::new(events.len(), |i: int| events[i]@)
}

/// The input events for a sequence of inputs, one for one.
pub open spec fn input_events(inputs: Seq<InputView>) -> Seq<EventView> {
    Seq::new(inputs.len(), |i: int| EventView::Input(inputs[i]))
}

/// The part of an endpoint's state that is made of plain values.
#[derive(Copy, Clone, Debug)]
pub struct EndpointCore {
    pub state: ProtocolState,
    /// Stamped on every message that the endpoint sends.
    pub magic: u16,
    /// The peer's magic number, once a handshake reply has shown it.
    pub remote_magic: Option<u16>,
    /// The round trips that the handshake still needs.
    pub sync_remaining_roundtrips: u32,
    /// The number of the handshake request that is under way.
    pub sync_random: u32,
    /// When the last quality report was sent.
    pub running_last_quality_report: u128,
    /// When the last input arrived, or the pending inputs were last sent again.
    pub running_last_input_recv: u128,
    /// Whether the session has been told that the peer is silent.
    pub disconnect_notify_sent: bool,
    /// The silence after which the peer counts as gone, in milliseconds.
    pub disconnect_timeout: u128,
    /// The silence after which the session is warned, in milliseconds.
    pub disconnect_notify_start: u128,
    /// The frames per second at which the game runs.
    pub fps: u32,
    /// How far the session may run ahead of the peer's inputs.
    pub max_prediction: usize,
    /// The size of an input that the endpoint sends.
    pub send_size: u16,
    /// The size of an input that the endpoint receives.
    pub recv_size: u16,
    /// How many frames the peer seems to be ahead of this side.
    pub local_frame_advantage: i32,
    /// How many frames the peer says it is behind this side.
    pub remote_frame_advantage: i32,
    /// When the handshake began.
    pub stats_start_time: u128,
    pub packets_sent: usize,
    pub bytes_sent: usize,
    /// The smoothed round-trip time in milliseconds; 0 until the first measurement.
    pub round_trip_time: u128,
    pub last_send_time: u128,
    pub last_recv_time: u128,
}

/// `x`, or the largest `usize` if `x` is larger.
pub open spec fn capped(x: int) -> usize {
    if x > usize::MAX {
        usize::MAX
    } else {
        x as usize
    }
}

/// `x` brought into the range of `i8`.
pub open spec fn clamped_i8(x: int) -> i8 {
    if x > i8::MAX {
        i8::MAX
    } else if x < i8::MIN {
        i8::MIN
    } else {
        x as i8
    }
}

/// `x` brought into the range of `i32`.
pub open spec fn clamped_i32(x: int) -> i32 {
    if x > i32::MAX {
        i32::MAX
    } else if x < i32::MIN {
        i32::MIN
    } else {
        x as i32
    }
}

/// Whether at least `interval` milliseconds lie between `since` and `now`.
pub open spec fn elapsed(now: u128, since: u128, interval: u128) -> bool {
    now - since >= interval
}

/// The round-trip time after a new measurement: the first measurement as it
/// is, later ones with a weight of one eighth.
pub open spec fn smoothed(round_trip_time: u128, sample: u128) -> u128 {
    if round_trip_time == 0 {
        sample
    } else {
        (round_trip_time - round_trip_time / 8 + sample / 8) as u128
    }
}

/// The number of bytes that a message takes on the wire: two for the header,
/// and for the body the widths of its fields.
pub open spec fn wire_size(body: BodyView) -> nat {
    match body {
        BodyView::SyncRequest(_) => 6,
        BodyView::SyncReply(_) => 6,
        BodyView::Input(input) => 11 + input.bytes.len() + 5 * input.peer_connect_status.len(),
        BodyView::InputAck(_) => 6,
        BodyView::QualityReport(_) => 19,
        BodyView::QualityReply(_) => 18,
        BodyView::KeepAlive => 2,
    }
}

/// What a peer knows of each player after it has heard what another peer
/// knows: a player has left if either says so, and the later frame counts.
/// Slots of which the other peer says nothing stay as they are.
pub open spec fn merged_status(mine: Seq<ConnectionStatus>, theirs: Seq<ConnectionStatus>) -> Seq<
    ConnectionStatus,
> {
    Seq::new(
        mine.len(),
        |i: int|
            if i < theirs.len() {
                ConnectionStatus {
                    disconnected: mine[i].disconnected || theirs[i].disconnected,
                    last_frame: if mine[i].last_frame >= theirs[i].last_frame {
                        mine[i].last_frame
                    } else {
                        theirs[i].last_frame
                    },
                }
            } else {
                mine[i]
            },
    )
}

/// The last `keep` entries of `history`, or all of it if it has no more.
pub open spec fn trimmed(history: Seq<InputView>, keep: int) -> Seq<InputView> {
    if history.len() > keep {
        history.skip(history.len() - keep)
    } else {
        history
    }
}

/// The mathematical value of a [`UdpProtocol`].
pub struct EndpointView {
    pub core: EndpointCore,
    /// The players whose inputs the peer sends.
    pub handles: Seq<PlayerHandle>,
    /// The messages that wait to be sent, oldest first.
    pub send_queue: Seq<MessageView>,
    /// The events that wait for the session, oldest first.
    pub event_queue: Seq<EventView>,
    /// What the peer knows of each player.
    pub peer_connect_status: Seq<ConnectionStatus>,
    /// The inputs that the peer has not acknowledged, oldest first.
    pub pending_output: Seq<InputView>,
    /// The last input that the peer has acknowledged.
    pub last_acked_input: InputView,
    /// The latest inputs of the peer, oldest first. Before any has arrived
    /// this is one all-zero input for the frame before the first.
    pub received: Seq<InputView>,
    pub time_sync: TimeSyncView,
}

impl EndpointView {
    /// The frame of the peer's latest input, `NULL_FRAME` before any has arrived.
    pub open spec fn last_recv_frame(self) -> int {
        self.received.last().frame
    }

    /// How many received inputs the endpoint keeps to decode against.
    pub open spec fn history_len(self) -> int {
        2 * self.core.max_prediction + 1
    }

    /// What holds of every endpoint: the received inputs and the pending
    /// inputs are runs of consecutive frames, the pending ones follow the
    /// acknowledged one, and all have the sizes of the connection.
    pub open spec fn inv(self) -> bool {
        &&& self.received.len() > 0
        &&& self.received[0].frame >= NULL_FRAME
        &&& run_starts_at(self.received, self.received[0].frame)
        &&& self.last_recv_frame() <= i32::MAX
        &&& forall|i: int|
            0 <= i < self.received.len() ==> (#[trigger] self.received[i]).bytes.len()
                == self.core.recv_size
        &&& NULL_FRAME <= self.last_acked_input.frame <= i32::MAX
        &&& self.last_acked_input.bytes.len() == self.core.send_size
        &&& run_starts_at(self.pending_output, self.last_acked_input.frame + 1)
        &&& self.pending_output.len() <= PENDING_OUTPUT_SIZE
        &&& self.last_acked_input.frame + self.pending_output.len() <= i32::MAX
        &&& forall|i: int|
            0 <= i < self.pending_output.len() ==> (#[trigger] self.pending_output[i]).bytes.len()
                == self.core.send_size
        &&& self.core.state == ProtocolState::Synchronizing ==> 1
            <= self.core.sync_remaining_roundtrips <= NUM_SYNC_PACKETS
        &&& self.time_sync.local.len() == FRAME_WINDOW_SIZE
        &&& self.time_sync.remote.len() == FRAME_WINDOW_SIZE
    }

    /// The endpoint with one more message to send.
    pub open spec fn queued(self, body: BodyView, now: u128) -> EndpointView {
        EndpointView {
            core: EndpointCore {
                packets_sent: capped(self.core.packets_sent + 1),
                bytes_sent: capped(self.core.bytes_sent + wire_size(body)),
                last_send_time: now,
                ..self.core
            },
            send_queue: self.send_queue.push(MessageView { magic: self.core.magic, body }),
            ..self
        }
    }

    /// The endpoint with one more event for the session.
    pub open spec fn emitted(self, event: EventView) -> EndpointView {
        EndpointView { event_queue: self.event_queue.push(event), ..self }
    }

    /// The endpoint in another state.
    pub open spec fn in_state(self, state: ProtocolState) -> EndpointView {
        EndpointView { core: EndpointCore { state, ..self.core }, ..self }
    }

    /// The endpoint after it has sent a handshake request with the number `nonce`.
    pub open spec fn sync_requested(self, now: u128, nonce: u32) -> EndpointView {
        EndpointView {
            core: EndpointCore { sync_random: nonce, ..self.core },
            ..self
        }.queued(BodyView::SyncRequest(SyncRequest { random_request: nonce }), now)
    }

    /// The endpoint after it has begun the handshake.
    pub open spec fn synchronizing(self, now: u128, nonce: u32) -> EndpointView {
        EndpointView {
            core: EndpointCore {
                state: ProtocolState::Synchronizing,
                sync_remaining_roundtrips: NUM_SYNC_PACKETS,
                stats_start_time: now,
                ..self.core
            },
            ..self
        }.sync_requested(now, nonce)
    }

    /// The endpoint after a handshake reply from an endpoint with this magic number.
    ///
    /// A reply counts only during the handshake and only if it carries the
    /// number of the request that is under way. The first that counts shows
    /// the peer's magic number. The last one completes the handshake; after
    /// each of the others the next request goes out.
    pub open spec fn after_sync_reply(self, magic: u16, body: SyncReply, now: u128, nonce: u32)
        -> EndpointView {
        if self.core.state != ProtocolState::Synchronizing || body.random_reply
            != self.core.sync_random {
            self
        } else {
            let remaining = (self.core.sync_remaining_roundtrips - 1) as u32;
            let counted = EndpointView {
                core: EndpointCore {
                    remote_magic: if self.core.remote_magic is None {
                        Some(magic)
                    } else {
                        self.core.remote_magic
                    },
                    sync_remaining_roundtrips: remaining,
                    ..self.core
                },
                ..self
            };
            if remaining > 0 {
                counted.emitted(
                    EventView::Synchronizing {
                        total: NUM_SYNC_PACKETS,
                        count: (NUM_SYNC_PACKETS - remaining) as u32,
                    },
                ).sync_requested(now, nonce)
            } else {
                counted.in_state(ProtocolState::Synchronized).emitted(EventView::Synchronized)
            }
        }
    }

    /// The endpoint after the peer's quality report: it notes the peer's
    /// frame advantage and echoes the peer's clock.
    pub open spec fn after_quality_report(self, body: QualityReport, now: u128) -> EndpointView {
        EndpointView {
            core: EndpointCore { remote_frame_advantage: body.frame_advantage as i32, ..self.core },
            ..self
        }.queued(BodyView::QualityReply(QualityReply { pong: body.ping }), now)
    }

    /// The endpoint after the peer has echoed this side's clock: the time
    /// since then is a measurement of the round trip. An echo from the future
    /// measures nothing.
    pub open spec fn after_quality_reply(self, body: QualityReply, now: u128) -> EndpointView {
        if now < body.pong {
            self
        } else {
            EndpointView {
                core: EndpointCore {
                    round_trip_time: smoothed(
                        self.core.round_trip_time,
                        (now - body.pong) as u128,
                    ),
                    ..self.core
                },
                ..self
            }
        }
    }

    /// The endpoint after it has sent a quality report.
    pub open spec fn quality_reported(self, now: u128) -> EndpointView {
        EndpointView {
            core: EndpointCore { running_last_quality_report: now, ..self.core },
            ..self
        }.queued(
            BodyView::QualityReport(
                QualityReport {
                    frame_advantage: clamped_i8(self.core.local_frame_advantage as int),
                    ping: now,
                },
            ),
            now,
        )
    }

    /// How many of the pending inputs an acknowledgement of `ack_frame` covers.
    pub open spec fn acked_count(self, ack_frame: int) -> int {
        let covered = ack_frame - self.last_acked_input.frame;
        if covered <= 0 {
            0
        } else if covered >= self.pending_output.len() {
            self.pending_output.len() as int
        } else {
            covered
        }
    }

    /// The endpoint after the peer has acknowledged the inputs up to
    /// `ack_frame`: they no longer wait, and the last of them is the
    /// acknowledged input.
    pub open spec fn acked(self, ack_frame: int) -> EndpointView {
        let count = self.acked_count(ack_frame);
        EndpointView {
            pending_output: self.pending_output.skip(count),
            last_acked_input: if count > 0 {
                self.pending_output[count - 1]
            } else {
                self.last_acked_input
            },
            ..self
        }
    }

    /// The endpoint after it has sent the pending inputs, if there are any:
    /// one message that holds them all, compressed against the acknowledged
    /// input, with the frame of the peer's latest input as acknowledgement.
    pub open spec fn pending_sent(self, connect_status: Seq<ConnectionStatus>, now: u128)
        -> EndpointView {
        if self.pending_output.len() == 0 {
            self
        } else {
            self.queued(
                BodyView::Input(
                    InputBody {
                        peer_connect_status: connect_status,
                        disconnect_requested: self.core.state == ProtocolState::Disconnected,
                        start_frame: self.pending_output[0].frame as i32,
                        ack_frame: self.last_recv_frame() as i32,
                        bytes: rle_encoded(
                            delta_encoded(self.last_acked_input.bytes, self.pending_output),
                        ),
                    },
                ),
                now,
            )
        }
    }

    /// Whether `input` is the next to send: it has the size of the
    /// connection and its frame follows the last pending one.
    pub open spec fn accepts(self, input: InputView) -> bool {
        input.bytes.len() == self.core.send_size && input.frame == self.last_acked_input.frame
            + self.pending_output.len() + 1
    }

    /// The endpoint after the session has handed it the local input of a frame.
    ///
    /// Only a running endpoint takes inputs, and only the next in order. It
    /// records the frame advantages of the frame, and sends all pending inputs.
    /// Where the peer has left more than `PENDING_OUTPUT_SIZE` inputs
    /// unacknowledged, the endpoint gives the peer up and drops them.
    pub open spec fn after_send_input(
        self,
        input: InputView,
        connect_status: Seq<ConnectionStatus>,
        now: u128,
    ) -> EndpointView {
        if self.core.state != ProtocolState::Running || !self.accepts(input) {
            self
        } else {
            let recorded = EndpointView {
                time_sync: self.time_sync.advanced(
                    input.frame as i32,
                    self.core.local_frame_advantage,
                    self.core.remote_frame_advantage,
                ),
                ..self
            };
            if self.pending_output.len() >= PENDING_OUTPUT_SIZE {
                EndpointView { pending_output: Seq::empty(), ..recorded }.in_state(
                    ProtocolState::Disconnected,
                ).emitted(EventView::Disconnected)
            } else {
                EndpointView {
                    pending_output: self.pending_output.push(input),
                    ..recorded
                }.pending_sent(connect_status, now)
            }
        }
    }

    /// The received input for `frame`, if the endpoint still keeps it.
    pub open spec fn reference_at(self, frame: int) -> Option<InputView> {
        let index = frame - self.received[0].frame;
        if 0 <= index < self.received.len() {
            Some(self.received[index])
        } else {
            None
        }
    }

    /// Those of the decoded inputs, a run that starts at `start_frame`, that
    /// come after the latest received input.
    pub open spec fn fresh(self, start_frame: int, inputs: Seq<InputView>) -> Seq<InputView> {
        let known = self.last_recv_frame() + 1 - start_frame;
        if known >= inputs.len() {
            Seq::empty()
        } else if known <= 0 {
            inputs
        } else {
            inputs.skip(known)
        }
    }

    /// The endpoint after a batch of inputs from the peer.
    ///
    /// The acknowledgement in the batch is noted first. A batch that asks for
    /// a disconnect ends the connection. Otherwise what the peer knows of the
    /// players is merged in, and the payload is decoded against the received
    /// input of the frame before the batch. A batch for which that input is
    /// not at hand, or whose payload does not decode, is dropped. Of the
    /// decoded inputs, those after the latest received one are kept and handed
    /// to the session in the order of their frames, and the latest is
    /// acknowledged.
    pub open spec fn after_input(self, body: InputBody, now: u128) -> EndpointView {
        let acked = self.acked(body.ack_frame as int);
        if body.disconnect_requested {
            acked.in_state(ProtocolState::Disconnected).emitted(EventView::Disconnected)
        } else {
            let merged = EndpointView {
                peer_connect_status: merged_status(
                    self.peer_connect_status,
                    body.peer_connect_status,
                ),
                ..acked
            };
            match merged.reference_at(body.start_frame - 1) {
                None => merged,
                Some(reference) => match decoded(
                    reference.bytes,
                    body.start_frame as int,
                    body.bytes,
                ) {
                    Err(_) => merged,
                    Ok(inputs) => {
                        let fresh = merged.fresh(body.start_frame as int, inputs);
                        let stored = EndpointView {
                            core: EndpointCore { running_last_input_recv: now, ..merged.core },
                            received: trimmed(merged.received + fresh, merged.history_len()),
                            event_queue: merged.event_queue + input_events(fresh),
                            ..merged
                        };
                        stored.queued(
                            BodyView::InputAck(
                                InputAck { ack_frame: stored.last_recv_frame() as i32 },
                            ),
                            now,
                        )
                    },
                },
            }
        }
    }

    /// The endpoint after a message from the peer has arrived at `now`.
    ///
    /// A disconnected endpoint takes no messages, and no endpoint takes one
    /// that carries another magic number than the one its peer has shown.
    /// Any other message shows that the peer is alive, and is then handled
    /// by its kind.
    pub open spec fn handled(self, message: MessageView, now: u128, nonce: u32) -> EndpointView {
        if self.core.state == ProtocolState::Disconnected {
            self
        } else if self.core.remote_magic is Some && self.core.remote_magic != Some(message.magic) {
            self
        } else {
            let heard = EndpointView {
                core: EndpointCore { last_recv_time: now, ..self.core },
                ..self
            };
            let resumed = if heard.core.disconnect_notify_sent && heard.core.state
                == ProtocolState::Running {
                EndpointView {
                    core: EndpointCore { disconnect_notify_sent: false, ..heard.core },
                    ..heard
                }.emitted(EventView::NetworkResumed)
            } else {
                heard
            };
            match message.body {
                BodyView::SyncRequest(body) => resumed.queued(
                    BodyView::SyncReply(SyncReply { random_reply: body.random_request }),
                    now,
                ),
                BodyView::SyncReply(body) => resumed.after_sync_reply(
                    message.magic,
                    body,
                    now,
                    nonce,
                ),
                BodyView::Input(body) => resumed.after_input(body, now),
                BodyView::InputAck(body) => resumed.acked(body.ack_frame as int),
                BodyView::QualityReport(body) => resumed.after_quality_report(body, now),
                BodyView::QualityReply(body) => resumed.after_quality_reply(body, now),
                BodyView::KeepAlive => resumed,
            }
        }
    }

    /// A running endpoint after the work that falls due at `now`.
    ///
    /// A peer that has been silent for the disconnect timeout is given up:
    /// the endpoint says so once and is disconnected. Otherwise the endpoint
    /// sends the pending inputs again if no input has arrived for a while,
    /// a quality report if one is due, a keep-alive if it has sent nothing
    /// for a while, and warns the session once if the peer has been silent for
    /// the notify delay.
    pub open spec fn ran(self, connect_status: Seq<ConnectionStatus>, now: u128) -> EndpointView {
        if elapsed(now, self.core.last_recv_time, self.core.disconnect_timeout) {
            self.in_state(ProtocolState::Disconnected).emitted(EventView::Disconnected)
        } else {
            let resent = if elapsed(now, self.core.running_last_input_recv, RUNNING_RETRY_INTERVAL) {
                let sent = self.pending_sent(connect_status, now);
                EndpointView {
                    core: EndpointCore { running_last_input_recv: now, ..sent.core },
                    ..sent
                }
            } else {
                self
            };
            let reported = if elapsed(
                now,
                resent.core.running_last_quality_report,
                QUALITY_REPORT_INTERVAL,
            ) {
                resent.quality_reported(now)
            } else {
                resent
            };
            let kept = if elapsed(now, reported.core.last_send_time, KEEP_ALIVE_INTERVAL) {
                reported.queued(BodyView::KeepAlive, now)
            } else {
                reported
            };
            if !kept.core.disconnect_notify_sent && elapsed(
                now,
                kept.core.last_recv_time,
                kept.core.disconnect_notify_start,
            ) {
                EndpointView {
                    core: EndpointCore { disconnect_notify_sent: true, ..kept.core },
                    ..kept
                }.emitted(
                    EventView::NetworkInterrupted {
                        disconnect_timeout: if kept.core.disconnect_timeout
                            >= kept.core.disconnect_notify_start {
                            (kept.core.disconnect_timeout - kept.core.disconnect_notify_start) as u128
                        } else {
                            0
                        },
                    },
                )
            } else {
                kept
            }
        }
    }

    /// The endpoint after the work that falls due at `now`, with the events
    /// that it has for the session still in its queue.
    ///
    /// During the handshake the request is sent again when nothing has been
    /// sent for a while. A synchronized endpoint starts to run.
    pub open spec fn worked(self, connect_status: Seq<ConnectionStatus>, now: u128, nonce: u32)
        -> EndpointView {
        match self.core.state {
            ProtocolState::Initializing => self,
            ProtocolState::Synchronizing => if elapsed(
                now,
                self.core.last_send_time,
                SYNC_RETRY_INTERVAL,
            ) {
                self.sync_requested(now, nonce)
            } else {
                self
            },
            ProtocolState::Synchronized => EndpointView {
                core: EndpointCore {
                    state: ProtocolState::Running,
                    running_last_quality_report: now,
                    running_last_input_recv: now,
                    ..self.core
                },
                ..self
            }.ran(connect_status, now),
            ProtocolState::Running => self.ran(connect_status, now),
            ProtocolState::Disconnected => self,
        }
    }

    /// The endpoint after a poll: it has done the work that falls due at
    /// `now` and handed its events to the session.
    pub open spec fn polled(self, connect_status: Seq<ConnectionStatus>, now: u128, nonce: u32)
        -> EndpointView {
        EndpointView { event_queue: Seq::empty(), ..self.worked(connect_status, now, nonce) }
    }

    /// The endpoint after the session has told it which frame the game is at.
    ///
    /// The peer is taken to be at its latest frame plus the frames that pass
    /// in half a round trip; the local frame advantage is how far that is
    /// ahead of the local frame. Nothing changes while either frame is unknown.
    pub open spec fn with_local_frame(self, local_frame: Frame) -> EndpointView {
        if local_frame == NULL_FRAME || self.last_recv_frame() == NULL_FRAME {
            self
        } else {
            let ping = if self.core.round_trip_time / 2 > i32::MAX {
                i32::MAX as int
            } else {
                self.core.round_trip_time as int / 2
            };
            let remote_frame = self.last_recv_frame() + (ping * self.core.fps) / 1000;
            EndpointView {
                core: EndpointCore {
                    local_frame_advantage: clamped_i32(remote_frame - local_frame),
                    ..self.core
                },
                ..self
            }
        }
    }

    /// The figures on the connection at `now`, if the endpoint is connected
    /// and at least a second has passed since the handshake began.
    pub open spec fn stats(self, now: u128) -> Option<NetworkStats> {
        let seconds = (now - self.core.stats_start_time) / 1000;
        if self.core.state == ProtocolState::Initializing || self.core.state
            == ProtocolState::Disconnected || seconds <= 0 {
            None
        } else {
            let total = capped(
                self.core.bytes_sent + capped(self.core.packets_sent * UDP_HEADER_SIZE),
            );
            Some(
                NetworkStats {
                    send_queue_len: self.pending_output.len() as usize,
                    ping: self.core.round_trip_time,
                    kbps_sent: (total as int / seconds / 1024) as usize,
                    local_frames_behind: self.core.local_frame_advantage,
                    remote_frames_behind: self.core.remote_frame_advantage,
                },
            )
        }
    }
}

/// An endpoint as it is made: nothing sent, nothing received, nothing pending.
pub open spec fn initial_endpoint(
    handles: Seq<PlayerHandle>,
    num_players: usize,
    send_size: u16,
    recv_size: u16,
    max_prediction: usize,
    disconnect_timeout: u128,
    disconnect_notify_start: u128,
    fps: u32,
    magic: u16,
    now: u128,
) -> EndpointView {
    EndpointView {
        core: EndpointCore {
            state: ProtocolState::Initializing,
            magic,
            remote_magic: None,
            sync_remaining_roundtrips: NUM_SYNC_PACKETS,
            sync_random: 0,
            running_last_quality_report: now,
            running_last_input_recv: now,
            disconnect_notify_sent: false,
            disconnect_timeout,
            disconnect_notify_start,
            fps,
            max_prediction,
            send_size,
            recv_size,
            local_frame_advantage: 0,
            remote_frame_advantage: 0,
            stats_start_time: 0,
            packets_sent: 0,
            bytes_sent: 0,
            round_trip_time: 0,
            last_send_time: now,
            last_recv_time: now,
        },
        handles,
        send_queue: Seq::empty(),
        event_queue: Seq::empty(),
        peer_connect_status: Seq::new(
            num_players as nat,
            |i: int| ConnectionStatus { disconnected: false, last_frame: NULL_FRAME },
        ),
        pending_output: Seq::empty(),
        last_acked_input: InputView {
            frame: NULL_FRAME as int,
            bytes: crate::frame_info::zeros(send_size as nat),
        },
        received: seq![
            InputView {
                frame: NULL_FRAME as int,
                bytes: crate::frame_info::zeros(recv_size as nat),
            },
        ],
        time_sync: TimeSyncView {
            local: Seq::new(FRAME_WINDOW_SIZE as nat, |i: int| 0i32),
            remote: Seq::new(FRAME_WINDOW_SIZE as nat, |i: int| 0i32),
        },
    }
}


/// The endpoint of the connection to one peer.
pub struct UdpProtocol {
    core: EndpointCore,
    handles: Vec<PlayerHandle>,
    send_queue: Vec<UdpMessage>,
    event_queue: Vec<Event>,
    peer_connect_status: Vec<ConnectionStatus>,
    pending_output: Vec<PlayerInput>,
    last_acked_input: PlayerInput,
    received: Vec<PlayerInput>,
    time_sync_layer: TimeSync,
}

impl View for UdpProtocol {
    type V = EndpointView;

    closed spec fn view(&self) -> EndpointView {
        EndpointView {
            core: self.core,
            handles: self.handles@,
            send_queue: message_views(self.send_queue@),
            event_queue: event_views(self.event_queue@),
            peer_connect_status: self.peer_connect_status@,
            pending_output: views(self.pending_output@),
            last_acked_input: self.last_acked_input@,
            received: views(self.received@),
            time_sync: self.time_sync_layer@,
        }
    }
}

/// Every input has the size `size` and a buffer of that length.
spec fn all_sized(inputs: Seq<PlayerInput>, size: u16) -> bool {
    forall|i: int| 0 <= i < inputs.len() ==> (#[trigger] inputs[i]).wf() && inputs[i].size == size
}

fn add_capped(a: usize, b: usize) -> (sum: usize)
    ensures
        sum == capped(a + b),
{
    if b > usize::MAX - a {
        usize::MAX
    } else {
        a + b
    }
}

fn is_elapsed(now: u128, since: u128, interval: u128) -> (due: bool)
    ensures
        due == elapsed(now, since, interval),
{
    now >= since && now - since >= interval
}

fn wire_size_added(base: usize, body: &MessageBody) -> (total: usize)
    ensures
        total == capped(base + wire_size(body@)),
{
    match body {
        MessageBody::SyncRequest(_) => add_capped(base, 6),
        MessageBody::SyncReply(_) => add_capped(base, 6),
        MessageBody::Input(input) => {
            let mut total = add_capped(add_capped(base, 11), input.bytes.len());
            let mut i: usize = 0;
            while i < 5
                invariant
                    i <= 5,
                    total == capped(
                        base + 11 + input.bytes@.len() + i * input.peer_connect_status@.len(),
                    ),
                decreases 5 - i,
            {
                assert((i + 1) * input.peer_connect_status@.len() == i
                    * input.peer_connect_status@.len() + input.peer_connect_status@.len())
                    by (nonlinear_arith);
                assert(0 <= i * input.peer_connect_status@.len()) by (nonlinear_arith);
                total = add_capped(total, input.peer_connect_status.len());
                i += 1;
            }
            total
        },
        MessageBody::InputAck(_) => add_capped(base, 6),
        MessageBody::QualityReport(_) => add_capped(base, 19),
        MessageBody::QualityReply(_) => add_capped(base, 18),
        MessageBody::KeepAlive => add_capped(base, 2),
    }
}

fn copy_status(status: &[ConnectionStatus]) -> (copy: Vec<ConnectionStatus>)
    ensures
        copy@ == status@,
{
    let mut copy: Vec<ConnectionStatus> = Vec::new();
    let mut i: usize = 0;
    while i < status.len()
        invariant
            i <= status.len(),
            copy@ == status@.take(i as int),
        decreases status.len() - i,
    {
        copy.push(status[i]);
        assert(status@.take(i as int).push(status@[i as int]) =~= status@.take(i as int + 1));
        i += 1;
    }
    assert(status@.take(status@.len() as int) =~= status@);
    copy
}

impl UdpProtocol {
    /// The endpoint's value is well formed, and so is each input it holds.
    pub closed spec fn wf(&self) -> bool {
        &&& self@.inv()
        &&& self.last_acked_input.wf()
        &&& self.last_acked_input.size == self.core.send_size
        &&& all_sized(self.pending_output@, self.core.send_size)
        &&& all_sized(self.received@, self.core.recv_size)
        &&& self.time_sync_layer.wf()
    }

    /// The value of a well-formed endpoint has the properties of [`EndpointView::inv`].
    pub proof fn lemma_wf_inv(&self)
        requires
            self.wf(),
        ensures
            self@.inv(),
    {
    }

    /// An endpoint for a peer that sends the inputs of the players `handles`.
    ///
    /// `send_size` and `recv_size` are the sizes of the inputs that travel to
    /// and from the peer, `magic` is stamped on every message, and `now` is
    /// the time in milliseconds, as in every other operation.
    pub fn new(
        handles: Vec<PlayerHandle>,
        num_players: usize,
        send_size: u16,
        recv_size: u16,
        max_prediction: usize,
        disconnect_timeout: u128,
        disconnect_notify_start: u128,
        fps: u32,
        magic: u16,
        now: u128,
    ) -> (endpoint: Self)
        ensures
            endpoint.wf(),
            endpoint@ == initial_endpoint(
                handles@,
                num_players,
                send_size,
                recv_size,
                max_prediction,
                disconnect_timeout,
                disconnect_notify_start,
                fps,
                magic,
                now,
            ),
    {
        let mut peer_connect_status: Vec<ConnectionStatus> = Vec::new();
        let mut i: usize = 0;
        while i < num_players
            invariant
                i <= num_players,
                peer_connect_status@ == Seq::new(
                    i as nat,
                    |i: int| ConnectionStatus { disconnected: false, last_frame: NULL_FRAME },
                ),
            decreases num_players - i,
        {
            peer_connect_status.push(ConnectionStatus::default());
            i += 1;
        }
        let mut received: Vec<PlayerInput> = Vec::new();
        received.push(PlayerInput::blank_input(recv_size));
        let endpoint = UdpProtocol {
            core: EndpointCore {
                state: ProtocolState::Initializing,
                magic,
                remote_magic: None,
                sync_remaining_roundtrips: NUM_SYNC_PACKETS,
                sync_random: 0,
                running_last_quality_report: now,
                running_last_input_recv: now,
                disconnect_notify_sent: false,
                disconnect_timeout,
                disconnect_notify_start,
                fps,
                max_prediction,
                send_size,
                recv_size,
                local_frame_advantage: 0,
                remote_frame_advantage: 0,
                stats_start_time: 0,
                packets_sent: 0,
                bytes_sent: 0,
                round_trip_time: 0,
                last_send_time: now,
                last_recv_time: now,
            },
            handles,
            send_queue: Vec::new(),
            event_queue: Vec::new(),
            peer_connect_status,
            pending_output: Vec::new(),
            last_acked_input: PlayerInput::blank_input(send_size),
            received,
            time_sync_layer: TimeSync::new(),
        };
        proof {
            let want = initial_endpoint(
                handles@,
                num_players,
                send_size,
                recv_size,
                max_prediction,
                disconnect_timeout,
                disconnect_notify_start,
                fps,
                magic,
                now,
            );
            assert(endpoint@.send_queue =~= want.send_queue);
            assert(endpoint@.event_queue =~= want.event_queue);
            assert(endpoint@.pending_output =~= want.pending_output);
            assert(endpoint@.received =~= want.received);
            assert(endpoint@.time_sync == want.time_sync);
        }
        endpoint
    }

    /// The state of the endpoint.
    pub fn state(&self) -> (state: ProtocolState)
        ensures
            state == self@.core.state,
    {
        self.core.state
    }

    /// The players whose inputs the peer sends.
    pub fn handles(&self) -> (handles: &Vec<PlayerHandle>)
        ensures
            handles@ == self@.handles,
    {
        &self.handles
    }

    /// Whether the handshake is complete.
    pub fn is_synchronized(&self) -> (done: bool)
        ensures
            done == (self@.core.state == ProtocolState::Synchronized || self@.core.state
                == ProtocolState::Running || self@.core.state == ProtocolState::Disconnected),
    {
        match self.core.state {
            ProtocolState::Synchronized | ProtocolState::Running | ProtocolState::Disconnected => true,
            _ => false,
        }
    }

    /// Whether inputs are exchanged.
    pub fn is_running(&self) -> (running: bool)
        ensures
            running == (self@.core.state == ProtocolState::Running),
    {
        match self.core.state {
            ProtocolState::Running => true,
            _ => false,
        }
    }

    /// What the peer knows of the player `handle`.
    pub fn peer_connect_status(&self, handle: PlayerHandle) -> (status: ConnectionStatus)
        requires
            handle < self@.peer_connect_status.len(),
        ensures
            status == self@.peer_connect_status[handle as int],
    {
        self.peer_connect_status[handle]
    }

    /// The number of player slots of which the endpoint keeps the peer's knowledge.
    pub fn num_players(&self) -> (count: usize)
        ensures
            count == self@.peer_connect_status.len(),
    {
        self.peer_connect_status.len()
    }

    /// The frame of the peer's latest input, `NULL_FRAME` before any has arrived.
    pub fn last_recv_frame(&self) -> (frame: Frame)
        requires
            self.wf(),
        ensures
            frame == self@.last_recv_frame(),
    {
        self.received[self.received.len() - 1].frame
    }

    /// How many frames this side should wait for the peer, judged by the
    /// frame advantages of the last frames.
    pub fn average_frame_advantage(&self) -> (average: i32)
        requires
            self.wf(),
        ensures
            average == self@.time_sync.average(),
    {
        self.time_sync_layer.average_frame_advantage()
    }

    /// Gives the peer up: the endpoint is disconnected from now on.
    pub fn disconnect(&mut self)
        requires
            old(self).wf(),
        ensures
            final(self).wf(),
            final(self)@ == old(self)@.in_state(ProtocolState::Disconnected),
    {
        self.core.state = ProtocolState::Disconnected;
    }

    /// Begins the handshake: sends the first request, with the number `nonce`.
    pub fn synchronize(&mut self, now: u128, nonce: u32)
        requires
            old(self).wf(),
            old(self)@.core.state == ProtocolState::Initializing,
        ensures
            final(self).wf(),
            final(self)@ == old(self)@.synchronizing(now, nonce),
    {
        self.core.state = ProtocolState::Synchronizing;
        self.core.sync_remaining_roundtrips = NUM_SYNC_PACKETS;
        self.core.stats_start_time = now;
        self.send_sync_request(now, nonce);
    }

    /// Tells the endpoint which frame the game is at, from which it
    /// estimates how far the peer is ahead.
    pub fn update_local_frame_advantage(&mut self, local_frame: Frame)
        requires
            old(self).wf(),
        ensures
            final(self).wf(),
            final(self)@ == old(self)@.with_local_frame(local_frame),
    {
        let last = self.last_recv_frame();
        if local_frame == NULL_FRAME || last == NULL_FRAME {
            return ;
        }
        let half = self.core.round_trip_time / 2;
        let ping: u128 = if half > i32::MAX as u128 {
            i32::MAX as u128
        } else {
            half
        };
        let fps = self.core.fps as u128;
        assert(ping * fps <= 0x7fff_ffff * 0xffff_ffff) by (nonlinear_arith)
            requires
                0 <= ping <= 0x7fff_ffff,
                0 <= fps <= 0xffff_ffff,
        ;
        let ahead = (ping * fps) / 1000;
        let remote_frame = last as i128 + ahead as i128;
        let advantage = remote_frame - local_frame as i128;
        self.core.local_frame_advantage = if advantage > i32::MAX as i128 {
            i32::MAX
        } else if advantage < i32::MIN as i128 {
            i32::MIN
        } else {
            advantage as i32
        };
    }

    /// The figures on the connection at `now`.
    ///
    /// # Errors
    /// - `NotSynchronized` if the endpoint is not connected, or less than a
    ///   second has passed since the handshake began.
    pub fn network_stats(&self, now: u128) -> (stats: Result<NetworkStats, GGRSError>)
        requires
            self.wf(),
        ensures
            match self@.stats(now) {
                Some(figures) => stats == Ok::<NetworkStats, GGRSError>(figures),
                None => stats == Err::<NetworkStats, GGRSError>(GGRSError::NotSynchronized),
            },
    {
        match self.core.state {
            ProtocolState::Initializing | ProtocolState::Disconnected => {
                return Err(GGRSError::NotSynchronized);
            },
            _ => {},
        }
        if now < self.core.stats_start_time {
            return Err(GGRSError::NotSynchronized);
        }
        let seconds = (now - self.core.stats_start_time) / 1000;
        if seconds == 0 {
            return Err(GGRSError::NotSynchronized);
        }
        let headers = if self.core.packets_sent > usize::MAX / UDP_HEADER_SIZE {
            usize::MAX
        } else {
            self.core.packets_sent * UDP_HEADER_SIZE
        };
        let total = add_capped(self.core.bytes_sent, headers);
        let bps = total as u128 / seconds;
        Ok(
            NetworkStats {
                send_queue_len: self.pending_output.len(),
                ping: self.core.round_trip_time,
                kbps_sent: (bps / 1024) as usize,
                local_frames_behind: self.core.local_frame_advantage,
                remote_frames_behind: self.core.remote_frame_advantage,
            },
        )
    }

    /// Takes the messages that wait to be sent out of the endpoint, oldest first.
    pub fn send_all_messages(&mut self) -> (messages: Vec<UdpMessage>)
        requires
            old(self).wf(),
        ensures
            final(self).wf(),
            message_views(messages@) == old(self)@.send_queue,
            final(self)@ == (EndpointView { send_queue: Seq::empty(), ..old(self)@ }),
    {
        let mut messages: Vec<UdpMessage> = Vec::new();
        core::mem::swap(&mut self.send_queue, &mut messages);
        assert(message_views(self.send_queue@) =~= Seq::empty());
        messages
    }

    fn emit(&mut self, event: Event)
        requires
            old(self).wf(),
        ensures
            final(self).wf(),
            final(self)@ == old(self)@.emitted(event@),
    {
        self.event_queue.push(event);
        assert(event_views(self.event_queue@) =~= event_views(old(self).event_queue@).push(
            event@,
        ));
    }

    fn queue_message(&mut self, body: MessageBody, now: u128)
        requires
            old(self).wf(),
        ensures
            final(self).wf(),
            final(self)@ == old(self)@.queued(body@, now),
    {
        let header = MessageHeader { magic: self.core.magic };
        self.core.packets_sent = add_capped(self.core.packets_sent, 1);
        self.core.last_send_time = now;
        self.core.bytes_sent = wire_size_added(self.core.bytes_sent, &body);
        let message = UdpMessage { header, body };
        self.send_queue.push(message);
        assert(message_views(self.send_queue@) =~= message_views(old(self).send_queue@).push(
            message@,
        ));
    }

    fn send_sync_request(&mut self, now: u128, nonce: u32)
        requires
            old(self).wf(),
        ensures
            final(self).wf(),
            final(self)@ == old(self)@.sync_requested(now, nonce),
    {
        self.core.sync_random = nonce;
        self.queue_message(MessageBody::SyncRequest(SyncRequest { random_request: nonce }), now);
    }

    fn send_quality_report(&mut self, now: u128)
        requires
            old(self).wf(),
        ensures
            final(self).wf(),
            final(self)@ == old(self)@.quality_reported(now),
    {
        self.core.running_last_quality_report = now;
        let advantage = self.core.local_frame_advantage;
        let frame_advantage: i8 = if advantage > i8::MAX as i32 {
            i8::MAX
        } else if advantage < i8::MIN as i32 {
            i8::MIN
        } else {
            advantage as i8
        };
        self.queue_message(
            MessageBody::QualityReport(QualityReport { frame_advantage, ping: now }),
            now,
        );
    }

    fn on_sync_reply(&mut self, magic: u16, body: SyncReply, now: u128, nonce: u32)
        requires
            old(self).wf(),
        ensures
            final(self).wf(),
            final(self)@ == old(self)@.after_sync_reply(magic, body, now, nonce),
    {
        // a reply counts only during the handshake
        match self.core.state {
            ProtocolState::Synchronizing => {},
            _ => {
                return ;
            },
        }
        // and only if it answers the request that is under way
        if body.random_reply != self.core.sync_random {
            return ;
        }
        if self.core.remote_magic.is_none() {
            self.core.remote_magic = Some(magic);
        }
        self.core.sync_remaining_roundtrips = self.core.sync_remaining_roundtrips - 1;
        if self.core.sync_remaining_roundtrips > 0 {
            self.emit(
                Event::Synchronizing {
                    total: NUM_SYNC_PACKETS,
                    count: NUM_SYNC_PACKETS - self.core.sync_remaining_roundtrips,
                },
            );
            self.send_sync_request(now, nonce);
        } else {
            self.core.state = ProtocolState::Synchronized;
            self.emit(Event::Synchronized);
        }
    }

    fn on_quality_report(&mut self, body: QualityReport, now: u128)
        requires
            old(self).wf(),
        ensures
            final(self).wf(),
            final(self)@ == old(self)@.after_quality_report(body, now),
    {
        self.core.remote_frame_advantage = body.frame_advantage as i32;
        self.queue_message(MessageBody::QualityReply(QualityReply { pong: body.ping }), now);
    }

    fn on_quality_reply(&mut self, body: QualityReply, now: u128)
        requires
            old(self).wf(),
        ensures
            final(self).wf(),
            final(self)@ == old(self)@.after_quality_reply(body, now),
    {
        if now < body.pong {
            return ;
        }
        let sample = now - body.pong;
        let round_trip_time = self.core.round_trip_time;
        self.core.round_trip_time = if round_trip_time == 0 {
            sample
        } else {
            round_trip_time - round_trip_time / 8 + sample / 8
        };
    }

    fn pop_pending_output(&mut self, ack_frame: Frame)
        requires
            old(self).wf(),
        ensures
            final(self).wf(),
            final(self)@ == old(self)@.acked(ack_frame as int),
    {
        let ghost before = self@;
        let ghost pending = self.pending_output@;
        let covered = ack_frame as i64 - self.last_acked_input.frame as i64;
        if covered <= 0 {
            assert(before.pending_output.skip(0) =~= before.pending_output);
            return ;
        }
        let count: usize = if covered >= self.pending_output.len() as i64 {
            self.pending_output.len()
        } else {
            covered as usize
        };
        if count == 0 {
            assert(before.pending_output.skip(0) =~= before.pending_output);
            return ;
        }
        // the inputs up to the acknowledged frame leave the queue; the last of them is kept
        let mut rest = self.pending_output.split_off(count);
        core::mem::swap(&mut self.pending_output, &mut rest);
        let last = rest.pop();
        match last {
            Some(input) => {
                self.last_acked_input = input;
            },
            None => {},
        }
        proof {
            lemma_views_subrange(pending, count as int, pending.len() as int);
            lemma_run_skip(before.pending_output, before.last_acked_input.frame + 1, count as int);
            assert(self.last_acked_input == pending[count - 1]);
            assert(pending[count - 1].wf());
            assert(views(pending)[count - 1] == pending[count - 1]@);
            assert(views(self.pending_output@) =~= before.pending_output.skip(count as int));
            assert(all_sized(self.pending_output@, self.core.send_size)) by {
                assert forall|i: int| 0 <= i < self.pending_output@.len() implies (
                #[trigger] self.pending_output@[i]).wf() && self.pending_output@[i].size
                    == self.core.send_size by {
                    assert(pending[count + i].wf());
                }
            }
            assert forall|i: int| 0 <= i < self@.pending_output.len() implies (
            #[trigger] self@.pending_output[i]).bytes.len() == self.core.send_size by {
                assert(before.pending_output[count + i].bytes.len() == self.core.send_size);
            }
        }
    }

    fn send_pending_output(&mut self, connect_status: &[ConnectionStatus], now: u128)
        requires
            old(self).wf(),
        ensures
            final(self).wf(),
            final(self)@ == old(self)@.pending_sent(connect_status@, now),
    {
        if self.pending_output.len() == 0 {
            return ;
        }
        assert(self.pending_output@[0].wf());
        assert(self.received@[self.received@.len() - 1].wf());
        assert(self.pending_output@.len() * self.core.send_size <= 64 * 65535) by (nonlinear_arith)
            requires
                self.pending_output@.len() <= 64,
                self.core.send_size <= 65535,
        ;
        let start_frame = self.pending_output[0].frame;
        // all pending inputs, compressed against the input that the peer has acknowledged
        let bytes = encode(&self.last_acked_input, self.pending_output.as_slice());
        let ack_frame = self.last_recv_frame();
        let disconnect_requested = match self.core.state {
            ProtocolState::Disconnected => true,
            _ => false,
        };
        let body = Input {
            peer_connect_status: copy_status(connect_status),
            disconnect_requested,
            start_frame,
            ack_frame,
            bytes,
        };
        self.queue_message(MessageBody::Input(body), now);
    }

    fn send_input_ack(&mut self, now: u128)
        requires
            old(self).wf(),
        ensures
            final(self).wf(),
            final(self)@ == old(self)@.queued(
                BodyView::InputAck(InputAck { ack_frame: old(self)@.last_recv_frame() as i32 }),
                now,
            ),
    {
        let ack_frame = self.last_recv_frame();
        self.queue_message(MessageBody::InputAck(InputAck { ack_frame }), now);
    }

    /// Hands the endpoint the local input of a frame, to be sent to the peer.
    ///
    /// An endpoint that does not run takes no input and says nothing.
    ///
    /// # Errors
    /// - `InvalidInput` if the endpoint runs and the input has not the size
    ///   of the connection or is not the next in order. Nothing changes then.
    pub fn send_input(
        &mut self,
        input: PlayerInput,
        connect_status: &[ConnectionStatus],
        now: u128,
    ) -> (result: Result<(), GGRSError>)
        requires
            old(self).wf(),
            input.wf(),
        ensures
            final(self).wf(),
            final(self)@ == old(self)@.after_send_input(input@, connect_status@, now),
            old(self)@.core.state == ProtocolState::Running && !old(self)@.accepts(input@)
                ==> result == Err::<(), GGRSError>(GGRSError::InvalidInput),
            !(old(self)@.core.state == ProtocolState::Running && !old(self)@.accepts(input@))
                ==> result is Ok,
    {
        match self.core.state {
            ProtocolState::Running => {},
            _ => {
                return Ok(());
            },
        }
        let expected = self.last_acked_input.frame as i64 + self.pending_output.len() as i64 + 1;
        if input.size != self.core.send_size || input.frame as i64 != expected {
            return Err(GGRSError::InvalidInput);
        }
        self.time_sync_layer.advance_frame(
            input.frame,
            self.core.local_frame_advantage,
            self.core.remote_frame_advantage,
        );
        if self.pending_output.len() >= PENDING_OUTPUT_SIZE {
            // the peer has not acknowledged anything for too long
            self.pending_output.clear();
            self.core.state = ProtocolState::Disconnected;
            assert(views(self.pending_output@) =~= Seq::empty());
            self.emit(Event::Disconnected);
            return Ok(());
        }
        self.pending_output.push(input);
        assert(views(self.pending_output@) =~= old(self)@.pending_output.push(input@));
        self.send_pending_output(connect_status, now);
        Ok(())
    }

    fn merge_status(&mut self, theirs: &Vec<ConnectionStatus>)
        requires
            old(self).wf(),
        ensures
            final(self).wf(),
            final(self)@ == (EndpointView {
                peer_connect_status: merged_status(old(self)@.peer_connect_status, theirs@),
                ..old(self)@
            }),
    {
        let ghost mine = self.peer_connect_status@;
        let mut i: usize = 0;
        while i < self.peer_connect_status.len() && i < theirs.len()
            invariant
                self.wf(),
                mine == old(self).peer_connect_status@,
                self.peer_connect_status@.len() == mine.len(),
                forall|j: int|
                    0 <= j < i ==> self.peer_connect_status@[j] == merged_status(mine, theirs@)[j],
                forall|j: int| i <= j < mine.len() ==> self.peer_connect_status@[j] == mine[j],
                self@ == (EndpointView {
                    peer_connect_status: self.peer_connect_status@,
                    ..old(self)@
                }),
            decreases self.peer_connect_status.len() - i,
        {
            let known = self.peer_connect_status[i];
            let heard = theirs[i];
            let merged = ConnectionStatus {
                disconnected: known.disconnected || heard.disconnected,
                last_frame: if known.last_frame >= heard.last_frame {
                    known.last_frame
                } else {
                    heard.last_frame
                },
            };
            self.peer_connect_status.set(i, merged);
            i += 1;
        }
        assert(self.peer_connect_status@ =~= merged_status(mine, theirs@));
    }

    fn trim_received(&mut self)
        requires
            old(self).wf(),
        ensures
            final(self).wf(),
            final(self)@ == (EndpointView {
                received: trimmed(old(self)@.received, old(self)@.history_len()),
                ..old(self)@
            }),
    {
        let max_prediction = self.core.max_prediction;
        if max_prediction >= usize::MAX / 2 {
            return ;
        }
        let keep = 2 * max_prediction + 1;
        if self.received.len() <= keep {
            return ;
        }
        let ghost before = self@;
        let ghost full = self.received@;
        let excess = self.received.len() - keep;
        let mut rest = self.received.split_off(excess);
        core::mem::swap(&mut self.received, &mut rest);
        proof {
            lemma_views_subrange(full, excess as int, full.len() as int);
            lemma_run_skip(before.received, before.received[0].frame, excess as int);
            assert(views(self.received@) =~= before.received.skip(excess as int));
            assert(before.received[excess as int].frame == before.received[0].frame + excess);
            assert(self@.received[0] == before.received[excess as int]);
            assert(self@.received.last() == before.received.last());
            assert(all_sized(self.received@, self.core.recv_size)) by {
                assert forall|i: int| 0 <= i < self.received@.len() implies (
                #[trigger] self.received@[i]).wf() && self.received@[i].size
                    == self.core.recv_size by {
                    assert(full[excess + i].wf());
                }
            }
            assert forall|i: int| 0 <= i < self@.received.len() implies (
            #[trigger] self@.received[i]).bytes.len() == self.core.recv_size by {
                assert(before.received[excess + i].bytes.len() == self.core.recv_size);
            }
        }
    }

    /// Keeps one more input of the peer and hands it to the session.
    fn store_input(&mut self, input: &PlayerInput)
        requires
            old(self).wf(),
            input.wf(),
            input.size == old(self)@.core.recv_size,
            input.frame == old(self)@.last_recv_frame() + 1,
        ensures
            final(self).wf(),
            final(self)@ == (EndpointView {
                received: old(self)@.received.push(input@),
                event_queue: old(self)@.event_queue.push(EventView::Input(input@)),
                ..old(self)@
            }),
    {
        let ghost before = self@;
        let ghost kept = self.received@;
        self.received.push(input.duplicate());
        self.event_queue.push(Event::Input(input.duplicate()));
        proof {
            assert(views(self.received@) =~= before.received.push(input@));
            assert(event_views(self.event_queue@) =~= before.event_queue.push(
                EventView::Input(input@),
            ));
            assert(self@.received[0] == before.received[0]);
            assert(run_starts_at(self@.received, self@.received[0].frame)) by {
                assert forall|i: int| 0 <= i < self@.received.len() implies (
                #[trigger] self@.received[i]).frame == self@.received[0].frame + i by {
                    if i < before.received.len() {
                        assert(self@.received[i] == before.received[i]);
                    } else {
                        assert(before.received[before.received.len() - 1].frame
                            == before.received[0].frame + before.received.len() - 1);
                    }
                }
            }
            assert forall|i: int| 0 <= i < self@.received.len() implies (
            #[trigger] self@.received[i]).bytes.len() == self.core.recv_size by {
                if i < before.received.len() {
                    assert(self@.received[i] == before.received[i]);
                }
            }
            assert(all_sized(self.received@, self.core.recv_size)) by {
                assert forall|i: int| 0 <= i < self.received@.len() implies (
                #[trigger] self.received@[i]).wf() && self.received@[i].size
                    == self.core.recv_size by {
                    if i < kept.len() {
                        assert(self.received@[i] == kept[i]);
                    }
                }
            }
        }
    }

    fn on_input(&mut self, body: &Input, now: u128)
        requires
            old(self).wf(),
        ensures
            final(self).wf(),
            final(self)@ == old(self)@.after_input(body@, now),
    {
        // what the peer acknowledges need not be sent again
        self.pop_pending_output(body.ack_frame);
        if body.disconnect_requested {
            self.core.state = ProtocolState::Disconnected;
            self.emit(Event::Disconnected);
            return ;
        }
        self.merge_status(&body.peer_connect_status);
        let ghost merged = self@;
        let ghost start = body.start_frame as int;
        // the batch is compressed against the input of the frame before it
        let first = self.received[0].frame;
        assert(self.received@[0]@ == self@.received[0]);
        let offset = body.start_frame as i64 - 1 - first as i64;
        if offset < 0 || offset as u64 >= self.received.len() as u64 {
            return ;
        }
        let index = offset as usize;
        assert(self.received@[index as int].wf());
        assert(self.received@[index as int]@ == merged.received[index as int]);
        let outcome = decode(&self.received[index], body.start_frame, body.bytes.as_slice());
        match outcome {
            Err(_) => {},
            Ok(inputs) => {
                let last = self.last_recv_frame();
                let ghost decoded_inputs = views(inputs@);
                let ghost fresh = merged.fresh(start, decoded_inputs);
                proof {
                    crate::network::compression::lemma_decoded_run(
                        merged.received[index as int].bytes,
                        start,
                        body.bytes@,
                    );
                    assert(merged.received[index as int].frame == merged.received[0].frame + index);
                    assert(merged.received[merged.received.len() - 1].frame
                        == merged.received[0].frame + merged.received.len() - 1);
                }
                let known = last as i64 + 1 - body.start_frame as i64;
                let from: usize = if known as u64 >= inputs.len() as u64 {
                    inputs.len()
                } else {
                    known as usize
                };
                let mut i: usize = from;
                while i < inputs.len()
                    invariant
                        from <= i <= inputs.len(),
                        self.wf(),
                        decoded_inputs == views(inputs@),
                        run_starts_at(decoded_inputs, start),
                        forall|j: int|
                            0 <= j < inputs@.len() ==> (#[trigger] inputs@[j]).wf() && inputs@[j].size
                                == merged.core.recv_size,
                        i < inputs.len() ==> self@.last_recv_frame() + 1 == start + i,
                        self@ == (EndpointView {
                            received: merged.received + decoded_inputs.subrange(
                                from as int,
                                i as int,
                            ),
                            event_queue: merged.event_queue + input_events(
                                decoded_inputs.subrange(from as int, i as int),
                            ),
                            ..merged
                        }),
                    decreases inputs.len() - i,
                {
                    assert(decoded_inputs[i as int].frame == start + i);
                    assert(decoded_inputs[i as int] == inputs@[i as int]@);
                    self.store_input(&inputs[i]);
                    proof {
                        let so_far = decoded_inputs.subrange(from as int, i as int);
                        let further = decoded_inputs.subrange(from as int, i as int + 1);
                        assert(further =~= so_far.push(decoded_inputs[i as int]));
                        assert(self@.received =~= merged.received + further);
                        assert(self@.event_queue =~= merged.event_queue + input_events(further));
                        if i + 1 < inputs.len() {
                            assert(self@.received.last() == decoded_inputs[i as int]);
                        }
                    }
                    i += 1;
                }
                proof {
                    assert(decoded_inputs.subrange(from as int, inputs@.len() as int) =~= fresh);
                }
                self.core.running_last_input_recv = now;
                self.trim_received();
                self.send_input_ack(now);
            },
        }
    }

    /// Takes a message that has arrived from the peer at `now`. `nonce` is a
    /// fresh random number, for the handshake request that the message may
    /// call for.
    pub fn handle_message(&mut self, message: &UdpMessage, now: u128, nonce: u32)
        requires
            old(self).wf(),
        ensures
            final(self).wf(),
            final(self)@ == old(self)@.handled(message@, now, nonce),
    {
        // a disconnected endpoint takes no messages
        match self.core.state {
            ProtocolState::Disconnected => {
                return ;
            },
            _ => {},
        }
        // nor does any take those of a stranger
        match self.core.remote_magic {
            Some(magic) => {
                if magic != message.header.magic {
                    return ;
                }
            },
            None => {},
        }
        self.core.last_recv_time = now;
        // the peer is heard again
        let running = match self.core.state {
            ProtocolState::Running => true,
            _ => false,
        };
        if self.core.disconnect_notify_sent && running {
            self.core.disconnect_notify_sent = false;
            self.emit(Event::NetworkResumed);
        }
        match &message.body {
            MessageBody::SyncRequest(body) => {
                self.queue_message(
                    MessageBody::SyncReply(SyncReply { random_reply: body.random_request }),
                    now,
                );
            },
            MessageBody::SyncReply(body) => {
                self.on_sync_reply(message.header.magic, *body, now, nonce);
            },
            MessageBody::Input(body) => {
                self.on_input(body, now);
            },
            MessageBody::InputAck(body) => {
                self.pop_pending_output(body.ack_frame);
            },
            MessageBody::QualityReport(body) => {
                self.on_quality_report(*body, now);
            },
            MessageBody::QualityReply(body) => {
                self.on_quality_reply(*body, now);
            },
            MessageBody::KeepAlive => {},
        }
    }

    fn run(&mut self, connect_status: &[ConnectionStatus], now: u128)
        requires
            old(self).wf(),
        ensures
            final(self).wf(),
            final(self)@ == old(self)@.ran(connect_status@, now),
    {
        // the peer has been silent for too long
        if is_elapsed(now, self.core.last_recv_time, self.core.disconnect_timeout) {
            self.core.state = ProtocolState::Disconnected;
            self.emit(Event::Disconnected);
            return ;
        }
        // no input has arrived for a while: the peer may have missed ours
        if is_elapsed(now, self.core.running_last_input_recv, RUNNING_RETRY_INTERVAL) {
            self.send_pending_output(connect_status, now);
            self.core.running_last_input_recv = now;
        }
        if is_elapsed(now, self.core.running_last_quality_report, QUALITY_REPORT_INTERVAL) {
            self.send_quality_report(now);
        }
        if is_elapsed(now, self.core.last_send_time, KEEP_ALIVE_INTERVAL) {
            self.queue_message(MessageBody::KeepAlive, now);
        }
        // the peer has been silent for a while
        if !self.core.disconnect_notify_sent && is_elapsed(
            now,
            self.core.last_recv_time,
            self.core.disconnect_notify_start,
        ) {
            let disconnect_timeout = if self.core.disconnect_timeout
                >= self.core.disconnect_notify_start {
                self.core.disconnect_timeout - self.core.disconnect_notify_start
            } else {
                0
            };
            self.core.disconnect_notify_sent = true;
            self.emit(Event::NetworkInterrupted { disconnect_timeout });
        }
    }

    /// Does the work that falls due at `now` and returns the events that the
    /// endpoint has for the session, oldest first. `connect_status` is what
    /// the session knows of each player, and `nonce` is a fresh random number.
    pub fn poll(&mut self, connect_status: &[ConnectionStatus], now: u128, nonce: u32) -> (events:
        Vec<Event>)
        requires
            old(self).wf(),
        ensures
            final(self).wf(),
            final(self)@ == old(self)@.polled(connect_status@, now, nonce),
            event_views(events@) == old(self)@.worked(connect_status@, now, nonce).event_queue,
    {
        match self.core.state {
            ProtocolState::Initializing => {},
            ProtocolState::Synchronizing => {
                if is_elapsed(now, self.core.last_send_time, SYNC_RETRY_INTERVAL) {
                    self.send_sync_request(now, nonce);
                }
            },
            ProtocolState::Synchronized => {
                self.core.state = ProtocolState::Running;
                self.core.running_last_quality_report = now;
                self.core.running_last_input_recv = now;
                self.run(connect_status, now);
            },
            ProtocolState::Running => {
                self.run(connect_status, now);
            },
            ProtocolState::Disconnected => {},
        }
        let mut events: Vec<Event> = Vec::new();
        core::mem::swap(&mut self.event_queue, &mut events);
        assert(event_views(self.event_queue@) =~= Seq::empty());
        events
    }
}

/// A run without its first `k` inputs is a run that starts `k` frames later.
proof fn lemma_run_skip(run: Seq<InputView>, start: int, k: int)
    requires
        run_starts_at(run, start),
        0 <= k <= run.len(),
    ensures
        run_starts_at(run.skip(k), start + k),
{
    assert forall|i: int| 0 <= i < run.skip(k).len() implies (#[trigger] run.skip(k)[i]).frame
        == start + k + i by {
        assert(run.skip(k)[i] == run[k + i]);
    }
}

/// The views of a part of a sequence are that part of its views.
proof fn lemma_views_subrange(inputs: Seq<PlayerInput>, from: int, to: int)
    requires
        0 <= from <= to <= inputs.len(),
    ensures
        views(inputs.subrange(from, to)) =~= views(inputs).subrange(from, to),
{
}

/// A peer that has been silent for the disconnect timeout is given up at the
/// next poll: a running endpoint then emits one event, `Disconnected`, behind
/// those that waited already, sends nothing, and is disconnected.
pub proof fn lemma_silence_disconnects(
    endpoint: EndpointView,
    connect_status: Seq<ConnectionStatus>,
    now: u128,
    nonce: u32,
)
    requires
        endpoint.core.state == ProtocolState::Running,
        now - endpoint.core.last_recv_time >= endpoint.core.disconnect_timeout,
    ensures
        endpoint.worked(connect_status, now, nonce).event_queue == endpoint.event_queue.push(
            EventView::Disconnected,
        ),
        endpoint.polled(connect_status, now, nonce).core.state == ProtocolState::Disconnected,
        endpoint.polled(connect_status, now, nonce).send_queue == endpoint.send_queue,
{
}

/// A disconnected endpoint is at its end: whatever arrives, whatever it is
/// handed and however often it is polled, it stays as it is. It emits no
/// event and sends no message any more.
pub proof fn lemma_disconnected_is_final(
    endpoint: EndpointView,
    message: MessageView,
    input: InputView,
    connect_status: Seq<ConnectionStatus>,
    now: u128,
    nonce: u32,
)
    requires
        endpoint.core.state == ProtocolState::Disconnected,
    ensures
        endpoint.handled(message, now, nonce) == endpoint,
        endpoint.worked(connect_status, now, nonce) == endpoint,
        endpoint.after_send_input(input, connect_status, now) == endpoint,
{
}

/// While the peer is heard in time, polling does not disconnect: a running
/// endpoint whose peer was heard less than the disconnect timeout ago still
/// runs after the poll and has emitted no `Disconnected`.
pub proof fn lemma_heard_in_time(
    endpoint: EndpointView,
    connect_status: Seq<ConnectionStatus>,
    now: u128,
    nonce: u32,
)
    requires
        endpoint.core.state == ProtocolState::Running,
        now - endpoint.core.last_recv_time < endpoint.core.disconnect_timeout,
    ensures
        endpoint.polled(connect_status, now, nonce).core.state == ProtocolState::Running,
        forall|i: int|
            endpoint.event_queue.len() <= i < endpoint.worked(
                connect_status,
                now,
                nonce,
            ).event_queue.len() ==> #[trigger] endpoint.worked(
                connect_status,
                now,
                nonce,
            ).event_queue[i] != EventView::Disconnected,
{
}

/// Nothing that happens to an endpoint changes the sizes of its inputs or
/// the number of players it knows of.
pub proof fn lemma_shape_is_kept(
    endpoint: EndpointView,
    message: MessageView,
    input: InputView,
    connect_status: Seq<ConnectionStatus>,
    local_frame: Frame,
    now: u128,
    nonce: u32,
)
    ensures
        same_shape(endpoint, endpoint.handled(message, now, nonce)),
        same_shape(endpoint, endpoint.worked(connect_status, now, nonce)),
        same_shape(endpoint, endpoint.polled(connect_status, now, nonce)),
        same_shape(endpoint, endpoint.after_send_input(input, connect_status, now)),
        same_shape(endpoint, endpoint.with_local_frame(local_frame)),
{
}

/// Two endpoints have inputs of the same sizes and know of the same number of players.
pub open spec fn same_shape(before: EndpointView, after: EndpointView) -> bool {
    &&& after.core.send_size == before.core.send_size
    &&& after.core.recv_size == before.core.recv_size
    &&& after.peer_connect_status.len() == before.peer_connect_status.len()
}

} // verus!
