//! A session between peers.
//!
//! Every peer simulates the game on its own. The session of a peer takes the
//! inputs of its local player, sends them to the other peers, takes theirs as
//! they arrive, and tells the host what to do for the game to advance: with
//! the inputs of the others predicted where they are late, and with a
//! rollback where a prediction was wrong. To spectators it sends the inputs
//! of all players, once they are confirmed.
//!
//! Each remote player and each spectator is a peer of its own, with an
//! endpoint of its own. The peers are numbered: the players have the
//! numbers from 0 on, which are their handles, and the spectators follow.
use vstd::prelude::*;

use crate::error::GGRSError;
use crate::frame_info::{merged_size_of, views, InputView, PlayerInput};
use crate::input_queue::{QueueView, MAX_PREDICTION_FRAMES};
use crate::network::protocol::{
    event_views, lemma_shape_is_kept, same_shape, EndpointView, Event, EventView, ProtocolState,
    UdpProtocol,
};
use crate::network::udp_msg::{ConnectionStatus, MessageView, UdpMessage};
use crate::sessions::p2p_spectator_session::latest;
use crate::sync_layer::{requests_view, GameState, LayerView, SyncLayer};
use crate::{
    Frame, GGRSEvent, GGRSRequest, NetworkStats, PlayerHandle, RequestView, SessionState,
    NULL_FRAME,
};

verus! {

/// The silence, in milliseconds, after which a peer counts as gone.
pub const DEFAULT_DISCONNECT_TIMEOUT: u128 = 2000;

/// The silence, in milliseconds, after which the host is warned.
pub const DEFAULT_DISCONNECT_NOTIFY_START: u128 = 750;

/// The frames per second at which a game is taken to run.
pub const DEFAULT_FPS: u32 = 60;

/// The most events that a session keeps for the host; the oldest go first.
pub const MAX_EVENT_QUEUE_SIZE: usize = 100;

/// A session that is ahead of its peers tells the host so at most once in
/// so many frames.
pub const RECOMMENDATION_INTERVAL: Frame = 40;

/// The host is told to wait only if the session is at least so many frames ahead.
pub const MIN_RECOMMENDATION: i32 = 3;

/// What a peer is to a session.
#[derive(Copy, Clone, Debug, PartialEq, Eq, Structural)]
pub enum PlayerType {
    /// The player who plays on this device.
    Local,
    /// A player who plays on another device.
    Remote,
    /// A peer that watches and does not play.
    Spectator,
}

/// The messages of a sequence with their senders, each message by its value.
pub open spec fn sender_views(messages: Seq<(PlayerHandle, UdpMessage)>) -> Seq<
    (PlayerHandle, MessageView),
> {
    Seq::new(messages.len(), |i: int| (messages[i].0, messages[i].1@))
}

/// The values of a sequence of endpoints, one for one.
pub open spec fn endpoint_views(endpoints: Seq<UdpProtocol>) -> Seq<EndpointView> {
    Seq::new(endpoints.len(), |i: int| endpoints[i]@)
}

/// The bytes of inputs of `size` bytes each, end to end.
pub open spec fn flattened(inputs: Seq<InputView>, size: int) -> Seq<u8> {
    Seq::new((inputs.len() * size) as nat, |k: int| inputs[k / size].bytes[k % size])
}

/// The earliest of the last frames of those of the first `count` players who
/// have not left: the frame up to which the inputs of all players are known.
/// Without such a player it is the last frame there is.
pub open spec fn reached_frame(connect_status: Seq<ConnectionStatus>, count: nat) -> Frame
    decreases count,
{
    if count == 0 {
        i32::MAX
    } else {
        let rest = reached_frame(connect_status, (count - 1) as nat);
        let status = connect_status[count - 1];
        if !status.disconnected && status.last_frame < rest {
            status.last_frame
        } else {
            rest
        }
    }
}

/// The inputs that a queue keeps for the frames from `from` to `to`, if it
/// keeps them all, and none otherwise.
pub open spec fn stored_run(queue: QueueView, from: int, to: int) -> Seq<InputView> {
    if from <= to && forall|f: int| from <= f <= to ==> (#[trigger] queue.confirmed(f)) is Some {
        Seq::new(
            (to - from + 1) as nat,
            |k: int| InputView { frame: from + k, bytes: queue.confirmed(from + k)->Some_0 },
        )
    } else {
        Seq::empty()
    }
}

/// The endpoint after it was handed the inputs `inputs`, in their order.
pub open spec fn sent_all(
    endpoint: EndpointView,
    inputs: Seq<InputView>,
    connect_status: Seq<ConnectionStatus>,
    now: u128,
) -> EndpointView
    decreases inputs.len(),
{
    if inputs.len() == 0 {
        endpoint
    } else {
        sent_all(
            endpoint.after_send_input(inputs[0], connect_status, now),
            inputs.skip(1),
            connect_status,
            now,
        )
    }
}

/// The messages that wait in the first `count` endpoints, each with the
/// number of its peer, in the order of the peers.
pub open spec fn outgoing(endpoints: Seq<EndpointView>, count: nat) -> Seq<
    (PlayerHandle, MessageView),
>
    decreases count,
{
    if count == 0 {
        Seq::empty()
    } else {
        outgoing(endpoints, (count - 1) as nat) + Seq::new(
            endpoints[count - 1].send_queue.len(),
            |k: int| ((count - 1) as PlayerHandle, endpoints[count - 1].send_queue[k]),
        )
    }
}

/// The mathematical value of a [`P2PSession`].
pub struct SessionView {
    pub num_players: usize,
    /// The size of the input of one player.
    pub input_size: u16,
    /// The handle of the player who plays on this device.
    pub local_handle: PlayerHandle,
    pub state: SessionState,
    pub layer: LayerView,
    /// The endpoints, one for each peer: first those of the players, by
    /// their handles, then those of the spectators. The endpoint at the local
    /// handle is not in use.
    pub endpoints: Seq<EndpointView>,
    /// What the session knows of each player: whether they have left, and
    /// up to which frame their inputs are known.
    pub connect_status: Seq<ConnectionStatus>,
    /// The events that wait for the host, oldest first.
    pub event_queue: Seq<GGRSEvent>,
    /// The first frame whose inputs the spectators have not been sent.
    pub next_spectator_frame: Frame,
    /// The frame after which the host may be told to wait again.
    pub next_recommended_sleep: Frame,
}

impl SessionView {
    /// The size of the inputs of all players together.
    pub open spec fn merged_size(self) -> int {
        self.num_players * self.input_size
    }

    /// Whether the number is that of a peer: of a remote player or a spectator.
    pub open spec fn is_peer(self, peer: int) -> bool {
        0 <= peer < self.endpoints.len() && peer != self.local_handle
    }

    /// Whether the number is the handle of a remote player.
    pub open spec fn is_remote_player(self, peer: int) -> bool {
        0 <= peer < self.num_players && peer != self.local_handle
    }

    /// Whether the number is that of a spectator.
    pub open spec fn is_spectator(self, peer: int) -> bool {
        self.num_players <= peer < self.endpoints.len()
    }

    /// What holds of every session: its sync layer is that of its players,
    /// every player has a status, and every peer has an endpoint for inputs
    /// of its kind: those of one player to and from a player, those of all
    /// players to a spectator.
    pub open spec fn inv(self) -> bool {
        &&& self.layer.inv()
        &&& self.layer.num_players == self.num_players
        &&& self.layer.input_size == self.input_size
        &&& self.layer.max_prediction == MAX_PREDICTION_FRAMES
        &&& self.merged_size() <= u16::MAX
        &&& self.local_handle < self.num_players <= self.endpoints.len()
        &&& self.connect_status.len() == self.num_players
        &&& forall|p: int|
            0 <= p < self.connect_status.len() ==> (#[trigger] self.connect_status[p]).last_frame
                >= NULL_FRAME
        &&& forall|i: int|
            0 <= i < self.endpoints.len() ==> (#[trigger] self.endpoints[i]).inv()
                && self.endpoints[i].peer_connect_status.len() == self.num_players && (i
                < self.num_players ==> self.endpoints[i].core.send_size == self.input_size
                && self.endpoints[i].core.recv_size == self.input_size) && (i >= self.num_players
                ==> self.endpoints[i].core.send_size == self.merged_size()
                && self.endpoints[i].core.recv_size == 0)
        &&& self.event_queue.len() <= MAX_EVENT_QUEUE_SIZE
        &&& self.next_spectator_frame >= 0
    }

    /// The session with one more event for the host. The queue keeps the
    /// latest `MAX_EVENT_QUEUE_SIZE` events.
    pub open spec fn notified(self, event: GGRSEvent) -> SessionView {
        SessionView {
            event_queue: latest(self.event_queue.push(event), MAX_EVENT_QUEUE_SIZE as int),
            ..self
        }
    }

    /// The session with another endpoint for the peer.
    pub open spec fn with_endpoint(self, peer: int, endpoint: EndpointView) -> SessionView {
        SessionView { endpoints: self.endpoints.update(peer, endpoint), ..self }
    }

    /// Whether every peer has completed its handshake.
    pub open spec fn all_synchronized(self) -> bool {
        forall|i: int|
            self.is_peer(i) ==> (#[trigger] self.endpoints[i]).core.state
                != ProtocolState::Initializing && self.endpoints[i].core.state
                != ProtocolState::Synchronizing
    }

    /// The session after a message that `from` has sent. A message of
    /// someone who is no peer is not heard.
    pub open spec fn received(self, from: int, message: MessageView, now: u128, nonce: u32)
        -> SessionView {
        if self.is_peer(from) {
            self.with_endpoint(from, self.endpoints[from].handled(message, now, nonce))
        } else {
            self
        }
    }

    /// The session after the messages `messages`, in their order.
    pub open spec fn received_all(
        self,
        messages: Seq<(PlayerHandle, MessageView)>,
        now: u128,
        nonce: u32,
    ) -> SessionView
        decreases messages.len(),
    {
        if messages.len() == 0 {
            self
        } else {
            self.received(messages[0].0 as int, messages[0].1, now, nonce).received_all(
                messages.skip(1),
                now,
                nonce,
            )
        }
    }

    /// The session after the player has left: the inputs of the player
    /// count up to the last confirmed frame.
    pub open spec fn dropped(self, player: int) -> SessionView {
        if 0 <= player < self.num_players {
            SessionView {
                connect_status: self.connect_status.update(
                    player,
                    ConnectionStatus {
                        disconnected: true,
                        last_frame: self.layer.last_confirmed_frame,
                    },
                ),
                ..self
            }
        } else {
            self
        }
    }

    /// The session after an event of the endpoint of a peer.
    ///
    /// What concerns the host is handed on, as an event of that peer. With
    /// the end of the last handshake the session runs. A peer that is gone
    /// has left the game. An input of a player who has not left goes to the
    /// sync layer; if the layer takes it, the inputs of the player are known
    /// up to its frame.
    pub open spec fn after_event(self, peer: int, event: EventView) -> SessionView {
        match event {
            EventView::Synchronizing { total, count } => self.notified(
                GGRSEvent::Synchronizing { player_handle: peer as PlayerHandle, total, count },
            ),
            EventView::NetworkInterrupted { disconnect_timeout } => self.notified(
                GGRSEvent::NetworkInterrupted {
                    player_handle: peer as PlayerHandle,
                    disconnect_timeout,
                },
            ),
            EventView::NetworkResumed => self.notified(
                GGRSEvent::NetworkResumed { player_handle: peer as PlayerHandle },
            ),
            EventView::Synchronized => {
                let told = self.notified(
                    GGRSEvent::Synchronized { player_handle: peer as PlayerHandle },
                );
                if told.all_synchronized() {
                    SessionView { state: SessionState::Running, ..told }
                } else {
                    told
                }
            },
            EventView::Disconnected => self.dropped(peer).notified(
                GGRSEvent::Disconnected { player_handle: peer as PlayerHandle },
            ),
            EventView::Input(input) => if self.is_remote_player(peer)
                && !self.connect_status[peer].disconnected {
                match self.layer.after_remote_input(peer, input).1 {
                    Ok(frame) => SessionView {
                        layer: self.layer.after_remote_input(peer, input).0,
                        connect_status: self.connect_status.update(
                            peer,
                            ConnectionStatus { disconnected: false, last_frame: frame },
                        ),
                        ..self
                    },
                    Err(_) => self,
                }
            } else {
                self
            },
        }
    }

    /// The session after the events `events` of the endpoint of a peer, in their order.
    pub open spec fn after_events(self, peer: int, events: Seq<EventView>) -> SessionView
        decreases events.len(),
    {
        if events.len() == 0 {
            self
        } else {
            self.after_event(peer, events[0]).after_events(peer, events.skip(1))
        }
    }

    /// The session after the endpoint of a peer was polled: the endpoint
    /// was told which frame the game is at, has done the work that was due,
    /// and the session has handled the events that came of it.
    pub open spec fn peer_polled(self, peer: int, now: u128, nonce: u32) -> SessionView {
        let endpoint = self.endpoints[peer].with_local_frame(self.layer.current_frame);
        let events = endpoint.worked(self.connect_status, now, nonce).event_queue;
        self.with_endpoint(peer, endpoint.polled(self.connect_status, now, nonce)).after_events(
            peer,
            events,
        )
    }

    /// The session after the endpoints of the peers from `from` up to
    /// `count` were polled, in their order.
    pub open spec fn peers_polled(self, from: nat, count: nat, now: u128, nonce: u32)
        -> SessionView
        decreases count - from,
    {
        if from >= count {
            self
        } else if from == self.local_handle {
            self.peers_polled(from + 1, count, now, nonce)
        } else {
            self.peer_polled(from as int, now, nonce).peers_polled(from + 1, count, now, nonce)
        }
    }

    /// The session after the spectators were sent the confirmed inputs of
    /// the frames up to `upto` that they have not been sent: for each frame
    /// one input that holds the inputs of all players end to end. A frame
    /// for which the confirmed input of a player is not at hand ends it.
    pub open spec fn spectators_fed(self, upto: Frame, now: u128) -> SessionView
        decreases upto - self.next_spectator_frame + 1,
    {
        let frame = self.next_spectator_frame;
        if frame > upto || frame == i32::MAX {
            self
        } else {
            match self.layer.confirmed(frame as int, self.connect_status) {
                None => self,
                Some(inputs) => {
                    let merged = InputView {
                        frame: frame as int,
                        bytes: flattened(inputs, self.input_size as int),
                    };
                    SessionView {
                        endpoints: Seq::new(
                            self.endpoints.len(),
                            |i: int|
                                if self.is_spectator(i) {
                                    self.endpoints[i].after_send_input(
                                        merged,
                                        self.connect_status,
                                        now,
                                    )
                                } else {
                                    self.endpoints[i]
                                },
                        ),
                        next_spectator_frame: (frame + 1) as Frame,
                        ..self
                    }.spectators_fed(upto, now)
                },
            }
        }
    }

    /// The running session after it has settled what it has learnt: if the
    /// inputs of all players who have not left are known further than the
    /// last confirmed frame, the spectators are sent the newly confirmed
    /// inputs and the confirmed frame moves on.
    pub open spec fn settled(self, now: u128) -> SessionView {
        let reached = reached_frame(self.connect_status, self.num_players as nat);
        if self.state != SessionState::Running || self.layer.confirmable(reached)
            <= self.layer.last_confirmed_frame {
            self
        } else {
            let fed = self.spectators_fed(self.layer.confirmable(reached), now);
            SessionView { layer: fed.layer.confirmed_up_to(reached), ..fed }
        }
    }

    /// The largest number of frames that one of the first `count` players
    /// would have this session wait, judged by the frame advantages that the
    /// endpoints have recorded. Only remote players who have not left count.
    pub open spec fn max_advantage(self, count: nat) -> int
        decreases count,
    {
        if count == 0 {
            0
        } else {
            let rest = self.max_advantage((count - 1) as nat);
            let advantage = self.endpoints[count - 1].time_sync.average();
            if self.is_remote_player(count - 1) && !self.connect_status[count - 1].disconnected
                && advantage > rest {
                advantage
            } else {
                rest
            }
        }
    }

    /// The session after it has looked at how far ahead of its peers it
    /// is: a running session that is at least `MIN_RECOMMENDATION` frames
    /// ahead tells the host to wait that many frames, and does not tell it
    /// again for `RECOMMENDATION_INTERVAL` frames.
    pub open spec fn recommended(self) -> SessionView {
        let skip = self.max_advantage(self.num_players as nat);
        if self.state == SessionState::Running && self.layer.current_frame
            > self.next_recommended_sleep && skip >= MIN_RECOMMENDATION {
            SessionView {
                next_recommended_sleep: if self.layer.current_frame + RECOMMENDATION_INTERVAL
                    > i32::MAX {
                    i32::MAX
                } else {
                    (self.layer.current_frame + RECOMMENDATION_INTERVAL) as Frame
                },
                ..self
            }.notified(GGRSEvent::WaitRecommendation { skip_frames: skip as u32 })
        } else {
            self
        }
    }

    /// The session after a poll at `now`: the endpoints have taken the
    /// messages that arrived, each has done the work that was due, and the
    /// session has handled their events, settled what it has learnt, and
    /// looked at how far ahead it is.
    pub open spec fn polled(
        self,
        messages: Seq<(PlayerHandle, MessageView)>,
        now: u128,
        nonce: u32,
    ) -> SessionView {
        self.received_all(messages, now, nonce).peers_polled(
            0,
            self.endpoints.len(),
            now,
            nonce,
        ).settled(now).recommended()
    }

    /// The session after the local player's input for the current frame,
    /// and the error if it was not taken.
    ///
    /// The sync layer stores the input, later by the frame delay. Every
    /// input that it has stored with it, the input itself and those of the
    /// frames that the delay has left empty, goes to the endpoints of all
    /// remote players, and the inputs of the local player are known up to
    /// the frame of the last.
    pub open spec fn after_local_input(self, bytes: Seq<u8>, now: u128) -> (
        SessionView,
        Option<GGRSError>,
    ) {
        let local = self.local_handle as int;
        let input = InputView { frame: self.layer.current_frame as int, bytes };
        let (layer, outcome) = self.layer.after_local_input(local, input);
        match outcome {
            Err(e) => (self, Some(e)),
            Ok(frame) => if frame == NULL_FRAME {
                (SessionView { layer, ..self }, None)
            } else {
                let connect_status = self.connect_status.update(
                    local,
                    ConnectionStatus {
                        disconnected: self.connect_status[local].disconnected,
                        last_frame: frame,
                    },
                );
                let run = stored_run(
                    layer.queues[local],
                    self.connect_status[local].last_frame + 1,
                    frame as int,
                );
                (
                    SessionView {
                        layer,
                        connect_status,
                        endpoints: Seq::new(
                            self.endpoints.len(),
                            |i: int|
                                if self.is_remote_player(i) {
                                    sent_all(self.endpoints[i], run, connect_status, now)
                                } else {
                                    self.endpoints[i]
                                },
                        ),
                        ..self
                    },
                    None,
                )
            },
        }
    }

    /// The session after a frame, and the requests for the host: the
    /// session polls, and if it runs, its sync layer advances the game.
    pub open spec fn advanced(
        self,
        messages: Seq<(PlayerHandle, MessageView)>,
        now: u128,
        nonce: u32,
    ) -> (SessionView, Result<Seq<RequestView>, GGRSError>) {
        let polled = self.polled(messages, now, nonce);
        if polled.state != SessionState::Running {
            (polled, Err(GGRSError::NotSynchronized))
        } else {
            (
                SessionView { layer: polled.layer.advanced(polled.connect_status).0, ..polled },
                polled.layer.advanced(polled.connect_status).1,
            )
        }
    }
}

/// A session as it is made: nothing has happened yet, and every peer has
/// begun its handshake. A session without peers runs at once.
pub open spec fn initial_session(
    num_players: usize,
    input_size: u16,
    local_handle: PlayerHandle,
    num_spectators: usize,
    disconnect_timeout: u128,
    disconnect_notify_start: u128,
    fps: u32,
    magic: u16,
    now: u128,
    nonce: u32,
) -> SessionView {
    SessionView {
        num_players,
        input_size,
        local_handle,
        state: if num_players + num_spectators == 1 {
            SessionState::Running
        } else {
            SessionState::Synchronizing
        },
        layer: crate::sync_layer::initial_layer(num_players, input_size, MAX_PREDICTION_FRAMES),
        endpoints: Seq::new(
            (num_players + num_spectators) as nat,
            |i: int|
                initial_peer(
                    num_players,
                    input_size,
                    local_handle,
                    i,
                    disconnect_timeout,
                    disconnect_notify_start,
                    fps,
                    magic,
                    now,
                    nonce,
                ),
        ),
        connect_status: Seq::new(
            num_players as nat,
            |i: int| ConnectionStatus { disconnected: false, last_frame: NULL_FRAME },
        ),
        event_queue: Seq::empty(),
        next_spectator_frame: 0,
        next_recommended_sleep: 0,
    }
}

/// The endpoint of the peer with the number `peer` as the session is made.
pub open spec fn initial_peer(
    num_players: usize,
    input_size: u16,
    local_handle: PlayerHandle,
    peer: int,
    disconnect_timeout: u128,
    disconnect_notify_start: u128,
    fps: u32,
    magic: u16,
    now: u128,
    nonce: u32,
) -> EndpointView {
    let made = crate::network::protocol::initial_endpoint(
        if peer < num_players {
            seq![peer as PlayerHandle]
        } else {
            Seq::empty()
        },
        num_players,
        if peer < num_players {
            input_size
        } else {
            (num_players * input_size) as u16
        },
        if peer < num_players {
            input_size
        } else {
            0
        },
        MAX_PREDICTION_FRAMES,
        disconnect_timeout,
        disconnect_notify_start,
        fps,
        magic,
        now,
    );
    if peer == local_handle {
        made
    } else {
        made.synchronizing(now, nonce)
    }
}

/// A session between peers.
pub struct P2PSession {
    num_players: usize,
    input_size: u16,
    local_handle: PlayerHandle,
    state: SessionState,
    sync_layer: SyncLayer,
    endpoints: Vec<UdpProtocol>,
    local_connect_status: Vec<ConnectionStatus>,
    event_queue: Vec<GGRSEvent>,
    next_spectator_frame: Frame,
    next_recommended_sleep: Frame,
}

impl View for P2PSession {
    type V = SessionView;

    closed spec fn view(&self) -> SessionView {
        SessionView {
            num_players: self.num_players,
            input_size: self.input_size,
            local_handle: self.local_handle,
            state: self.state,
            layer: self.sync_layer@,
            endpoints: endpoint_views(self.endpoints@),
            connect_status: self.local_connect_status@,
            event_queue: self.event_queue@,
            next_spectator_frame: self.next_spectator_frame,
            next_recommended_sleep: self.next_recommended_sleep,
        }
    }
}

fn copy_bytes(bytes: &[u8]) -> (copy: Vec<u8>)
    ensures
        copy@ == bytes@,
{
    let mut copy: Vec<u8> = Vec::new();
    let mut i: usize = 0;
    while i < bytes.len()
        invariant
            i <= bytes.len(),
            copy@ == bytes@.take(i as int),
        decreases bytes.len() - i,
    {
        copy.push(bytes[i]);
        assert(bytes@.take(i as int).push(bytes@[i as int]) =~= bytes@.take(i as int + 1));
        i += 1;
    }
    assert(bytes@.take(bytes@.len() as int) =~= bytes@);
    copy
}

/// Lays the inputs of the players for `frame` end to end.
fn merge_inputs(inputs: &Vec<PlayerInput>, frame: Frame, input_size: u16) -> (merged: PlayerInput)
    requires
        inputs@.len() * input_size <= u16::MAX,
        forall|i: int|
            0 <= i < inputs@.len() ==> (#[trigger] inputs@[i]).wf() && inputs@[i].size == input_size,
    ensures
        merged.wf(),
        merged.size == inputs@.len() * input_size,
        merged@ == (InputView {
            frame: frame as int,
            bytes: flattened(views(inputs@), input_size as int),
        }),
{
    let size = input_size as usize;
    let ghost want = flattened(views(inputs@), input_size as int);
    let ghost n = inputs@.len() as int;
    let ghost d = size as int;
    let mut buffer: Vec<u8> = Vec::new();
    let mut i: usize = 0;
    while i < inputs.len()
        invariant
            i <= inputs.len(),
            size == input_size,
            d == size,
            n == inputs@.len(),
            want == flattened(views(inputs@), input_size as int),
            forall|i: int|
                0 <= i < inputs@.len() ==> (#[trigger] inputs@[i]).wf() && inputs@[i].size
                    == input_size,
            buffer@.len() == i * d,
            forall|k: int| 0 <= k < buffer@.len() ==> buffer@[k] == want[k],
        decreases inputs.len() - i,
    {
        assert(inputs@[i as int].wf());
        let mut j: usize = 0;
        while j < size
            invariant
                j <= size,
                i < inputs.len(),
                size == input_size,
                d == size,
                n == inputs@.len(),
                want == flattened(views(inputs@), input_size as int),
                inputs@[i as int].buffer@.len() == size,
                buffer@.len() == i * d + j,
                forall|k: int| 0 <= k < buffer@.len() ==> buffer@[k] == want[k],
            decreases size - j,
        {
            proof {
                crate::network::compression::lemma_position(i as int, j as int, d, n);
            }
            buffer.push(inputs[i].buffer[j]);
            j += 1;
        }
        proof {
            assert(i * d + d == (i + 1) * d) by (nonlinear_arith);
        }
        i += 1;
    }
    assert(buffer@ =~= want);
    let merged_size = merged_size_of(inputs.len(), input_size);
    PlayerInput { frame, size: merged_size, buffer }
}

impl P2PSession {
    /// The session's value is well formed, and so are its sync layer and
    /// each of its endpoints.
    pub closed spec fn wf(&self) -> bool {
        &&& self@.inv()
        &&& self.sync_layer.wf()
        &&& forall|i: int| 0 <= i < self.endpoints@.len() ==> (#[trigger] self.endpoints@[i]).wf()
    }

    /// The value of a well-formed session has the properties of [`SessionView::inv`].
    pub proof fn lemma_wf_inv(&self)
        requires
            self.wf(),
        ensures
            self@.inv(),
    {
    }

    /// After one endpoint has changed, the session is well formed if the
    /// endpoint is and has the shape it had, and its value differs in that
    /// endpoint only.
    proof fn lemma_endpoint_replaced(before: P2PSession, after: P2PSession, peer: int)
        requires
            before.wf(),
            0 <= peer < before.endpoints@.len(),
            after.num_players == before.num_players,
            after.input_size == before.input_size,
            after.local_handle == before.local_handle,
            after.state == before.state,
            after.sync_layer == before.sync_layer,
            after.local_connect_status == before.local_connect_status,
            after.event_queue == before.event_queue,
            after.next_spectator_frame == before.next_spectator_frame,
            after.next_recommended_sleep == before.next_recommended_sleep,
            after.endpoints@.len() == before.endpoints@.len(),
            forall|i: int|
                0 <= i < before.endpoints@.len() && i != peer ==> after.endpoints@[i]
                    == before.endpoints@[i],
            after.endpoints@[peer].wf(),
            same_shape(before.endpoints@[peer]@, after.endpoints@[peer]@),
        ensures
            after.wf(),
            after@ == before@.with_endpoint(peer, after.endpoints@[peer]@),
    {
        after.endpoints@[peer].lemma_wf_inv();
        assert(after@.endpoints =~= before@.endpoints.update(peer, after.endpoints@[peer]@));
        assert(before@.endpoints[peer] == before.endpoints@[peer]@);
        assert forall|i: int| 0 <= i < after@.endpoints.len() implies (#[trigger] after@.endpoints[i]).inv()
            && after@.endpoints[i].peer_connect_status.len() == after.num_players && (i
            < after.num_players ==> after@.endpoints[i].core.send_size == after.input_size
            && after@.endpoints[i].core.recv_size == after.input_size) && (i >= after.num_players
            ==> after@.endpoints[i].core.send_size == after@.merged_size()
            && after@.endpoints[i].core.recv_size == 0) by {
            if i != peer {
                assert(after@.endpoints[i] == before@.endpoints[i]);
            }
        }
        assert forall|i: int| 0 <= i < after.endpoints@.len() implies (
        #[trigger] after.endpoints@[i]).wf() by {
            if i != peer {
                assert(after.endpoints@[i] == before.endpoints@[i]);
            }
        }
    }

    /// A session of `num_players` players with inputs of `input_size`
    /// bytes, of whom the one with the handle `local_handle` plays on this
    /// device, and of `num_spectators` spectators.
    ///
    /// `magic` and `nonce` are random numbers, for the magic number of the
    /// endpoints and their first handshake requests, and `now` is the time
    /// in milliseconds, as in every other operation.
    ///
    /// # Errors
    /// - `InvalidRequest` if there is no player with the local handle, the
    ///   inputs of all players together are longer than an input can be, or
    ///   `fps` is 0.
    pub fn new(
        num_players: usize,
        input_size: u16,
        local_handle: PlayerHandle,
        num_spectators: usize,
        disconnect_timeout: u128,
        disconnect_notify_start: u128,
        fps: u32,
        magic: u16,
        now: u128,
        nonce: u32,
    ) -> (result: Result<Self, GGRSError>)
        ensures
            local_handle < num_players && num_players * input_size <= u16::MAX && fps > 0
                && num_players + num_spectators <= usize::MAX ==> (result matches Ok(session)
                && session.wf() && session@ == initial_session(
                num_players,
                input_size,
                local_handle,
                num_spectators,
                disconnect_timeout,
                disconnect_notify_start,
                fps,
                magic,
                now,
                nonce,
            )),
            !(local_handle < num_players && num_players * input_size <= u16::MAX && fps > 0
                && num_players + num_spectators <= usize::MAX) ==> (result matches Err(
                GGRSError::InvalidRequest { info },
            ) && info@ == (if local_handle >= num_players {
                "The player handle is invalid."@
            } else if fps == 0 {
                "FPS should be higher than 0."@
            } else if num_players * input_size > u16::MAX {
                "The inputs of all players are too large."@
            } else {
                "There are too many peers."@
            })),
    {
        if local_handle >= num_players {
            return Err(
                GGRSError::InvalidRequest { info: "The player handle is invalid.".to_owned() },
            );
        }
        if fps == 0 {
            return Err(
                GGRSError::InvalidRequest { info: "FPS should be higher than 0.".to_owned() },
            );
        }
        if input_size as usize > 0 && num_players > u16::MAX as usize / input_size as usize {
            assert(num_players * input_size > u16::MAX) by (nonlinear_arith)
                requires
                    input_size > 0,
                    num_players > (u16::MAX as int) / (input_size as int),
            ;
            return Err(
                GGRSError::InvalidRequest {
                    info: "The inputs of all players are too large.".to_owned(),
                },
            );
        }
        assert(num_players * input_size <= u16::MAX) by (nonlinear_arith)
            requires
                input_size == 0 || num_players <= (u16::MAX as int) / (input_size as int),
                num_players >= 0,
                input_size >= 0,
        ;
        if num_spectators > usize::MAX - num_players {
            return Err(GGRSError::InvalidRequest { info: "There are too many peers.".to_owned() });
        }
        let merged_size = merged_size_of(num_players, input_size);
        let num_peers = num_players + num_spectators;
        let mut endpoints: Vec<UdpProtocol> = Vec::new();
        let mut i: usize = 0;
        while i < num_peers
            invariant
                i <= num_peers,
                num_peers == num_players + num_spectators,
                merged_size == num_players * input_size,
                endpoints@.len() == i,
                forall|j: int|
                    0 <= j < i ==> (#[trigger] endpoints@[j]).wf() && endpoints@[j]@
                        == initial_peer(
                        num_players,
                        input_size,
                        local_handle,
                        j,
                        disconnect_timeout,
                        disconnect_notify_start,
                        fps,
                        magic,
                        now,
                        nonce,
                    ),
            decreases num_peers - i,
        {
            let mut handles: Vec<PlayerHandle> = Vec::new();
            if i < num_players {
                handles.push(i);
            }
            assert(handles@ =~= (if i < num_players {
                seq![i]
            } else {
                Seq::empty()
            }));
            let mut endpoint = UdpProtocol::new(
                handles,
                num_players,
                if i < num_players {
                    input_size
                } else {
                    merged_size
                },
                if i < num_players {
                    input_size
                } else {
                    0
                },
                MAX_PREDICTION_FRAMES,
                disconnect_timeout,
                disconnect_notify_start,
                fps,
                magic,
                now,
            );
            if i != local_handle {
                endpoint.synchronize(now, nonce);
            }
            endpoints.push(endpoint);
            i += 1;
        }
        let mut local_connect_status: Vec<ConnectionStatus> = Vec::new();
        let mut k: usize = 0;
        while k < num_players
            invariant
                k <= num_players,
                local_connect_status@ == Seq::new(
                    k as nat,
                    |i: int| ConnectionStatus { disconnected: false, last_frame: NULL_FRAME },
                ),
            decreases num_players - k,
        {
            local_connect_status.push(ConnectionStatus::default());
            k += 1;
        }
        let sync_layer = SyncLayer::new(num_players, input_size, MAX_PREDICTION_FRAMES);
        let session = P2PSession {
            num_players,
            input_size,
            local_handle,
            state: if num_peers == 1 {
                SessionState::Running
            } else {
                SessionState::Synchronizing
            },
            sync_layer,
            endpoints,
            local_connect_status,
            event_queue: Vec::new(),
            next_spectator_frame: 0,
            next_recommended_sleep: 0,
        };
        proof {
            session.sync_layer.lemma_wf_inv();
            let want = initial_session(
                num_players,
                input_size,
                local_handle,
                num_spectators,
                disconnect_timeout,
                disconnect_notify_start,
                fps,
                magic,
                now,
                nonce,
            );
            assert(session@.endpoints =~= want.endpoints);
            assert(session@.event_queue =~= want.event_queue);
            assert forall|i: int| 0 <= i < session@.endpoints.len() implies (
            #[trigger] session@.endpoints[i]).inv()
                && session@.endpoints[i].peer_connect_status.len() == num_players && (i
                < num_players ==> session@.endpoints[i].core.send_size == input_size
                && session@.endpoints[i].core.recv_size == input_size) && (i >= num_players
                ==> session@.endpoints[i].core.send_size == session@.merged_size()
                && session@.endpoints[i].core.recv_size == 0) by {
                session.endpoints@[i].lemma_wf_inv();
            }
        }
        Ok(session)
    }

    /// Whether the session still waits for its peers or runs.
    pub fn current_state(&self) -> (state: SessionState)
        ensures
            state == self@.state,
    {
        self.state
    }

    /// The number of players.
    pub fn num_players(&self) -> (count: usize)
        ensures
            count == self@.num_players,
    {
        self.num_players
    }

    /// The frame that the game is about to simulate.
    pub fn current_frame(&self) -> (frame: Frame)
        ensures
            frame == self@.layer.current_frame,
    {
        self.sync_layer.current_frame()
    }

    /// The last frame for which the inputs of all players are known.
    pub fn last_confirmed_frame(&self) -> (frame: Frame)
        ensures
            frame == self@.layer.last_confirmed_frame,
    {
        self.sync_layer.last_confirmed_frame()
    }

    /// Takes the events that have come up since the last call, oldest first.
    pub fn events(&mut self) -> (events: Vec<GGRSEvent>)
        requires
            old(self).wf(),
        ensures
            final(self).wf(),
            events@ == old(self)@.event_queue,
            final(self)@ == (SessionView { event_queue: Seq::empty(), ..old(self)@ }),
    {
        let mut events: Vec<GGRSEvent> = Vec::new();
        core::mem::swap(&mut self.event_queue, &mut events);
        events
    }

    /// The figures on the connection to a peer at `now`.
    ///
    /// # Errors
    /// - `InvalidRequest` if the number is not that of a peer.
    /// - `NotSynchronized` if the peer is gone, or less than a second has
    ///   passed since its handshake began.
    pub fn network_stats(&self, peer: PlayerHandle, now: u128) -> (stats: Result<
        NetworkStats,
        GGRSError,
    >)
        requires
            self.wf(),
        ensures
            !self@.is_peer(peer as int) ==> (stats matches Err(GGRSError::InvalidRequest { info })
                && info@ == "The player handle is invalid."@),
            self@.is_peer(peer as int) ==> match self@.endpoints[peer as int].stats(now) {
                Some(figures) => stats == Ok::<NetworkStats, GGRSError>(figures),
                None => stats == Err::<NetworkStats, GGRSError>(GGRSError::NotSynchronized),
            },
    {
        if peer >= self.endpoints.len() || peer == self.local_handle {
            return Err(
                GGRSError::InvalidRequest { info: "The player handle is invalid.".to_owned() },
            );
        }
        assert(self.endpoints@[peer as int].wf());
        self.endpoints[peer].network_stats(now)
    }

    /// Sets by how many frames the inputs of the local player are delayed.
    ///
    /// # Errors
    /// - `InvalidRequest` if the handle is not that of the local player, or
    ///   the delay is not below `MAX_PREDICTION_FRAMES`. Nothing changes then.
    pub fn set_frame_delay(&mut self, frame_delay: u32, player_handle: PlayerHandle) -> (result:
        Result<(), GGRSError>)
        requires
            old(self).wf(),
        ensures
            final(self).wf(),
            player_handle == old(self)@.local_handle && frame_delay < MAX_PREDICTION_FRAMES
                ==> result is Ok && final(self)@ == (SessionView {
                layer: LayerView {
                    queues: old(self)@.layer.queues.update(
                        player_handle as int,
                        QueueView { frame_delay, ..old(self)@.layer.queues[player_handle as int] },
                    ),
                    ..old(self)@.layer
                },
                ..old(self)@
            }),
            !(player_handle == old(self)@.local_handle && frame_delay < MAX_PREDICTION_FRAMES)
                ==> final(self)@ == old(self)@ && (result matches Err(
                GGRSError::InvalidRequest { info },
            ) && info@ == (if player_handle != old(self)@.local_handle {
                "The frame delay is that of the local player."@
            } else {
                "The frame delay has to be smaller than the prediction window."@
            })),
    {
        if player_handle != self.local_handle {
            return Err(
                GGRSError::InvalidRequest {
                    info: "The frame delay is that of the local player.".to_owned(),
                },
            );
        }
        proof {
            self.sync_layer.lemma_wf_inv();
        }
        let result = self.sync_layer.set_frame_delay(player_handle, frame_delay);
        proof {
            self.sync_layer.lemma_wf_inv();
        }
        result
    }

    /// Puts the state that the host has saved into the cell with this
    /// number. The host does this when it fulfils a request to save.
    ///
    /// # Errors
    /// - `InvalidRequest` if there is no such cell, or the cell is not
    ///   marked for the frame of the state. Nothing changes then.
    pub fn save_game_state(&mut self, cell: usize, state: GameState) -> (result: Result<
        (),
        GGRSError,
    >)
        requires
            old(self).wf(),
        ensures
            final(self).wf(),
            cell < old(self)@.layer.saved_states.len() && old(
                self,
            )@.layer.saved_states[cell as int].frame == state.frame ==> result is Ok
                && final(self)@ == (SessionView {
                layer: LayerView {
                    saved_states: old(self)@.layer.saved_states.update(cell as int, state@),
                    ..old(self)@.layer
                },
                ..old(self)@
            }),
            !(cell < old(self)@.layer.saved_states.len() && old(
                self,
            )@.layer.saved_states[cell as int].frame == state.frame) ==> final(self)@ == old(
                self,
            )@ && (result matches Err(GGRSError::InvalidRequest { info }) && info@ == "The cell is not marked for the frame of the state."@),
    {
        proof {
            self.sync_layer.lemma_wf_inv();
        }
        let result = self.sync_layer.save_game_state(cell, state);
        proof {
            self.sync_layer.lemma_wf_inv();
        }
        result
    }

    /// The state in the cell with this number, for the host to load, if
    /// there is such a cell.
    pub fn load_game_state(&self, cell: usize) -> (state: Option<&GameState>)
        requires
            self.wf(),
        ensures
            match state {
                Some(found) => cell < self@.layer.saved_states.len() && found@
                    == self@.layer.saved_states[cell as int],
                None => cell >= self@.layer.saved_states.len(),
            },
    {
        proof {
            self.sync_layer.lemma_wf_inv();
        }
        if cell < MAX_PREDICTION_FRAMES + 2 {
            Some(self.sync_layer.saved_state(cell))
        } else {
            None
        }
    }

    /// Gives a remote player up: the player has left the game, and the
    /// inputs of the player count up to the last confirmed frame.
    ///
    /// # Errors
    /// - `InvalidRequest` if the handle is not that of a remote player.
    /// - `PlayerDisconnected` if the player has left already.
    ///
    /// Nothing changes after an error.
    pub fn disconnect_player(&mut self, player_handle: PlayerHandle) -> (result: Result<
        (),
        GGRSError,
    >)
        requires
            old(self).wf(),
        ensures
            final(self).wf(),
            !old(self)@.is_remote_player(player_handle as int) ==> final(self)@ == old(self)@
                && (result matches Err(GGRSError::InvalidRequest { info }) && info@ == "The player handle is invalid."@),
            old(self)@.is_remote_player(player_handle as int) && old(
                self,
            )@.connect_status[player_handle as int].disconnected ==> final(self)@ == old(self)@
                && result == Err::<(), GGRSError>(
                GGRSError::PlayerDisconnected { handle: player_handle },
            ),
            old(self)@.is_remote_player(player_handle as int) && !old(
                self,
            )@.connect_status[player_handle as int].disconnected ==> result is Ok && final(self)@
                == old(self)@.with_endpoint(
                player_handle as int,
                old(self)@.endpoints[player_handle as int].in_state(ProtocolState::Disconnected),
            ).dropped(player_handle as int),
    {
        if player_handle >= self.num_players || player_handle == self.local_handle {
            return Err(
                GGRSError::InvalidRequest { info: "The player handle is invalid.".to_owned() },
            );
        }
        if self.local_connect_status[player_handle].disconnected {
            return Err(GGRSError::PlayerDisconnected { handle: player_handle });
        }
        let ghost before = *self;
        assert(self.endpoints@[player_handle as int].wf());
        self.endpoints[player_handle].disconnect();
        proof {
            Self::lemma_endpoint_replaced(before, *self, player_handle as int);
            self.sync_layer.lemma_wf_inv();
        }
        let last_frame = self.sync_layer.last_confirmed_frame();
        self.local_connect_status.set(
            player_handle,
            ConnectionStatus { disconnected: true, last_frame },
        );
        Ok(())
    }

    /// Takes the messages that wait to be sent, each with the number of
    /// the peer it is for, in the order of the peers.
    pub fn send_all_messages(&mut self) -> (messages: Vec<(PlayerHandle, UdpMessage)>)
        requires
            old(self).wf(),
        ensures
            final(self).wf(),
            sender_views(messages@) == outgoing(
                old(self)@.endpoints,
                old(self)@.endpoints.len(),
            ),
            final(self)@ == (SessionView {
                endpoints: Seq::new(
                    old(self)@.endpoints.len(),
                    |i: int|
                        EndpointView { send_queue: Seq::empty(), ..old(self)@.endpoints[i] },
                ),
                ..old(self)@
            }),
    {
        let ghost before = self@;
        let mut messages: Vec<(PlayerHandle, UdpMessage)> = Vec::new();
        let mut i: usize = 0;
        while i < self.endpoints.len()
            invariant
                i <= self.endpoints.len(),
                self.wf(),
                before == old(self)@,
                self@ == (SessionView { endpoints: self@.endpoints, ..before }),
                self@.endpoints.len() == before.endpoints.len(),
                forall|j: int|
                    0 <= j < i ==> self@.endpoints[j] == (EndpointView {
                        send_queue: Seq::empty(),
                        ..before.endpoints[j]
                    }),
                forall|j: int| i <= j < before.endpoints.len() ==> self@.endpoints[j]
                    == before.endpoints[j],
                sender_views(messages@) == outgoing(before.endpoints, i as nat),
            decreases self.endpoints.len() - i,
        {
            let ghost earlier = *self;
            let ghost collected = sender_views(messages@);
            assert(self.endpoints@[i as int].wf());
            assert(self@.endpoints[i as int] == self.endpoints@[i as int]@);
            let mut waiting = self.endpoints[i].send_all_messages();
            proof {
                Self::lemma_endpoint_replaced(earlier, *self, i as int);
            }
            let ghost queue = before.endpoints[i as int].send_queue;
            let ghost taken = waiting@;
            let total = waiting.len();
            assert(taken.len() == total);
            let mut k: usize = 0;
            while waiting.len() > 0
                invariant
                    taken.len() == queue.len(),
                    taken.len() <= usize::MAX,
                    crate::network::udp_msg::message_views(taken) == queue,
                    k + waiting@.len() == taken.len(),
                    waiting@ == taken.skip(k as int),
                    sender_views(messages@) == collected + Seq::new(
                        k as nat,
                        |m: int| (i, queue[m]),
                    ),
                decreases waiting.len(),
            {
                let message = waiting.remove(0);
                assert(message == taken[k as int]);
                assert(crate::network::udp_msg::message_views(taken)[k as int] == message@);
                let ghost so_far = sender_views(messages@);
                messages.push((i, message));
                assert(sender_views(messages@) =~= so_far.push((i, queue[k as int])));
                k = k + 1;
                assert(waiting@ =~= taken.skip(k as int));
                assert(sender_views(messages@) =~= collected + Seq::new(
                    k as nat,
                    |m: int| (i, queue[m]),
                ));
            }
            i += 1;
        }
        assert(self@.endpoints =~= Seq::new(
            before.endpoints.len(),
            |i: int| EndpointView { send_queue: Seq::empty(), ..before.endpoints[i] },
        ));
        messages
    }

    /// Keeps an event for the host, and drops the oldest where the queue is full.
    fn notify(&mut self, event: GGRSEvent)
        requires
            old(self).wf(),
        ensures
            final(self).wf(),
            final(self)@ == old(self)@.notified(event),
    {
        self.event_queue.push(event);
        if self.event_queue.len() > MAX_EVENT_QUEUE_SIZE {
            let excess = self.event_queue.len() - MAX_EVENT_QUEUE_SIZE;
            let mut kept = self.event_queue.split_off(excess);
            core::mem::swap(&mut self.event_queue, &mut kept);
            assert(self.event_queue@ =~= latest(
                old(self).event_queue@.push(event),
                MAX_EVENT_QUEUE_SIZE as int,
            ));
        }
    }

    /// Whether every peer has completed its handshake.
    fn check_initial_sync(&self) -> (done: bool)
        requires
            self.wf(),
        ensures
            done == self@.all_synchronized(),
    {
        let mut i: usize = 0;
        while i < self.endpoints.len()
            invariant
                i <= self.endpoints.len(),
                forall|j: int|
                    0 <= j < i && j != self.local_handle ==> (#[trigger] self@.endpoints[j]).core.state
                        != ProtocolState::Initializing && self@.endpoints[j].core.state
                        != ProtocolState::Synchronizing,
            decreases self.endpoints.len() - i,
        {
            if i != self.local_handle && !self.endpoints[i].is_synchronized() {
                assert(self@.endpoints[i as int] == self.endpoints@[i as int]@);
                assert(self@.is_peer(i as int));
                return false;
            }
            assert(self@.endpoints[i as int] == self.endpoints@[i as int]@);
            i += 1;
        }
        true
    }

    fn handle_event(&mut self, peer: PlayerHandle, event: Event)
        requires
            old(self).wf(),
            old(self)@.is_peer(peer as int),
        ensures
            final(self).wf(),
            final(self)@ == old(self)@.after_event(peer as int, event@),
            final(self)@.endpoints == old(self)@.endpoints,
    {
        let player_handle = peer;
        match event {
            // forward to the host
            Event::Synchronizing { total, count } => {
                self.notify(GGRSEvent::Synchronizing { player_handle, total, count });
            },
            Event::NetworkInterrupted { disconnect_timeout } => {
                self.notify(GGRSEvent::NetworkInterrupted { player_handle, disconnect_timeout });
            },
            Event::NetworkResumed => {
                self.notify(GGRSEvent::NetworkResumed { player_handle });
            },
            // the session runs once every peer is synchronized
            Event::Synchronized => {
                self.notify(GGRSEvent::Synchronized { player_handle });
                if self.check_initial_sync() {
                    self.state = SessionState::Running;
                }
            },
            // a peer that is gone has left the game
            Event::Disconnected => {
                if peer < self.num_players {
                    proof {
                        self.sync_layer.lemma_wf_inv();
                    }
                    let last_frame = self.sync_layer.last_confirmed_frame();
                    self.local_connect_status.set(
                        peer,
                        ConnectionStatus { disconnected: true, last_frame },
                    );
                }
                self.notify(GGRSEvent::Disconnected { player_handle });
            },
            // the input of a remote player goes to the sync layer
            Event::Input(input) => {
                if peer < self.num_players && !self.local_connect_status[peer].disconnected {
                    let ghost layer = self@.layer;
                    proof {
                        self.sync_layer.lemma_wf_inv();
                    }
                    let outcome = self.sync_layer.add_remote_input(peer, input);
                    proof {
                        self.sync_layer.lemma_wf_inv();
                        assert(layer.queues[peer as int].inv());
                    }
                    match outcome {
                        Ok(frame) => {
                            self.local_connect_status.set(
                                peer,
                                ConnectionStatus { disconnected: false, last_frame: frame },
                            );
                        },
                        Err(_) => {
                            assert(self@.layer.queues =~= layer.queues);
                        },
                    }
                }
            },
        }
    }

    /// Takes a message that the peer with the number `from` has sent.
    fn receive(&mut self, from: PlayerHandle, message: &UdpMessage, now: u128, nonce: u32)
        requires
            old(self).wf(),
        ensures
            final(self).wf(),
            final(self)@ == old(self)@.received(from as int, message@, now, nonce),
    {
        if from < self.endpoints.len() && from != self.local_handle {
            let ghost before = *self;
            proof {
                assert(self.endpoints@[from as int].wf());
                assert(self@.endpoints[from as int] == self.endpoints@[from as int]@);
                lemma_shape_is_kept(
                    self.endpoints@[from as int]@,
                    message@,
                    arbitrary(),
                    arbitrary(),
                    arbitrary(),
                    now,
                    nonce,
                );
            }
            self.endpoints[from].handle_message(message, now, nonce);
            proof {
                Self::lemma_endpoint_replaced(before, *self, from as int);
            }
        }
    }

    /// Polls the endpoint of a peer and handles its events.
    fn poll_peer(&mut self, peer: PlayerHandle, now: u128, nonce: u32)
        requires
            old(self).wf(),
            old(self)@.is_peer(peer as int),
        ensures
            final(self).wf(),
            final(self)@ == old(self)@.peer_polled(peer as int, now, nonce),
            final(self)@.endpoints.len() == old(self)@.endpoints.len(),
            final(self)@.local_handle == old(self)@.local_handle,
    {
        let current = self.sync_layer.current_frame();
        let ghost before = *self;
        proof {
            assert(self.endpoints@[peer as int].wf());
            assert(self@.endpoints[peer as int] == self.endpoints@[peer as int]@);
            lemma_shape_is_kept(
                self.endpoints@[peer as int]@,
                arbitrary(),
                arbitrary(),
                arbitrary(),
                current,
                now,
                nonce,
            );
        }
        self.endpoints[peer].update_local_frame_advantage(current);
        proof {
            Self::lemma_endpoint_replaced(before, *self, peer as int);
        }
        let ghost told = *self;
        proof {
            lemma_shape_is_kept(
                self.endpoints@[peer as int]@,
                arbitrary(),
                arbitrary(),
                self.local_connect_status@,
                arbitrary(),
                now,
                nonce,
            );
        }
        let mut events = self.endpoints[peer].poll(
            self.local_connect_status.as_slice(),
            now,
            nonce,
        );
        proof {
            Self::lemma_endpoint_replaced(told, *self, peer as int);
            let endpoint = before@.endpoints[peer as int].with_local_frame(current);
            assert(told@.endpoints[peer as int] == endpoint);
            assert(self@.endpoints =~= before@.endpoints.update(
                peer as int,
                endpoint.polled(before@.connect_status, now, nonce),
            ));
            assert(self@ == before@.with_endpoint(
                peer as int,
                endpoint.polled(before@.connect_status, now, nonce),
            ));
        }
        let ghost target = self@.after_events(peer as int, event_views(events@));
        let ghost len = self@.endpoints.len();
        let ghost local = self@.local_handle;
        while events.len() > 0
            invariant
                self.wf(),
                self@.is_peer(peer as int),
                self@.endpoints.len() == len,
                self@.local_handle == local,
                self@.after_events(peer as int, event_views(events@)) == target,
            decreases events.len(),
        {
            let ghost waiting = event_views(events@);
            let event = events.remove(0);
            assert(event_views(events@) =~= waiting.skip(1));
            self.handle_event(peer, event);
        }
    }

    /// The frame up to which the inputs of all players who have not left are known.
    fn reached(&self) -> (frame: Frame)
        requires
            self.wf(),
        ensures
            frame == reached_frame(self@.connect_status, self@.num_players as nat),
            frame >= NULL_FRAME,
    {
        let mut frame: Frame = i32::MAX;
        let mut i: usize = 0;
        while i < self.local_connect_status.len()
            invariant
                i <= self.local_connect_status.len(),
                self.wf(),
                frame == reached_frame(self@.connect_status, i as nat),
                frame >= NULL_FRAME,
            decreases self.local_connect_status.len() - i,
        {
            let status = self.local_connect_status[i];
            assert(self@.connect_status[i as int].last_frame >= NULL_FRAME);
            if !status.disconnected && status.last_frame < frame {
                frame = status.last_frame;
            }
            i += 1;
        }
        frame
    }

    /// Sends the spectators the confirmed inputs of the frames up to `upto`
    /// that they have not been sent.
    fn feed_spectators(&mut self, upto: Frame, now: u128)
        requires
            old(self).wf(),
        ensures
            final(self).wf(),
            final(self)@ == old(self)@.spectators_fed(upto, now),
            final(self)@.layer == old(self)@.layer,
            final(self)@.state == old(self)@.state,
    {
        let ghost start = self@;
        loop
            invariant
                self.wf(),
                self@.layer == start.layer,
                self@.state == start.state,
                self@.spectators_fed(upto, now) == start.spectators_fed(upto, now),
            ensures
                self.wf(),
                self@.layer == start.layer,
                self@.state == start.state,
                self@ == start.spectators_fed(upto, now),
            decreases upto - self.next_spectator_frame + 1,
        {
            let frame = self.next_spectator_frame;
            if frame > upto || frame == i32::MAX {
                break ;
            }
            proof {
                self.sync_layer.lemma_wf_inv();
            }
            let inputs = match self.sync_layer.confirmed_inputs(
                frame,
                self.local_connect_status.as_slice(),
            ) {
                Ok(inputs) => inputs,
                Err(_) => {
                    break ;
                },
            };
            let merged = merge_inputs(&inputs, frame, self.input_size);
            let ghost before = self@;
            let ghost merged_view = merged@;
            // every spectator gets the inputs of all players
            let mut i: usize = self.num_players;
            while i < self.endpoints.len()
                invariant
                    self.num_players <= i <= self.endpoints.len(),
                    self.wf(),
                    merged.wf(),
                    merged@ == merged_view,
                    self@ == (SessionView { endpoints: self@.endpoints, ..before }),
                    self@.endpoints.len() == before.endpoints.len(),
                    forall|j: int|
                        0 <= j < before.endpoints.len() ==> self@.endpoints[j] == (if before.num_players
                            <= j < i {
                            before.endpoints[j].after_send_input(
                                merged_view,
                                before.connect_status,
                                now,
                            )
                        } else {
                            before.endpoints[j]
                        }),
                decreases self.endpoints.len() - i,
            {
                let ghost earlier = *self;
                proof {
                    assert(self.endpoints@[i as int].wf());
                    assert(self@.endpoints[i as int] == self.endpoints@[i as int]@);
                    lemma_shape_is_kept(
                        self.endpoints@[i as int]@,
                        arbitrary(),
                        merged_view,
                        self.local_connect_status@,
                        arbitrary(),
                        now,
                        arbitrary(),
                    );
                }
                let _ = self.endpoints[i].send_input(
                    merged.duplicate(),
                    self.local_connect_status.as_slice(),
                    now,
                );
                proof {
                    Self::lemma_endpoint_replaced(earlier, *self, i as int);
                }
                i += 1;
            }
            self.next_spectator_frame = frame + 1;
            proof {
                let next = SessionView {
                    endpoints: Seq::new(
                        before.endpoints.len(),
                        |i: int|
                            if before.is_spectator(i) {
                                before.endpoints[i].after_send_input(
                                    merged_view,
                                    before.connect_status,
                                    now,
                                )
                            } else {
                                before.endpoints[i]
                            },
                    ),
                    next_spectator_frame: (frame + 1) as Frame,
                    ..before
                };
                assert(self@.endpoints =~= next.endpoints);
                assert(self@ == next);
            }
        }
    }

    /// Settles what the session has learnt since it last did.
    fn settle(&mut self, now: u128)
        requires
            old(self).wf(),
        ensures
            final(self).wf(),
            final(self)@ == old(self)@.settled(now),
    {
        match self.state {
            SessionState::Running => {},
            _ => {
                return ;
            },
        }
        proof {
            self.sync_layer.lemma_wf_inv();
        }
        let reached = self.reached();
        let target = self.sync_layer.confirmable_frame(reached);
        if target <= self.sync_layer.last_confirmed_frame() {
            return ;
        }
        // the spectators get the inputs before the queues give them up
        self.feed_spectators(target, now);
        proof {
            self.sync_layer.lemma_wf_inv();
        }
        self.sync_layer.set_last_confirmed_frame(reached);
        proof {
            self.sync_layer.lemma_wf_inv();
        }
    }

    /// Takes the messages that have arrived, each with the number of the
    /// peer that has sent it, lets every endpoint do the work that is due at
    /// `now`, and handles the events that come of it. What the endpoints want
    /// to send waits in their queues, for [`P2PSession::send_all_messages`].
    /// `nonce` is a fresh random number.
    pub fn poll_remote_clients(
        &mut self,
        messages: &[(PlayerHandle, UdpMessage)],
        now: u128,
        nonce: u32,
    )
        requires
            old(self).wf(),
        ensures
            final(self).wf(),
            final(self)@ == old(self)@.polled(sender_views(messages@), now, nonce),
    {
        let ghost before = self@;
        let ghost all = sender_views(messages@);
        let ghost len = self@.endpoints.len();
        let mut i: usize = 0;
        assert(all.skip(0) =~= all);
        while i < messages.len()
            invariant
                i <= messages.len(),
                self.wf(),
                all == sender_views(messages@),
                self@.endpoints.len() == len,
                self@.received_all(all.skip(i as int), now, nonce) == before.received_all(
                    all,
                    now,
                    nonce,
                ),
            decreases messages.len() - i,
        {
            proof {
                assert(all.skip(i as int)[0] == (messages@[i as int].0, messages@[i as int].1@));
                assert(all.skip(i as int).skip(1) =~= all.skip(i as int + 1));
            }
            self.receive(messages[i].0, &messages[i].1, now, nonce);
            i += 1;
        }
        let ghost heard = self@;
        assert(heard == before.received_all(all, now, nonce));
        let count = self.endpoints.len();
        let mut peer: usize = 0;
        while peer < count
            invariant
                peer <= count,
                count == len,
                self.wf(),
                self@.endpoints.len() == len,
                self@.local_handle == heard.local_handle,
                self@.peers_polled(peer as nat, count as nat, now, nonce) == heard.peers_polled(
                    0,
                    count as nat,
                    now,
                    nonce,
                ),
            decreases count - peer,
        {
            if peer != self.local_handle {
                self.poll_peer(peer, now, nonce);
            }
            peer += 1;
        }
        self.settle(now);
        self.recommend();
    }

    /// The largest number of frames that a remote player would have this
    /// session wait.
    fn max_delay_recommendation(&self) -> (skip: i32)
        requires
            self.wf(),
        ensures
            skip == self@.max_advantage(self@.num_players as nat),
    {
        let mut skip: i32 = 0;
        let mut i: usize = 0;
        while i < self.num_players
            invariant
                i <= self.num_players,
                self.wf(),
                skip == self@.max_advantage(i as nat),
            decreases self.num_players - i,
        {
            assert(self.endpoints@[i as int].wf());
            assert(self@.endpoints[i as int] == self.endpoints@[i as int]@);
            if i != self.local_handle && !self.local_connect_status[i].disconnected {
                let advantage = self.endpoints[i].average_frame_advantage();
                if advantage > skip {
                    skip = advantage;
                }
            }
            i += 1;
        }
        skip
    }

    /// Tells the host to wait where the session is too far ahead of its peers.
    fn recommend(&mut self)
        requires
            old(self).wf(),
        ensures
            final(self).wf(),
            final(self)@ == old(self)@.recommended(),
    {
        match self.state {
            SessionState::Running => {},
            _ => {
                return ;
            },
        }
        let current = self.sync_layer.current_frame();
        if current <= self.next_recommended_sleep {
            return ;
        }
        let skip = self.max_delay_recommendation();
        if skip >= MIN_RECOMMENDATION {
            self.next_recommended_sleep = if current > i32::MAX - RECOMMENDATION_INTERVAL {
                i32::MAX
            } else {
                current + RECOMMENDATION_INTERVAL
            };
            self.notify(GGRSEvent::WaitRecommendation { skip_frames: skip as u32 });
        }
    }

    /// Adds the input of the local player for the current frame, and sends
    /// it to the remote players.
    ///
    /// # Errors
    /// - `NotSynchronized` if the session does not run yet.
    /// - `InvalidRequest` if the handle is not that of the local player.
    /// - `PredictionThreshold` if the game is as far ahead of the confirmed
    ///   inputs as it may be: poll, and try again.
    /// - `InvalidInput` if the input has not the size of the session, or the
    ///   local player has an input for the frame already.
    ///
    /// Nothing changes after an error.
    pub fn add_local_input(&mut self, player_handle: PlayerHandle, input: &[u8], now: u128) -> (result:
        Result<(), GGRSError>)
        requires
            old(self).wf(),
        ensures
            final(self).wf(),
            old(self)@.state != SessionState::Running ==> final(self)@ == old(self)@ && result
                == Err::<(), GGRSError>(GGRSError::NotSynchronized),
            old(self)@.state == SessionState::Running && player_handle != old(self)@.local_handle
                ==> final(self)@ == old(self)@ && (result matches Err(
                GGRSError::InvalidRequest { info },
            ) && info@ == "The player handle is invalid."@),
            old(self)@.state == SessionState::Running && player_handle == old(self)@.local_handle
                ==> final(self)@ == old(self)@.after_local_input(input@, now).0 && (match old(
                self,
            )@.after_local_input(input@, now).1 {
                Some(e) => result == Err::<(), GGRSError>(e),
                None => result is Ok,
            }),
    {
        match self.state {
            SessionState::Running => {},
            _ => {
                return Err(GGRSError::NotSynchronized);
            },
        }
        if player_handle != self.local_handle {
            return Err(
                GGRSError::InvalidRequest { info: "The player handle is invalid.".to_owned() },
            );
        }
        let ghost before = self@;
        let local = self.local_handle;
        proof {
            self.sync_layer.lemma_wf_inv();
        }
        let current = self.sync_layer.current_frame();
        let local_input = PlayerInput {
            frame: current,
            size: self.input_size,
            buffer: copy_bytes(input),
        };
        let outcome = self.sync_layer.add_local_input(local, local_input);
        proof {
            self.sync_layer.lemma_wf_inv();
            assert(before.layer.queues[local as int].inv());
        }
        let frame = match outcome {
            Ok(frame) => frame,
            Err(e) => {
                assert(self@.layer.queues =~= before.layer.queues);
                return Err(e);
            },
        };
        // the input was left out: the frame had one already
        if frame == NULL_FRAME {
            return Ok(());
        }
        let first = self.local_connect_status[local].last_frame as i64 + 1;
        let disconnected = self.local_connect_status[local].disconnected;
        self.local_connect_status.set(local, ConnectionStatus { disconnected, last_frame: frame });
        let ghost queue = self@.layer.queues[local as int];
        // what the sync layer has stored with this input
        let mut run: Vec<PlayerInput> = Vec::new();
        let mut whole = true;
        let mut f: i64 = first;
        while whole && f <= frame as i64
            invariant
                first <= f <= frame + 1 || (f == first && first > frame),
                first >= 0,
                self.wf(),
                queue == self@.layer.queues[local as int],
                local == self@.local_handle,
                whole ==> run@.len() == f - first,
                whole ==> forall|k: int|
                    0 <= k < run@.len() ==> (#[trigger] run@[k]).wf() && run@[k].size
                        == self@.input_size && queue.confirmed(first + k) is Some && run@[k]@
                        == (InputView {
                        frame: first + k,
                        bytes: queue.confirmed(first + k)->Some_0,
                    }),
                !whole ==> run@.len() == 0 && exists|g: int|
                    first <= g <= frame && (#[trigger] queue.confirmed(g)) is None,
            decreases (if whole {
                frame + 1 - f + 1
            } else {
                0
            }),
        {
            proof {
                self.sync_layer.lemma_wf_inv();
            }
            match self.sync_layer.confirmed_input(local, f as Frame) {
                Ok(stored) => {
                    run.push(stored);
                    f = f + 1;
                },
                Err(_) => {
                    assert(queue.confirmed(f as int) is None);
                    run = Vec::new();
                    whole = false;
                },
            }
        }
        let ghost run_view = views(run@);
        proof {
            let want = stored_run(queue, first as int, frame as int);
            if whole && first <= frame {
                assert forall|g: int| first <= g <= frame implies (#[trigger] queue.confirmed(
                    g,
                )) is Some by {
                    assert(run@[g - first].wf());
                }
            }
            assert(run_view =~= want);
        }
        let ghost status = self.local_connect_status@;
        let ghost told = self@;
        // every remote player gets it
        let mut i: usize = 0;
        while i < self.num_players
            invariant
                i <= self.num_players,
                self.wf(),
                local == self@.local_handle,
                run_view == views(run@),
                status == self.local_connect_status@,
                forall|k: int| 0 <= k < run@.len() ==> (#[trigger] run@[k]).wf(),
                self@ == (SessionView { endpoints: self@.endpoints, ..told }),
                self@.endpoints.len() == told.endpoints.len(),
                forall|j: int|
                    0 <= j < told.endpoints.len() ==> (#[trigger] self@.endpoints[j]) == (if j < i
                        && told.is_remote_player(j) {
                        sent_all(told.endpoints[j], run_view, status, now)
                    } else {
                        told.endpoints[j]
                    }),
            decreases self.num_players - i,
        {
            if i != local {
                let ghost at_first = self@.endpoints[i as int];
                let mut k: usize = 0;
                assert(run_view.skip(0) =~= run_view);
                assert(0 <= i < told.endpoints.len());
                assert(at_first == told.endpoints[i as int]);
                while k < run.len()
                    invariant
                        k <= run.len(),
                        i < self.num_players,
                        i != local,
                        self.wf(),
                        local == self@.local_handle,
                        run_view == views(run@),
                        status == self.local_connect_status@,
                        forall|k: int| 0 <= k < run@.len() ==> (#[trigger] run@[k]).wf(),
                        self@ == (SessionView { endpoints: self@.endpoints, ..told }),
                        self@.endpoints.len() == told.endpoints.len(),
                        forall|j: int|
                            0 <= j < told.endpoints.len() && j != i ==> (
                            #[trigger] self@.endpoints[j]) == (if j < i && told.is_remote_player(
                                j,
                            ) {
                                sent_all(told.endpoints[j], run_view, status, now)
                            } else {
                                told.endpoints[j]
                            }),
                        at_first == told.endpoints[i as int],
                        sent_all(
                            self@.endpoints[i as int],
                            run_view.skip(k as int),
                            status,
                            now,
                        ) == sent_all(at_first, run_view, status, now),
                    decreases run.len() - k,
                {
                    let ghost earlier = *self;
                    proof {
                        assert(self.endpoints@[i as int].wf());
                        assert(self@.endpoints[i as int] == self.endpoints@[i as int]@);
                        assert(run@[k as int].wf());
                        assert(run_view.skip(k as int)[0] == run@[k as int]@);
                        assert(run_view.skip(k as int).skip(1) =~= run_view.skip(k as int + 1));
                        lemma_shape_is_kept(
                            self.endpoints@[i as int]@,
                            arbitrary(),
                            run@[k as int]@,
                            status,
                            arbitrary(),
                            now,
                            arbitrary(),
                        );
                    }
                    let _ = self.endpoints[i].send_input(
                        run[k].duplicate(),
                        self.local_connect_status.as_slice(),
                        now,
                    );
                    proof {
                        Self::lemma_endpoint_replaced(earlier, *self, i as int);
                        assert forall|j: int|
                            0 <= j < told.endpoints.len() && j != i implies (
                        #[trigger] self@.endpoints[j]) == earlier@.endpoints[j] by {}
                    }
                    k += 1;
                }
                assert(run_view.skip(run@.len() as int) =~= Seq::<InputView>::empty());
                assert(self@.endpoints[i as int] == sent_all(at_first, run_view, status, now));
            }
            i += 1;
        }
        proof {
            let want = before.after_local_input(input@, now).0;
            assert(self@.endpoints =~= want.endpoints);
        }
        Ok(())
    }

    /// Advances the game by a frame: returns the requests that the host
    /// has to fulfil, in their order. Before that it polls as
    /// [`P2PSession::poll_remote_clients`] does.
    ///
    /// The input of the local player for the frame is to be added before;
    /// the inputs of the remote players are predicted where they have not
    /// arrived, and where a prediction has turned out wrong, the requests
    /// take the game back to the first incorrect frame and replay the
    /// frames since then.
    ///
    /// # Errors
    /// - `NotSynchronized` if a peer has not completed its handshake.
    /// - The errors of the sync layer.
    pub fn advance_frame(
        &mut self,
        messages: &[(PlayerHandle, UdpMessage)],
        now: u128,
        nonce: u32,
    ) -> (result: Result<Vec<GGRSRequest>, GGRSError>)
        requires
            old(self).wf(),
        ensures
            final(self).wf(),
            final(self)@ == old(self)@.advanced(sender_views(messages@), now, nonce).0,
            requests_view(result) == old(self)@.advanced(sender_views(messages@), now, nonce).1,
    {
        // hear the peers, raise events and answer
        self.poll_remote_clients(messages, now, nonce);
        match self.state {
            SessionState::Running => {},
            _ => {
                return Err(GGRSError::NotSynchronized);
            },
        }
        proof {
            self.sync_layer.lemma_wf_inv();
            crate::sync_layer::lemma_advance_keeps_session(
                self@.layer,
                self.local_connect_status@,
            );
        }
        let result = self.sync_layer.advance_frame(self.local_connect_status.as_slice());
        proof {
            self.sync_layer.lemma_wf_inv();
        }
        result
    }
}

} // verus!
