//! A session that watches a game without playing.
//!
//! The host of the game sends the spectator the confirmed inputs of all
//! players, one merged input per frame. The spectator keeps the latest of
//! them in a ring and hands them to the game frame by frame; when it falls too
//! far behind, it advances several frames at a time. Since every input it
//! hands out is confirmed, a spectator never rolls back.
use vstd::prelude::*;

use crate::error::GGRSError;
use crate::frame_info::{merged_size_of, views, InputView, PlayerInput};
use crate::network::protocol::{EndpointView, Event, EventView, UdpProtocol};
use crate::network::udp_msg::{message_views, ConnectionStatus, MessageView, UdpMessage};
use crate::sessions::p2p_session::{
    DEFAULT_DISCONNECT_NOTIFY_START, DEFAULT_DISCONNECT_TIMEOUT, DEFAULT_FPS, MAX_EVENT_QUEUE_SIZE,
};
use crate::{
    request_views, Frame, GGRSEvent, GGRSRequest, NetworkStats, RequestView, SessionState,
    NULL_FRAME,
};

verus! {

/// The number of inputs that a spectator keeps: a second's worth.
pub const SPECTATOR_BUFFER_SIZE: usize = 60;

/// A spectator that is more than this many frames behind catches up.
pub const DEFAULT_MAX_FRAMES_BEHIND: u32 = 10;

/// The number of frames a spectator advances at a time while it keeps up.
pub const NORMAL_SPEED: u32 = 1;

/// The number of frames a spectator advances at a time while it catches up.
/// With the default it never does.
pub const DEFAULT_CATCHUP_SPEED: u32 = 1;

/// How far a spectator may run ahead of the host's inputs: not at all, but
/// its endpoint keeps the inputs of twice this many frames to decode against.
pub const SPECTATOR_MAX_PREDICTION: usize = 8;

/// Collects the settings of a [`SpectatorSession`].
pub struct SpectatorSessionBuilder {
    num_players: usize,
    input_size: u16,
    max_frames_behind: u32,
    catchup_speed: u32,
    disconnect_timeout: u128,
    disconnect_notify_start: u128,
    fps: u32,
}

/// The mathematical value of a [`SpectatorSessionBuilder`].
pub struct BuilderView {
    pub num_players: usize,
    pub input_size: u16,
    pub max_frames_behind: u32,
    pub catchup_speed: u32,
    pub disconnect_timeout: u128,
    pub disconnect_notify_start: u128,
    pub fps: u32,
}

impl View for SpectatorSessionBuilder {
    type V = BuilderView;

    closed spec fn view(&self) -> BuilderView {
        BuilderView {
            num_players: self.num_players,
            input_size: self.input_size,
            max_frames_behind: self.max_frames_behind,
            catchup_speed: self.catchup_speed,
            disconnect_timeout: self.disconnect_timeout,
            disconnect_notify_start: self.disconnect_notify_start,
            fps: self.fps,
        }
    }
}

/// The last `keep` entries of `queue`, or all of it if it has no more.
pub open spec fn latest<T>(queue: Seq<T>, keep: int) -> Seq<T> {
    if queue.len() > keep {
        queue.skip(queue.len() - keep)
    } else {
        queue
    }
}

/// The mathematical value of a [`SpectatorSession`].
pub struct SpectatorView {
    pub state: SessionState,
    pub num_players: usize,
    /// The size of the input of one player.
    pub input_size: u16,
    /// The ring of merged inputs: the input of frame `f`, while it is kept,
    /// stands at index `f` modulo the length of the ring.
    pub inputs: Seq<InputView>,
    /// What the host knows of each player.
    pub host_connect_status: Seq<ConnectionStatus>,
    /// The endpoint of the connection to the host.
    pub host: EndpointView,
    /// The events that wait for the game, oldest first.
    pub event_queue: Seq<GGRSEvent>,
    /// The last frame that was handed to the game.
    pub current_frame: Frame,
    /// The last frame whose input has arrived.
    pub last_recv_frame: Frame,
    pub max_frames_behind: u32,
    pub catchup_speed: u32,
}

impl SpectatorView {
    /// The size of a merged input: the inputs of all players end to end.
    pub open spec fn merged_size(self) -> int {
        self.num_players * self.input_size
    }

    /// How many frames the spectator is behind the host.
    pub open spec fn frames_behind_host(self) -> int {
        self.last_recv_frame - self.current_frame
    }

    /// What holds of every spectator: the ring is full of merged inputs, none
    /// of them later than the last received; the game is not ahead of the
    /// inputs; and the endpoint receives merged inputs and knows of as many
    /// players as the session.
    pub open spec fn inv(self) -> bool {
        &&& self.merged_size() <= u16::MAX
        &&& self.inputs.len() == SPECTATOR_BUFFER_SIZE
        &&& forall|i: int|
            0 <= i < self.inputs.len() ==> (#[trigger] self.inputs[i]).bytes.len()
                == self.merged_size() && self.inputs[i].frame <= self.last_recv_frame
        &&& self.host_connect_status.len() == self.num_players
        &&& self.host.peer_connect_status.len() == self.num_players
        &&& self.host.inv()
        &&& self.host.core.recv_size == self.merged_size()
        &&& NULL_FRAME <= self.current_frame <= self.last_recv_frame
        &&& self.event_queue.len() <= MAX_EVENT_QUEUE_SIZE
    }

    /// The inputs of the players for `frame`, cut out of the merged input
    /// `merged`: player `i` has the bytes from `i * input_size` on. The input
    /// of a player who left before `frame` belongs to no frame.
    pub open spec fn player_inputs(self, frame: int, merged: InputView) -> Seq<InputView> {
        Seq::new(
            self.num_players as nat,
            |i: int|
                InputView {
                    frame: if self.host_connect_status[i].disconnected
                        && self.host_connect_status[i].last_frame < frame {
                        NULL_FRAME as int
                    } else {
                        frame
                    },
                    bytes: merged.bytes.subrange(i * self.input_size, (i + 1) * self.input_size),
                },
        )
    }

    /// The inputs of the players for `frame`, if the ring holds the merged
    /// input of that frame. If the ring still holds an earlier frame in its
    /// place, the input has not arrived; if it holds a later one, the input
    /// has been overwritten.
    pub open spec fn inputs_at(self, frame: int) -> Result<Seq<InputView>, GGRSError> {
        let merged = self.inputs[frame % (SPECTATOR_BUFFER_SIZE as int)];
        if merged.frame < frame {
            Err(GGRSError::PredictionThreshold)
        } else if merged.frame > frame {
            Err(GGRSError::SpectatorTooFarBehind)
        } else {
            Ok(self.player_inputs(frame, merged))
        }
    }

    /// How many frames the spectator advances at a time: `catchup_speed` if
    /// it is more than `max_frames_behind` frames behind the host, else one.
    pub open spec fn steps_due(self) -> nat {
        if self.frames_behind_host() > self.max_frames_behind {
            self.catchup_speed as nat
        } else {
            NORMAL_SPEED as nat
        }
    }

    /// The spectator after up to `steps` frames, and the requests for them.
    /// A frame whose inputs cannot be had ends the advance: the frames
    /// before it stay advanced, and the error takes the place of the requests.
    pub open spec fn stepped(self, steps: nat) -> (SpectatorView, Result<Seq<RequestView>, GGRSError>)
        decreases steps,
    {
        if steps == 0 {
            (self, Ok(Seq::empty()))
        } else {
            match self.inputs_at(self.current_frame + 1) {
                Err(e) => (self, Err(e)),
                Ok(inputs) => {
                    let next = SpectatorView {
                        current_frame: (self.current_frame + 1) as Frame,
                        ..self
                    };
                    let (end, rest) = next.stepped((steps - 1) as nat);
                    (
                        end,
                        match rest {
                            Ok(requests) => Ok(
                                seq![RequestView::AdvanceFrame { inputs }] + requests,
                            ),
                            Err(e) => Err(e),
                        },
                    )
                },
            }
        }
    }

    /// The spectator after it has advanced by the frames that are due.
    pub open spec fn advanced(self) -> (SpectatorView, Result<Seq<RequestView>, GGRSError>) {
        self.stepped(self.steps_due())
    }

    /// The spectator with one more event for the game. The queue keeps the
    /// latest `MAX_EVENT_QUEUE_SIZE` events.
    pub open spec fn notified(self, event: GGRSEvent) -> SpectatorView {
        SpectatorView {
            event_queue: latest(self.event_queue.push(event), MAX_EVENT_QUEUE_SIZE as int),
            ..self
        }
    }

    /// Whether the spectator takes `input` into its ring: it must be a merged
    /// input and later than the last received.
    pub open spec fn takes(self, input: InputView) -> bool {
        input.frame > self.last_recv_frame && input.bytes.len() == self.merged_size()
    }

    /// The spectator after an event of its endpoint.
    ///
    /// What concerns the game is handed on, as an event of player 0. The end
    /// of the handshake starts the session. An input goes into the ring at the
    /// place of its frame; the endpoint is told of the new frame, and what it
    /// knows of the players becomes what the session knows.
    pub open spec fn after_event(self, event: EventView) -> SpectatorView {
        match event {
            EventView::Synchronizing { total, count } => self.notified(
                GGRSEvent::Synchronizing { player_handle: 0, total, count },
            ),
            EventView::NetworkInterrupted { disconnect_timeout } => self.notified(
                GGRSEvent::NetworkInterrupted { player_handle: 0, disconnect_timeout },
            ),
            EventView::NetworkResumed => self.notified(
                GGRSEvent::NetworkResumed { player_handle: 0 },
            ),
            EventView::Synchronized => SpectatorView {
                state: SessionState::Running,
                ..self
            }.notified(GGRSEvent::Synchronized { player_handle: 0 }),
            EventView::Disconnected => self.notified(GGRSEvent::Disconnected { player_handle: 0 }),
            EventView::Input(input) => if self.takes(input) {
                SpectatorView {
                    inputs: self.inputs.update(input.frame % (SPECTATOR_BUFFER_SIZE as int), input),
                    last_recv_frame: input.frame as Frame,
                    host: self.host.with_local_frame(input.frame as Frame),
                    host_connect_status: self.host.peer_connect_status,
                    ..self
                }
            } else {
                self
            },
        }
    }

    /// The spectator after the events `events`, in their order.
    pub open spec fn after_events(self, events: Seq<EventView>) -> SpectatorView
        decreases events.len(),
    {
        if events.len() == 0 {
            self
        } else {
            self.after_event(events[0]).after_events(events.skip(1))
        }
    }

    /// The spectator after a poll at `now`: its endpoint has taken the
    /// messages that arrived, in their order, and has done the work that is
    /// due, and the session has handled the events that came of it.
    pub open spec fn polled(self, messages: Seq<MessageView>, now: u128, nonce: u32)
        -> SpectatorView {
        let heard = handled_all(self.host, messages, now, nonce);
        let events = heard.worked(self.host_connect_status, now, nonce).event_queue;
        SpectatorView {
            host: heard.polled(self.host_connect_status, now, nonce),
            ..self
        }.after_events(events)
    }
}

/// The endpoint after the messages `messages`, in their order.
pub open spec fn handled_all(
    endpoint: EndpointView,
    messages: Seq<MessageView>,
    now: u128,
    nonce: u32,
) -> EndpointView
    decreases messages.len(),
{
    if messages.len() == 0 {
        endpoint
    } else {
        handled_all(endpoint.handled(messages[0], now, nonce), messages.skip(1), now, nonce)
    }
}

impl SpectatorSessionBuilder {
    /// The settings of a session that watches `num_players` players, each
    /// with inputs of `input_size` bytes, with the defaults for the rest.
    pub fn new(num_players: usize, input_size: u16) -> (builder: Self)
        requires
            num_players * input_size <= u16::MAX,
        ensures
            builder@ == (BuilderView {
                num_players,
                input_size,
                max_frames_behind: DEFAULT_MAX_FRAMES_BEHIND,
                catchup_speed: DEFAULT_CATCHUP_SPEED,
                disconnect_timeout: DEFAULT_DISCONNECT_TIMEOUT,
                disconnect_notify_start: DEFAULT_DISCONNECT_NOTIFY_START,
                fps: DEFAULT_FPS,
            }),
            builder.wf(),
    {
        Self {
            num_players,
            input_size,
            max_frames_behind: DEFAULT_MAX_FRAMES_BEHIND,
            catchup_speed: DEFAULT_CATCHUP_SPEED,
            disconnect_timeout: DEFAULT_DISCONNECT_TIMEOUT,
            disconnect_notify_start: DEFAULT_DISCONNECT_NOTIFY_START,
            fps: DEFAULT_FPS,
        }
    }

    /// A merged input of the session fits the width of an input's size.
    pub closed spec fn wf(&self) -> bool {
        self.num_players * self.input_size <= u16::MAX
    }

    /// Sets how many frames the spectator may be behind the host before it catches up.
    pub fn with_max_frames_behind(self, max_frames_behind: u32) -> (builder: Self)
        requires
            self.wf(),
        ensures
            builder.wf(),
            builder@ == (BuilderView { max_frames_behind, ..self@ }),
    {
        let mut settings = self;
        settings.max_frames_behind = max_frames_behind;
        settings
    }

    /// Sets how many frames the spectator advances at a time while it catches up.
    pub fn with_catchup_speed(self, catchup_speed: u32) -> (builder: Self)
        requires
            self.wf(),
        ensures
            builder.wf(),
            builder@ == (BuilderView { catchup_speed, ..self@ }),
    {
        let mut settings = self;
        settings.catchup_speed = catchup_speed;
        settings
    }

    /// Sets the silence, in milliseconds, after which the host counts as gone.
    pub fn with_disconnect_timeout(self, timeout: u128) -> (builder: Self)
        requires
            self.wf(),
        ensures
            builder.wf(),
            builder@ == (BuilderView { disconnect_timeout: timeout, ..self@ }),
    {
        let mut settings = self;
        settings.disconnect_timeout = timeout;
        settings
    }

    /// Sets the silence, in milliseconds, after which the game is warned.
    pub fn with_disconnect_notify_delay(self, notify_delay: u128) -> (builder: Self)
        requires
            self.wf(),
        ensures
            builder.wf(),
            builder@ == (BuilderView { disconnect_notify_start: notify_delay, ..self@ }),
    {
        let mut settings = self;
        settings.disconnect_notify_start = notify_delay;
        settings
    }

    /// Sets the frames per second at which the game runs.
    ///
    /// # Errors
    /// - `InvalidRequest` if `fps` is 0.
    pub fn with_fps(self, fps: u32) -> (result: Result<Self, GGRSError>)
        requires
            self.wf(),
        ensures
            fps > 0 ==> (result matches Ok(builder) && builder.wf() && builder@ == (BuilderView {
                fps,
                ..self@
            })),
            fps == 0 ==> (result matches Err(GGRSError::InvalidRequest { info }) && info@
                == "FPS should be higher than 0."@),
    {
        if fps == 0 {
            return Err(GGRSError::InvalidRequest { info: "FPS should be higher than 0.".to_owned() });
        }
        let mut settings = self;
        settings.fps = fps;
        Ok(settings)
    }

    /// Makes the session, and with it the endpoint of the connection to the
    /// host, which begins its handshake at once.
    ///
    /// `magic` and `nonce` are random numbers, for the endpoint's magic
    /// number and its first handshake request, and `now` is the time.
    pub fn start_session(self, magic: u16, now: u128, nonce: u32) -> (session: SpectatorSession)
        requires
            self.wf(),
        ensures
            session.wf(),
            session@ == initial_spectator(self@, magic, now, nonce),
    {
        let merged_size = merged_size_of(self.num_players, self.input_size);
        let mut host = UdpProtocol::new(
            Vec::new(),
            self.num_players,
            0,
            merged_size,
            SPECTATOR_MAX_PREDICTION,
            self.disconnect_timeout,
            self.disconnect_notify_start,
            self.fps,
            magic,
            now,
        );
        host.synchronize(now, nonce);
        SpectatorSession::new(
            self.num_players,
            self.input_size,
            host,
            self.max_frames_behind,
            self.catchup_speed,
        )
    }
}

/// The endpoint of a spectator as it begins its handshake.
pub open spec fn initial_host(settings: BuilderView, magic: u16, now: u128, nonce: u32)
    -> EndpointView {
    crate::network::protocol::initial_endpoint(
        Seq::empty(),
        settings.num_players,
        0,
        (settings.num_players * settings.input_size) as u16,
        SPECTATOR_MAX_PREDICTION,
        settings.disconnect_timeout,
        settings.disconnect_notify_start,
        settings.fps,
        magic,
        now,
    ).synchronizing(now, nonce)
}

/// A spectator as it is made: it has received nothing and handed nothing to
/// the game, and waits for the handshake with the host.
pub open spec fn initial_spectator(settings: BuilderView, magic: u16, now: u128, nonce: u32)
    -> SpectatorView {
    new_spectator(
        settings.num_players,
        settings.input_size,
        initial_host(settings, magic, now, nonce),
        settings.max_frames_behind,
        settings.catchup_speed,
    )
}

/// A spectator around the endpoint `host` that has received nothing yet.
pub open spec fn new_spectator(
    num_players: usize,
    input_size: u16,
    host: EndpointView,
    max_frames_behind: u32,
    catchup_speed: u32,
) -> SpectatorView {
    SpectatorView {
        state: SessionState::Synchronizing,
        num_players,
        input_size,
        inputs: Seq::new(
            SPECTATOR_BUFFER_SIZE as nat,
            |i: int|
                InputView {
                    frame: NULL_FRAME as int,
                    bytes: crate::frame_info::zeros((num_players * input_size) as nat),
                },
        ),
        host_connect_status: Seq::new(
            num_players as nat,
            |i: int| ConnectionStatus { disconnected: false, last_frame: NULL_FRAME },
        ),
        host,
        event_queue: Seq::empty(),
        current_frame: NULL_FRAME,
        last_recv_frame: NULL_FRAME,
        max_frames_behind,
        catchup_speed,
    }
}

/// A session that watches a game: it receives the confirmed inputs of all
/// players from the host of the game and hands them on frame by frame.
pub struct SpectatorSession {
    state: SessionState,
    num_players: usize,
    input_size: u16,
    inputs: Vec<PlayerInput>,
    host_connect_status: Vec<ConnectionStatus>,
    host: UdpProtocol,
    event_queue: Vec<GGRSEvent>,
    current_frame: Frame,
    last_recv_frame: Frame,
    max_frames_behind: u32,
    catchup_speed: u32,
}

impl View for SpectatorSession {
    type V = SpectatorView;

    closed spec fn view(&self) -> SpectatorView {
        SpectatorView {
            state: self.state,
            num_players: self.num_players,
            input_size: self.input_size,
            inputs: views(self.inputs@),
            host_connect_status: self.host_connect_status@,
            host: self.host@,
            event_queue: self.event_queue@,
            current_frame: self.current_frame,
            last_recv_frame: self.last_recv_frame,
            max_frames_behind: self.max_frames_behind,
            catchup_speed: self.catchup_speed,
        }
    }
}

/// The view of the outcome of an advance.
pub open spec fn outcome_view(outcome: Result<Vec<GGRSRequest>, GGRSError>) -> Result<
    Seq<RequestView>,
    GGRSError,
> {
    match outcome {
        Ok(requests) => Ok(request_views(requests@)),
        Err(e) => Err(e),
    }
}

impl SpectatorSession {
    /// The session's value is well formed, and so are its endpoint and each
    /// input in its ring.
    pub closed spec fn wf(&self) -> bool {
        &&& self@.inv()
        &&& self.host.wf()
        &&& forall|i: int|
            0 <= i < self.inputs@.len() ==> (#[trigger] self.inputs@[i]).wf() && self.inputs@[i].size
                == self@.merged_size()
    }

    /// The value of a well-formed session has the properties of [`SpectatorView::inv`].
    pub proof fn lemma_wf_inv(&self)
        requires
            self.wf(),
        ensures
            self@.inv(),
    {
    }

    /// A session around the endpoint `host`, which receives the merged
    /// inputs of `num_players` players.
    pub fn new(
        num_players: usize,
        input_size: u16,
        host: UdpProtocol,
        max_frames_behind: u32,
        catchup_speed: u32,
    ) -> (session: Self)
        requires
            num_players * input_size <= u16::MAX,
            host.wf(),
            host@.core.recv_size == num_players * input_size,
            host@.peer_connect_status.len() == num_players,
        ensures
            session.wf(),
            session@ == new_spectator(
                num_players,
                input_size,
                host@,
                max_frames_behind,
                catchup_speed,
            ),
    {
        let merged_size = merged_size_of(num_players, input_size);
        // what the host knows of the players
        let mut host_connect_status: Vec<ConnectionStatus> = Vec::new();
        let mut i: usize = 0;
        while i < num_players
            invariant
                i <= num_players,
                host_connect_status@ == Seq::new(
                    i as nat,
                    |i: int| ConnectionStatus { disconnected: false, last_frame: NULL_FRAME },
                ),
            decreases num_players - i,
        {
            host_connect_status.push(ConnectionStatus::default());
            i += 1;
        }
        let mut inputs: Vec<PlayerInput> = Vec::new();
        let mut j: usize = 0;
        while j < SPECTATOR_BUFFER_SIZE
            invariant
                j <= SPECTATOR_BUFFER_SIZE,
                inputs@.len() == j,
                forall|k: int|
                    0 <= k < j ==> (#[trigger] inputs@[k]).wf() && inputs@[k].size == merged_size
                        && inputs@[k]@ == (InputView {
                        frame: NULL_FRAME as int,
                        bytes: crate::frame_info::zeros(merged_size as nat),
                    }),
            decreases SPECTATOR_BUFFER_SIZE - j,
        {
            inputs.push(PlayerInput::blank_input(merged_size));
            j += 1;
        }
        let session = Self {
            state: SessionState::Synchronizing,
            num_players,
            input_size,
            inputs,
            host_connect_status,
            host,
            event_queue: Vec::new(),
            current_frame: NULL_FRAME,
            last_recv_frame: NULL_FRAME,
            max_frames_behind,
            catchup_speed,
        };
        proof {
            host.lemma_wf_inv();
            let want = new_spectator(
                num_players,
                input_size,
                host@,
                max_frames_behind,
                catchup_speed,
            );
            assert(session@.inputs =~= want.inputs);
            assert(session@.event_queue =~= want.event_queue);
        }
        session
    }

    /// Whether the session still waits for the host or runs.
    pub fn current_state(&self) -> (state: SessionState)
        ensures
            state == self@.state,
    {
        self.state
    }

    /// The number of frames by which the session is behind the host.
    pub fn frames_behind_host(&self) -> (behind: u32)
        requires
            self.wf(),
        ensures
            behind == self@.frames_behind_host(),
    {
        let diff = self.last_recv_frame as i64 - self.current_frame as i64;
        diff as u32
    }

    /// Sets how many frames the session advances at a time while it catches up.
    ///
    /// # Errors
    /// - `InvalidRequest` if the speed is 0, or is not smaller than the
    ///   number of frames that the session may be behind. Nothing changes then.
    pub fn set_catchup_speed(&mut self, desired_catchup_speed: u32) -> (result: Result<
        (),
        GGRSError,
    >)
        requires
            old(self).wf(),
        ensures
            final(self).wf(),
            desired_catchup_speed < 1 ==> final(self)@ == old(self)@ && (result matches Err(
                GGRSError::InvalidRequest { info },
            ) && info@ == "Catchup speed cannot be smaller than 1."@),
            1 <= desired_catchup_speed && desired_catchup_speed >= old(self)@.max_frames_behind
                ==> final(self)@ == old(self)@ && (result matches Err(
                GGRSError::InvalidRequest { info },
            ) && info@
                == "Catchup speed cannot be larger or equal than the allowed maximum frames behind host"@),
            1 <= desired_catchup_speed < old(self)@.max_frames_behind ==> result is Ok
                && final(self)@ == (SpectatorView {
                catchup_speed: desired_catchup_speed,
                ..old(self)@
            }),
    {
        if desired_catchup_speed < 1 {
            return Err(
                GGRSError::InvalidRequest {
                    info: "Catchup speed cannot be smaller than 1.".to_owned(),
                },
            );
        }
        if desired_catchup_speed >= self.max_frames_behind {
            return Err(
                GGRSError::InvalidRequest {
                    info: "Catchup speed cannot be larger or equal than the allowed maximum frames behind host".to_owned(),
                },
            );
        }
        self.catchup_speed = desired_catchup_speed;
        Ok(())
    }

    /// Sets how many frames the session may be behind the host before it catches up.
    ///
    /// # Errors
    /// - `InvalidRequest` if the number is 0, or is not smaller than
    ///   `SPECTATOR_BUFFER_SIZE`. Nothing changes then.
    pub fn set_max_frames_behind(&mut self, desired_value: u32) -> (result: Result<(), GGRSError>)
        requires
            old(self).wf(),
        ensures
            final(self).wf(),
            desired_value < 1 ==> final(self)@ == old(self)@ && (result matches Err(
                GGRSError::InvalidRequest { info },
            ) && info@ == "Max frames behind cannot be smaller than 2."@),
            desired_value >= SPECTATOR_BUFFER_SIZE ==> final(self)@ == old(self)@ && (
            result matches Err(GGRSError::InvalidRequest { info }) && info@
                == "Max frames behind cannot be larger or equal than the Spectator buffer size (60)"@),
            1 <= desired_value < SPECTATOR_BUFFER_SIZE ==> result is Ok && final(self)@ == (
            SpectatorView { max_frames_behind: desired_value, ..old(self)@ }),
    {
        if desired_value < 1 {
            return Err(
                GGRSError::InvalidRequest {
                    info: "Max frames behind cannot be smaller than 2.".to_owned(),
                },
            );
        }
        if desired_value >= SPECTATOR_BUFFER_SIZE as u32 {
            return Err(
                GGRSError::InvalidRequest {
                    info: "Max frames behind cannot be larger or equal than the Spectator buffer size (60)".to_owned(),
                },
            );
        }
        self.max_frames_behind = desired_value;
        Ok(())
    }

    /// The figures on the connection to the host at `now`.
    ///
    /// # Errors
    /// - `NotSynchronized` if the host is gone, or less than a second has
    ///   passed since the handshake began.
    pub fn network_stats(&self, now: u128) -> (stats: Result<NetworkStats, GGRSError>)
        requires
            self.wf(),
        ensures
            match self@.host.stats(now) {
                Some(figures) => stats == Ok::<NetworkStats, GGRSError>(figures),
                None => stats == Err::<NetworkStats, GGRSError>(GGRSError::NotSynchronized),
            },
    {
        self.host.network_stats(now)
    }

    /// Takes the events that have come up since the last call, oldest first.
    pub fn events(&mut self) -> (events: Vec<GGRSEvent>)
        requires
            old(self).wf(),
        ensures
            final(self).wf(),
            events@ == old(self)@.event_queue,
            final(self)@ == (SpectatorView { event_queue: Seq::empty(), ..old(self)@ }),
    {
        let mut events: Vec<GGRSEvent> = Vec::new();
        core::mem::swap(&mut self.event_queue, &mut events);
        events
    }

    /// Takes the messages that wait to be sent to the host, oldest first.
    pub fn send_all_messages(&mut self) -> (messages: Vec<UdpMessage>)
        requires
            old(self).wf(),
        ensures
            final(self).wf(),
            message_views(messages@) == old(self)@.host.send_queue,
            final(self)@ == (SpectatorView {
                host: EndpointView { send_queue: Seq::empty(), ..old(self)@.host },
                ..old(self)@
            }),
    {
        proof {
            self.host.lemma_wf_inv();
        }
        let messages = self.host.send_all_messages();
        proof {
            self.host.lemma_wf_inv();
        }
        messages
    }

    /// The number of players of the game.
    pub fn num_players(&self) -> (count: usize)
        ensures
            count == self@.num_players,
    {
        self.num_players
    }

    /// Keeps an event for the game, and drops the oldest where the queue is full.
    fn notify(&mut self, event: GGRSEvent)
        requires
            old(self).wf(),
        ensures
            final(self).wf(),
            final(self)@ == old(self)@.notified(event),
    {
        self.event_queue.push(event);
        if self.event_queue.len() > MAX_EVENT_QUEUE_SIZE {
            let excess = self.event_queue.len() - MAX_EVENT_QUEUE_SIZE;
            let mut kept = self.event_queue.split_off(excess);
            core::mem::swap(&mut self.event_queue, &mut kept);
            assert(self.event_queue@ =~= latest(
                old(self).event_queue@.push(event),
                MAX_EVENT_QUEUE_SIZE as int,
            ));
        }
    }

    fn handle_event(&mut self, event: Event)
        requires
            old(self).wf(),
        ensures
            final(self).wf(),
            final(self)@ == old(self)@.after_event(event@),
    {
        let player_handle: usize = 0;
        match event {
            // forward to the game
            Event::Synchronizing { total, count } => {
                self.notify(GGRSEvent::Synchronizing { player_handle, total, count });
            },
            Event::NetworkInterrupted { disconnect_timeout } => {
                self.notify(GGRSEvent::NetworkInterrupted { player_handle, disconnect_timeout });
            },
            Event::NetworkResumed => {
                self.notify(GGRSEvent::NetworkResumed { player_handle });
            },
            // synchronized with the host: the session runs
            Event::Synchronized => {
                self.state = SessionState::Running;
                self.notify(GGRSEvent::Synchronized { player_handle });
            },
            Event::Disconnected => {
                self.notify(GGRSEvent::Disconnected { player_handle });
            },
            // keep the input, and what comes with it
            Event::Input(input) => {
                let merged_size = merged_size_of(self.num_players, self.input_size);
                if input.frame <= self.last_recv_frame || input.buffer.len()
                    != merged_size as usize {
                    return ;
                }
                let ghost before = self@;
                let ghost ring = self.inputs@;
                let frame = input.frame;
                let slot = frame as usize % SPECTATOR_BUFFER_SIZE;
                let kept = PlayerInput { frame, size: merged_size, buffer: input.buffer };
                self.inputs.set(slot, kept);
                self.last_recv_frame = frame;
                proof {
                    self.host.lemma_wf_inv();
                    crate::network::protocol::lemma_shape_is_kept(
                        self.host@,
                        arbitrary(),
                        arbitrary(),
                        arbitrary(),
                        frame,
                        arbitrary(),
                        arbitrary(),
                    );
                    assert(views(self.inputs@) =~= before.inputs.update(slot as int, input@));
                    assert forall|i: int| 0 <= i < self.inputs@.len() implies (
                    #[trigger] self.inputs@[i]).wf() && self.inputs@[i].size
                        == before.merged_size() by {
                        if i != slot {
                            assert(self.inputs@[i] == ring[i]);
                        }
                    }
                    assert forall|i: int| 0 <= i < self@.inputs.len() implies (
                    #[trigger] self@.inputs[i]).bytes.len() == before.merged_size()
                        && self@.inputs[i].frame <= frame by {
                        if i != slot {
                            assert(self@.inputs[i] == before.inputs[i]);
                        }
                    }
                }
                // tell the endpoint how far the game has come
                self.host.update_local_frame_advantage(frame);
                proof {
                    self.host.lemma_wf_inv();
                }
                // what the host knows of the players
                let mut i: usize = 0;
                while i < self.num_players
                    invariant
                        i <= self.num_players,
                        self.host.wf(),
                        self.num_players == self.host@.peer_connect_status.len(),
                        self.host_connect_status@.len() == self.num_players,
                        forall|j: int|
                            0 <= j < i ==> self.host_connect_status@[j]
                                == self.host@.peer_connect_status[j],
                        self@ == (SpectatorView {
                            host_connect_status: self.host_connect_status@,
                            inputs: before.inputs.update(slot as int, input@),
                            last_recv_frame: frame,
                            host: before.host.with_local_frame(frame),
                            ..before
                        }),
                        self.wf(),
                    decreases self.num_players - i,
                {
                    let status = self.host.peer_connect_status(i);
                    self.host_connect_status.set(i, status);
                    i += 1;
                }
                assert(self.host_connect_status@ =~= self.host@.peer_connect_status);
            },
        }
    }

    /// Cuts the merged input of `frame_to_grab` into the inputs of the players.
    fn inputs_at_frame(&self, frame_to_grab: Frame) -> (result: Result<Vec<PlayerInput>, GGRSError>)
        requires
            self.wf(),
            frame_to_grab >= 0,
        ensures
            match self@.inputs_at(frame_to_grab as int) {
                Ok(inputs) => result matches Ok(synced) && views(synced@) == inputs,
                Err(e) => result == Err::<Vec<PlayerInput>, GGRSError>(e),
            },
    {
        let merged_input = &self.inputs[frame_to_grab as usize % SPECTATOR_BUFFER_SIZE];
        assert(merged_input@ == self@.inputs[frame_to_grab as int % (SPECTATOR_BUFFER_SIZE
            as int)]);
        assert(merged_input.wf());
        // the input has not arrived yet
        if merged_input.frame < frame_to_grab {
            return Err(GGRSError::PredictionThreshold);
        }
        // the host is more than a ring ahead: the input is gone for good
        if merged_input.frame > frame_to_grab {
            return Err(GGRSError::SpectatorTooFarBehind);
        }
        // split the merged input into an input for each player
        let ghost want = self@.player_inputs(frame_to_grab as int, merged_input@);
        let size = self.input_size as usize;
        let mut synced_inputs: Vec<PlayerInput> = Vec::new();
        let mut i: usize = 0;
        while i < self.num_players
            invariant
                i <= self.num_players,
                self.wf(),
                size == self.input_size,
                merged_input.wf(),
                merged_input.buffer@.len() == self.num_players * self.input_size,
                want == self@.player_inputs(frame_to_grab as int, merged_input@),
                synced_inputs@.len() == i,
                forall|j: int| 0 <= j < i ==> (#[trigger] synced_inputs@[j])@ == want[j],
            decreases self.num_players - i,
        {
            proof {
                assert(i * size + size <= self.num_players * size) by (nonlinear_arith)
                    requires
                        i < self.num_players,
                        size >= 0,
                ;
                assert(0 <= i * size) by (nonlinear_arith)
                    requires
                        i >= 0,
                        size >= 0,
                ;
                assert((i + 1) * size == i * size + size) by (nonlinear_arith);
            }
            let start = i * size;
            let mut input = PlayerInput::new(frame_to_grab, self.input_size);
            let mut k: usize = 0;
            while k < size
                invariant
                    k <= size,
                    size == self.input_size,
                    start + size <= merged_input.buffer@.len() <= u16::MAX,
                    input.frame == frame_to_grab,
                    input.size == self.input_size,
                    input.buffer@.len() == size,
                    forall|m: int|
                        0 <= m < k ==> input.buffer@[m] == merged_input.buffer@[start + m],
                decreases size - k,
            {
                input.buffer.set(k, merged_input.buffer[start + k]);
                k += 1;
            }
            // the input of a player who has left belongs to no frame
            if self.host_connect_status[i].disconnected && self.host_connect_status[i].last_frame
                < frame_to_grab {
                input.frame = NULL_FRAME;
            }
            assert(input.buffer@ =~= want[i as int].bytes);
            synced_inputs.push(input);
            i += 1;
        }
        assert(views(synced_inputs@) =~= want);
        Ok(synced_inputs)
    }

    /// Takes the messages that have arrived from the host, lets the
    /// endpoint do the work that is due at `now`, and handles the events that
    /// come of it. What the endpoint wants to send waits in its queue, for
    /// [`SpectatorSession::send_all_messages`]. `nonce` is a fresh random number.
    pub fn poll_remote_clients(&mut self, messages: &[UdpMessage], now: u128, nonce: u32)
        requires
            old(self).wf(),
        ensures
            final(self).wf(),
            final(self)@ == old(self)@.polled(message_views(messages@), now, nonce),
    {
        let ghost before = self@;
        let ghost all = message_views(messages@);
        // the endpoint handles the messages, which brings up events and replies
        let mut i: usize = 0;
        assert(all.skip(0) =~= all);
        while i < messages.len()
            invariant
                i <= messages.len(),
                self.wf(),
                all == message_views(messages@),
                self@ == (SpectatorView { host: self.host@, ..before }),
                handled_all(before.host, all, now, nonce) == handled_all(
                    self.host@,
                    all.skip(i as int),
                    now,
                    nonce,
                ),
            decreases messages.len() - i,
        {
            proof {
                self.host.lemma_wf_inv();
                crate::network::protocol::lemma_shape_is_kept(
                    self.host@,
                    messages@[i as int]@,
                    arbitrary(),
                    arbitrary(),
                    arbitrary(),
                    now,
                    nonce,
                );
                assert(all.skip(i as int)[0] == messages@[i as int]@);
                assert(all.skip(i as int).skip(1) =~= all.skip(i as int + 1));
            }
            self.host.handle_message(&messages[i], now, nonce);
            proof {
                self.host.lemma_wf_inv();
            }
            i += 1;
        }
        // the endpoint does its work, which brings up more of both
        proof {
            self.host.lemma_wf_inv();
            crate::network::protocol::lemma_shape_is_kept(
                self.host@,
                arbitrary(),
                arbitrary(),
                self.host_connect_status@,
                arbitrary(),
                now,
                nonce,
            );
        }
        let mut events = self.host.poll(self.host_connect_status.as_slice(), now, nonce);
        proof {
            self.host.lemma_wf_inv();
        }
        let ghost target = self@.after_events(crate::network::protocol::event_views(events@));
        // the session handles the events
        while events.len() > 0
            invariant
                self.wf(),
                self@.after_events(crate::network::protocol::event_views(events@)) == target,
            decreases events.len(),
        {
            let ghost waiting = crate::network::protocol::event_views(events@);
            let event = events.remove(0);
            assert(crate::network::protocol::event_views(events@) =~= waiting.skip(1));
            self.handle_event(event);
        }
    }

    /// Hands the game the inputs of the next frame, or of the next frames
    /// where the session has to catch up with the host. Before that it polls
    /// as [`SpectatorSession::poll_remote_clients`] does.
    ///
    /// The requests are in the order of their frames, and the game fulfils
    /// them in that order.
    ///
    /// # Errors
    /// - `NotSynchronized` if the handshake with the host is not complete.
    /// - `PredictionThreshold` if the inputs of a frame have not arrived yet.
    /// - `SpectatorTooFarBehind` if the inputs of a frame have been
    ///   overwritten already.
    ///
    /// After either of the last two the frames before the one in question
    /// count as handed out.
    pub fn advance_frame(&mut self, messages: &[UdpMessage], now: u128, nonce: u32) -> (result:
        Result<Vec<GGRSRequest>, GGRSError>)
        requires
            old(self).wf(),
        ensures
            final(self).wf(),
            ({
                let polled = old(self)@.polled(message_views(messages@), now, nonce);
                if polled.state != SessionState::Running {
                    final(self)@ == polled && result == Err::<Vec<GGRSRequest>, GGRSError>(
                        GGRSError::NotSynchronized,
                    )
                } else {
                    final(self)@ == polled.advanced().0 && outcome_view(result)
                        == polled.advanced().1
                }
            }),
    {
        // hear the host, raise events and answer
        self.poll_remote_clients(messages, now, nonce);
        match self.state {
            SessionState::Running => {},
            _ => {
                return Err(GGRSError::NotSynchronized);
            },
        }
        let ghost polled = self@;
        let frames_to_advance = if self.frames_behind_host() > self.max_frames_behind {
            self.catchup_speed
        } else {
            NORMAL_SPEED
        };
        let mut requests: Vec<GGRSRequest> = Vec::new();
        let mut done: u32 = 0;
        assert(prepended(request_views(requests@), self@.stepped(frames_to_advance as nat))
            == polled.advanced()) by {
            let rest = self@.stepped(frames_to_advance as nat);
            if rest.1 is Ok {
                assert(request_views(requests@) + rest.1->Ok_0 =~= rest.1->Ok_0);
            }
        }
        while done < frames_to_advance
            invariant
                done <= frames_to_advance,
                self.wf(),
                polled == old(self)@.polled(message_views(messages@), now, nonce),
                polled.state == SessionState::Running,
                prepended(
                    request_views(requests@),
                    self@.stepped((frames_to_advance - done) as nat),
                ) == polled.advanced(),
            decreases frames_to_advance - done,
        {
            let ghost before = self@;
            let ghost so_far = request_views(requests@);
            if self.current_frame == i32::MAX {
                assert(before.inputs[(before.current_frame + 1) % (SPECTATOR_BUFFER_SIZE
                    as int)].frame <= i32::MAX);
                return Err(GGRSError::PredictionThreshold);
            }
            // the inputs of the next frame
            let frame_to_grab = self.current_frame + 1;
            let synced_inputs = match self.inputs_at_frame(frame_to_grab) {
                Ok(inputs) => inputs,
                Err(e) => {
                    return Err(e);
                },
            };
            let request = GGRSRequest::AdvanceFrame { inputs: synced_inputs };
            requests.push(request);
            // the frame counts as handed out only now that its inputs were there
            self.current_frame = frame_to_grab;
            done = done + 1;
            proof {
                let next = SpectatorView { current_frame: frame_to_grab, ..before };
                assert(self@ == next);
                let rest = next.stepped((frames_to_advance - done) as nat);
                assert(request_views(requests@) =~= so_far.push(request@));
                if rest.1 is Ok {
                    assert(so_far + (seq![request@] + rest.1->Ok_0) =~= so_far.push(request@)
                        + rest.1->Ok_0);
                }
                assert(before.inputs[frame_to_grab as int % (SPECTATOR_BUFFER_SIZE as int)].frame
                    == frame_to_grab);
            }
        }
        proof {
            assert(request_views(requests@) + Seq::<RequestView>::empty() =~= request_views(
                requests@,
            ));
        }
        Ok(requests)
    }
}

/// The outcome `rest` of an advance, with the requests `requests` before its own.
pub open spec fn prepended(
    requests: Seq<RequestView>,
    rest: (SpectatorView, Result<Seq<RequestView>, GGRSError>),
) -> (SpectatorView, Result<Seq<RequestView>, GGRSError>) {
    (
        rest.0,
        match rest.1 {
            Ok(more) => Ok(requests + more),
            Err(e) => Err(e),
        },
    )
}

/// An advance that succeeds hands out one request for each frame that was
/// due, and changes nothing but the current frame, which is that many frames
/// later. One that fails leaves the current frame short of that.
pub proof fn lemma_stepped(session: SpectatorView, steps: nat)
    requires
        session.inv(),
    ensures
        session.stepped(steps).1 matches Ok(requests) ==> requests.len() == steps
            && session.stepped(steps).0 == (SpectatorView {
            current_frame: (session.current_frame + steps) as Frame,
            ..session
        }) && session.current_frame + steps <= i32::MAX,
        session.stepped(steps).1 is Err ==> session.current_frame <= session.stepped(
            steps,
        ).0.current_frame < session.current_frame + steps,
    decreases steps,
{
    if steps > 0 {
        match session.inputs_at(session.current_frame + 1) {
            Err(e) => {},
            Ok(inputs) => {
                let next = SpectatorView {
                    current_frame: (session.current_frame + 1) as Frame,
                    ..session
                };
                assert(session.inputs[(session.current_frame + 1) % (SPECTATOR_BUFFER_SIZE
                    as int)].frame <= session.last_recv_frame);
                lemma_stepped(next, (steps - 1) as nat);
            },
        }
    }
}

/// A spectator keeps up with a host that is not faster than it catches up.
///
/// If the session was at most `bound` frames behind the host, a bound that
/// is no smaller than `max_frames_behind`, and the inputs of at most
/// `catchup_speed` more frames have arrived since, then after an advance that
/// succeeds the session is again at most `bound` frames behind.
pub proof fn lemma_spectator_keeps_up(session: SpectatorView, delivered: int, bound: int)
    requires
        session.inv(),
        bound >= session.max_frames_behind,
        0 <= delivered <= session.catchup_speed,
        session.frames_behind_host() <= bound + delivered,
        session.advanced().1 is Ok,
    ensures
        session.advanced().0.frames_behind_host() <= bound,
        session.advanced().0.frames_behind_host() == session.frames_behind_host()
            - session.steps_due(),
{
    lemma_stepped(session, session.steps_due());
}

} // verus!
