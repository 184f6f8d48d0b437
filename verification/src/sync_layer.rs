//! The rollback controller.
//!
//! The sync layer keeps the inputs of all players, the ring of saved game
//! states, the current frame and the last confirmed frame. From these it
//! decides what the host has to do for the game to advance: usually save the
//! state and advance one frame with the inputs of all players, predicted where
//! they are not known yet; after a wrong prediction, load the state of the
//! first incorrect frame and replay the frames since then with the inputs
//! that are known by now.
use vstd::prelude::*;

use crate::error::GGRSError;
use crate::frame_info::{views, zeros, InputView, PlayerInput};
use crate::input_queue::{InputQueue, QueueView, MAX_PREDICTION_FRAMES};
use crate::network::udp_msg::ConnectionStatus;
use crate::{request_views, Frame, GGRSRequest, PlayerHandle, RequestView, NULL_FRAME};

verus! {

/// The state of the game at one frame, as the host has saved it: opaque
/// bytes from which the host can restore the game, and a checksum of them.
#[derive(Debug, Clone, PartialEq, Eq)]
pub struct GameState {
    /// The frame of the state; `NULL_FRAME` for a cell that holds none.
    pub frame: Frame,
    pub buffer: Option<Vec<u8>>,
    pub checksum: Option<u64>,
}

/// The mathematical value of a [`GameState`].
pub struct StateView {
    pub frame: Frame,
    pub buffer: Option<Seq<u8>>,
    pub checksum: Option<u64>,
}

impl View for GameState {
    type V = StateView;

    open spec fn view(&self) -> StateView {
        StateView {
            frame: self.frame,
            buffer: match self.buffer {
                Some(bytes) => Some(bytes@),
                None => None,
            },
            checksum: self.checksum,
        }
    }
}

impl GameState {
    /// A cell that holds no state.
    pub fn blank() -> (state: Self)
        ensures
            state@ == blank_state(),
    {
        GameState { frame: NULL_FRAME, buffer: None, checksum: None }
    }
}

/// A cell that holds no state.
pub open spec fn blank_state() -> StateView {
    StateView { frame: NULL_FRAME, buffer: None, checksum: None }
}

/// A cell that is marked for the state of `frame`, which the host has yet to save.
pub open spec fn marked_state(frame: Frame) -> StateView {
    StateView { frame, buffer: None, checksum: None }
}

/// The views of a sequence of states, one for one.
pub open spec fn state_views(states: Seq<GameState>) -> Seq<StateView> {
    Seq::new(states.len(), |i: int| states[i]@)
}

/// The earlier of two frames of which either may be `NULL_FRAME`, which counts as none.
pub open spec fn earlier(a: Frame, b: Frame) -> Frame {
    if a == NULL_FRAME {
        b
    } else if b == NULL_FRAME || a <= b {
        a
    } else {
        b
    }
}

/// The earliest frame that one of the first `count` queues knows to be
/// incorrect; `NULL_FRAME` if none of them knows of such a frame.
pub open spec fn first_incorrect_of(queues: Seq<QueueView>, count: nat) -> Frame
    decreases count,
{
    if count == 0 {
        NULL_FRAME
    } else {
        earlier(
            first_incorrect_of(queues, (count - 1) as nat),
            queues[count - 1].first_incorrect_frame,
        )
    }
}

/// The mathematical value of a [`SyncLayer`].
pub struct LayerView {
    pub num_players: usize,
    pub input_size: u16,
    /// How far the current frame may be ahead of the last confirmed frame.
    pub max_prediction: usize,
    /// The ring of saved states: the state of frame `f`, while it is kept,
    /// stands in the cell `f` modulo the length of the ring.
    pub saved_states: Seq<StateView>,
    /// The last frame for which the inputs of all players are known.
    pub last_confirmed_frame: Frame,
    /// The frame that the game is about to simulate.
    pub current_frame: Frame,
    /// The inputs of the players, one queue each.
    pub queues: Seq<QueueView>,
}

impl LayerView {
    /// What holds of every sync layer: the ring has two cells more than the
    /// prediction window has frames, and every player has a queue for inputs
    /// of the session's size.
    pub open spec fn inv(self) -> bool {
        &&& self.max_prediction <= MAX_PREDICTION_FRAMES
        &&& self.saved_states.len() == self.max_prediction + 2
        &&& self.queues.len() == self.num_players
        &&& forall|i: int|
            0 <= i < self.queues.len() ==> (#[trigger] self.queues[i]).inv()
                && self.queues[i].input_size == self.input_size
        &&& self.current_frame >= 0
        &&& self.last_confirmed_frame >= NULL_FRAME
    }

    /// The cell in which the state of `frame` stands.
    pub open spec fn cell_of(self, frame: int) -> int {
        frame % (self.saved_states.len() as int)
    }

    /// The earliest frame that a queue knows to be incorrect; `NULL_FRAME`
    /// if there is none.
    pub open spec fn first_incorrect(self) -> Frame {
        first_incorrect_of(self.queues, self.queues.len())
    }

    /// How many frames are to be simulated, the current one among them, and
    /// from which frame on the game has to roll back: the earliest incorrect
    /// frame. Without one, nothing is to be simulated again.
    pub open spec fn simulation_check(self) -> (int, Frame) {
        let target = self.first_incorrect();
        if target == NULL_FRAME {
            (0, NULL_FRAME)
        } else {
            (self.current_frame - target + 1, target)
        }
    }

    /// Whether the player has left before `frame`, as far as `connect_status` tells.
    pub open spec fn gone(player: int, frame: int, connect_status: Seq<ConnectionStatus>) -> bool {
        player < connect_status.len() && connect_status[player].disconnected
            && connect_status[player].last_frame < frame
    }

    /// What the queue of a player answers when it is asked for the input of
    /// `frame`, and the queue after that. For a player who has left, the queue
    /// is not asked: the answer is an input of zero bytes that belongs to
    /// no frame.
    pub open spec fn answer(self, player: int, frame: int, connect_status: Seq<ConnectionStatus>)
        -> (QueueView, Result<InputView, GGRSError>) {
        if Self::gone(player, frame, connect_status) {
            (
                self.queues[player],
                Ok(InputView { frame: NULL_FRAME as int, bytes: zeros(self.input_size as nat) }),
            )
        } else {
            self.queues[player].after_input(frame)
        }
    }

    /// The layer after every queue was asked for the input of `frame`.
    pub open spec fn asked(self, frame: int, connect_status: Seq<ConnectionStatus>) -> LayerView {
        LayerView {
            queues: Seq::new(
                self.queues.len(),
                |i: int| self.answer(i, frame, connect_status).0,
            ),
            ..self
        }
    }

    /// The inputs of all players for `frame`, predicted where they are not
    /// known, if every queue gives one.
    pub open spec fn synchronized(self, frame: int, connect_status: Seq<ConnectionStatus>)
        -> Result<Seq<InputView>, GGRSError> {
        if forall|i: int|
            0 <= i < self.queues.len() ==> (#[trigger] self.answer(i, frame, connect_status)).1
                is Ok {
            Ok(
                Seq::new(
                    self.queues.len(),
                    |i: int| self.answer(i, frame, connect_status).1->Ok_0,
                ),
            )
        } else {
            Err(GGRSError::GeneralFailure)
        }
    }

    /// The confirmed inputs of all players for `frame`, if every player who
    /// has not left has one.
    pub open spec fn confirmed(self, frame: int, connect_status: Seq<ConnectionStatus>) -> Option<
        Seq<InputView>,
    > {
        if forall|i: int|
            0 <= i < self.queues.len() ==> Self::gone(i, frame, connect_status)
                || (#[trigger] self.queues[i]).confirmed(frame) is Some {
            Some(
                Seq::new(
                    self.queues.len(),
                    |i: int|
                        if Self::gone(i, frame, connect_status) {
                            InputView {
                                frame: NULL_FRAME as int,
                                bytes: zeros(self.input_size as nat),
                            }
                        } else {
                            InputView { frame, bytes: self.queues[i].confirmed(frame)->Some_0 }
                        },
                ),
            )
        } else {
            None
        }
    }

    /// The layer with the cell of the current frame marked for its state.
    /// A cell that holds a state of the frame already keeps it, until the
    /// host saves the next.
    pub open spec fn saved(self) -> LayerView {
        if self.saved_states[self.cell_of(self.current_frame as int)].frame == self.current_frame {
            self
        } else {
            LayerView {
                saved_states: self.saved_states.update(
                    self.cell_of(self.current_frame as int),
                    marked_state(self.current_frame),
                ),
                ..self
            }
        }
    }

    /// The layer after `count` frames from the current one on, and the
    /// requests for them: for each frame one to save the state and one to
    /// advance with the inputs of all players. A frame for which a queue
    /// gives no input ends the replay, and so does the last frame there is.
    pub open spec fn replayed(self, count: nat, connect_status: Seq<ConnectionStatus>) -> (
        LayerView,
        Result<Seq<RequestView>, GGRSError>,
    )
        decreases count,
    {
        if count == 0 {
            (self, Ok(Seq::empty()))
        } else if self.current_frame == i32::MAX {
            (self, Err(GGRSError::GeneralFailure))
        } else {
            let frame = self.current_frame;
            let saved = self.saved();
            let asked = saved.asked(frame as int, connect_status);
            match saved.synchronized(frame as int, connect_status) {
                Err(e) => (asked, Err(e)),
                Ok(inputs) => {
                    let next = LayerView { current_frame: (frame + 1) as Frame, ..asked };
                    let (end, rest) = next.replayed((count - 1) as nat, connect_status);
                    (
                        end,
                        match rest {
                            Ok(more) => Ok(
                                seq![
                                    RequestView::SaveGameState {
                                        cell: self.cell_of(frame as int),
                                        frame: frame as int,
                                    },
                                    RequestView::AdvanceFrame { inputs },
                                ] + more,
                            ),
                            Err(e) => Err(e),
                        },
                    )
                },
            }
        }
    }

    /// Whether the game can roll back to `frame`: it is a frame before the
    /// current one, and its state stands in its cell.
    pub open spec fn loadable(self, frame: int) -> bool {
        0 <= frame < self.current_frame && self.saved_states[self.cell_of(frame)].frame == frame
    }

    /// The layer as it is when the game has gone back to `frame`: that is
    /// the current frame, the cells of later frames hold nothing, and no queue
    /// predicts or knows of an incorrect frame.
    pub open spec fn rolled_back(self, frame: Frame) -> LayerView {
        LayerView {
            current_frame: frame,
            saved_states: Seq::new(
                self.saved_states.len(),
                |i: int|
                    if self.saved_states[i].frame > frame {
                        blank_state()
                    } else {
                        self.saved_states[i]
                    },
            ),
            queues: Seq::new(self.queues.len(), |i: int| self.queues[i].prediction_reset()),
            ..self
        }
    }

    /// The layer after the game has advanced by a frame, and the requests
    /// that take it there.
    ///
    /// Without an incorrect frame these are the two requests for the current
    /// frame. With one, the first request is to load the state of that frame,
    /// and the requests for all frames from that one to the current one
    /// follow. Where the state of the incorrect frame is not at hand,
    /// nothing can be done.
    pub open spec fn advanced(self, connect_status: Seq<ConnectionStatus>) -> (
        LayerView,
        Result<Seq<RequestView>, GGRSError>,
    ) {
        let target = self.first_incorrect();
        if target == NULL_FRAME {
            self.replayed(1, connect_status)
        } else if !self.loadable(target as int) {
            (self, Err(GGRSError::GeneralFailure))
        } else {
            let (end, rest) = self.rolled_back(target).replayed(
                (self.current_frame - target + 1) as nat,
                connect_status,
            );
            (
                end,
                match rest {
                    Ok(more) => Ok(
                        seq![
                            RequestView::LoadGameState {
                                cell: self.cell_of(target as int),
                                frame: target as int,
                            },
                        ] + more,
                    ),
                    Err(e) => Err(e),
                },
            )
        }
    }

    /// Whether the layer takes a local input: the prediction window has
    /// room, the player exists, and the input is for the current frame.
    pub open spec fn local_input_error(self, player: int, input: InputView) -> Option<GGRSError> {
        if self.current_frame - self.last_confirmed_frame >= self.max_prediction {
            Some(GGRSError::PredictionThreshold)
        } else if player >= self.num_players || input.frame != self.current_frame {
            Some(GGRSError::InvalidInput)
        } else {
            None
        }
    }

    /// The layer after a local input of the player, and the frame at which
    /// the input was stored or the reason why it was not.
    pub open spec fn after_local_input(self, player: int, input: InputView) -> (
        LayerView,
        Result<Frame, GGRSError>,
    ) {
        match self.local_input_error(player, input) {
            Some(e) => (self, Err(e)),
            None => (
                LayerView {
                    queues: self.queues.update(player, self.queues[player].after_add(input).0),
                    ..self
                },
                self.queues[player].after_add(input).1,
            ),
        }
    }

    /// The layer after an input of a remote player, and the frame at which
    /// the input was stored or the reason why it was not.
    pub open spec fn after_remote_input(self, player: int, input: InputView) -> (
        LayerView,
        Result<Frame, GGRSError>,
    ) {
        if player >= self.num_players {
            (self, Err(GGRSError::InvalidInput))
        } else {
            (
                LayerView {
                    queues: self.queues.update(
                        player,
                        self.queues[player].after_add_remote(input).0,
                    ),
                    ..self
                },
                self.queues[player].after_add_remote(input).1,
            )
        }
    }

    /// The frame up to which inputs count as confirmed when the session
    /// knows the inputs of all players up to `frame`: that frame, but no
    /// frame from the first incorrect one on, before the game has rolled back.
    pub open spec fn confirmable(self, frame: Frame) -> Frame {
        let incorrect = self.first_incorrect();
        if incorrect != NULL_FRAME && incorrect <= frame {
            (incorrect - 1) as Frame
        } else {
            frame
        }
    }

    /// The layer after the inputs of all players are known up to `frame`:
    /// the confirmed frame is set, and every queue gives up the inputs before it.
    pub open spec fn confirmed_up_to(self, frame: Frame) -> LayerView {
        let confirmed = self.confirmable(frame);
        LayerView {
            last_confirmed_frame: confirmed,
            queues: Seq::new(
                self.queues.len(),
                |i: int|
                    if confirmed > 0 {
                        self.queues[i].discarded(confirmed - 1)
                    } else {
                        self.queues[i]
                    },
            ),
            ..self
        }
    }
}

/// A sync layer at the start of a game.
pub open spec fn initial_layer(num_players: usize, input_size: u16, max_prediction: usize)
    -> LayerView {
    LayerView {
        num_players,
        input_size,
        max_prediction,
        saved_states: Seq::new((max_prediction + 2) as nat, |i: int| blank_state()),
        last_confirmed_frame: NULL_FRAME,
        current_frame: 0,
        queues: Seq::new(
            num_players as nat,
            |i: int| crate::input_queue::empty_queue(input_size),
        ),
    }
}

/// The rollback controller of a session.
pub struct SyncLayer {
    num_players: usize,
    input_size: u16,
    max_prediction: usize,
    saved_states: Vec<GameState>,
    last_confirmed_frame: Frame,
    current_frame: Frame,
    input_queues: Vec<InputQueue>,
}

/// The values of a sequence of queues, one for one.
pub open spec fn queue_views(queues: Seq<InputQueue>) -> Seq<QueueView> {
    Seq::new(queues.len(), |i: int| queues[i]@)
}

impl View for SyncLayer {
    type V = LayerView;

    closed spec fn view(&self) -> LayerView {
        LayerView {
            num_players: self.num_players,
            input_size: self.input_size,
            max_prediction: self.max_prediction,
            saved_states: state_views(self.saved_states@),
            last_confirmed_frame: self.last_confirmed_frame,
            current_frame: self.current_frame,
            queues: queue_views(self.input_queues@),
        }
    }
}

/// The view of the outcome of an operation that gives requests.
pub open spec fn requests_view(outcome: Result<Vec<GGRSRequest>, GGRSError>) -> Result<
    Seq<RequestView>,
    GGRSError,
> {
    match outcome {
        Ok(requests) => Ok(request_views(requests@)),
        Err(e) => Err(e),
    }
}

/// The view of the outcome of an operation that gives inputs.
pub open spec fn inputs_view(outcome: Result<Vec<PlayerInput>, GGRSError>) -> Result<
    Seq<InputView>,
    GGRSError,
> {
    match outcome {
        Ok(inputs) => Ok(views(inputs@)),
        Err(e) => Err(e),
    }
}

impl SyncLayer {
    /// The layer's value is well formed, and so is each of its queues.
    pub closed spec fn wf(&self) -> bool {
        &&& self@.inv()
        &&& forall|i: int| 0 <= i < self.input_queues@.len() ==> (#[trigger] self.input_queues@[i]).wf()
    }

    /// The value of a well-formed layer has the properties of [`LayerView::inv`].
    pub proof fn lemma_wf_inv(&self)
        requires
            self.wf(),
        ensures
            self@.inv(),
    {
    }

    /// A sync layer for `num_players` players with inputs of `input_size`
    /// bytes, in which the game may run `max_prediction` frames ahead of the
    /// confirmed inputs.
    pub fn new(num_players: usize, input_size: u16, max_prediction: usize) -> (layer: Self)
        requires
            max_prediction <= MAX_PREDICTION_FRAMES,
        ensures
            layer.wf(),
            layer@ == initial_layer(num_players, input_size, max_prediction),
    {
        let mut saved_states: Vec<GameState> = Vec::new();
        let mut i: usize = 0;
        while i < max_prediction + 2
            invariant
                i <= max_prediction + 2,
                max_prediction <= MAX_PREDICTION_FRAMES,
                saved_states@.len() == i,
                forall|j: int| 0 <= j < i ==> (#[trigger] saved_states@[j])@ == blank_state(),
            decreases max_prediction + 2 - i,
        {
            saved_states.push(GameState::blank());
            i += 1;
        }
        let mut input_queues: Vec<InputQueue> = Vec::new();
        let mut k: usize = 0;
        while k < num_players
            invariant
                k <= num_players,
                input_queues@.len() == k,
                forall|j: int|
                    0 <= j < k ==> (#[trigger] input_queues@[j]).wf() && input_queues@[j]@
                        == crate::input_queue::empty_queue(input_size),
            decreases num_players - k,
        {
            input_queues.push(InputQueue::new(input_size));
            k += 1;
        }
        let layer = SyncLayer {
            num_players,
            input_size,
            max_prediction,
            saved_states,
            last_confirmed_frame: NULL_FRAME,
            current_frame: 0,
            input_queues,
        };
        proof {
            let want = initial_layer(num_players, input_size, max_prediction);
            assert(layer@.saved_states =~= want.saved_states);
            assert(layer@.queues =~= want.queues);
            assert forall|i: int| 0 <= i < layer@.queues.len() implies (#[trigger] layer@.queues[i]).inv()
                && layer@.queues[i].input_size == input_size by {
                layer.input_queues@[i].lemma_wf_inv();
            }
        }
        layer
    }

    /// The frame that the game is about to simulate.
    pub fn current_frame(&self) -> (frame: Frame)
        ensures
            frame == self@.current_frame,
    {
        self.current_frame
    }

    /// The last frame for which the inputs of all players are known.
    pub fn last_confirmed_frame(&self) -> (frame: Frame)
        ensures
            frame == self@.last_confirmed_frame,
    {
        self.last_confirmed_frame
    }

    /// The number of players.
    pub fn num_players(&self) -> (count: usize)
        ensures
            count == self@.num_players,
    {
        self.num_players
    }

    /// The state in the cell with this number.
    pub fn saved_state(&self, cell: usize) -> (state: &GameState)
        requires
            self.wf(),
            cell < self@.saved_states.len(),
        ensures
            state@ == self@.saved_states[cell as int],
    {
        &self.saved_states[cell]
    }

    /// The state of `frame`, if it stands in its cell.
    pub fn saved_state_by_frame(&self, frame: Frame) -> (state: Option<&GameState>)
        requires
            self.wf(),
        ensures
            match state {
                Some(found) => frame >= 0 && found@ == self@.saved_states[self@.cell_of(
                    frame as int,
                )] && found@.frame == frame,
                None => frame < 0 || self@.saved_states[self@.cell_of(frame as int)].frame != frame,
            },
    {
        if frame < 0 {
            return None;
        }
        let cell = frame as usize % self.saved_states.len();
        if self.saved_states[cell].frame == frame {
            Some(&self.saved_states[cell])
        } else {
            None
        }
    }

    /// Puts the state that the host has saved into the cell with this
    /// number. The host does this when it fulfils a request to save.
    ///
    /// # Errors
    /// - `InvalidRequest` if there is no such cell, or the cell is not
    ///   marked for the frame of the state. Nothing changes then.
    pub fn save_game_state(&mut self, cell: usize, state: GameState) -> (result: Result<
        (),
        GGRSError,
    >)
        requires
            old(self).wf(),
        ensures
            final(self).wf(),
            cell < old(self)@.saved_states.len() && old(self)@.saved_states[cell as int].frame
                == state.frame ==> result is Ok && final(self)@ == (LayerView {
                saved_states: old(self)@.saved_states.update(cell as int, state@),
                ..old(self)@
            }),
            !(cell < old(self)@.saved_states.len() && old(self)@.saved_states[cell as int].frame
                == state.frame) ==> final(self)@ == old(self)@ && (result matches Err(
                GGRSError::InvalidRequest { info },
            ) && info@ == "The cell is not marked for the frame of the state."@),
    {
        if cell >= self.saved_states.len() || self.saved_states[cell].frame != state.frame {
            return Err(
                GGRSError::InvalidRequest {
                    info: "The cell is not marked for the frame of the state.".to_owned(),
                },
            );
        }
        self.saved_states.set(cell, state);
        assert(state_views(self.saved_states@) =~= old(self)@.saved_states.update(
            cell as int,
            state@,
        ));
        Ok(())
    }

    /// Sets by how many frames the inputs of a local player are delayed.
    ///
    /// # Errors
    /// - `InvalidRequest` if there is no such player or the delay is not
    ///   below `MAX_PREDICTION_FRAMES`. Nothing changes then.
    pub fn set_frame_delay(&mut self, player_handle: PlayerHandle, delay: u32) -> (result: Result<
        (),
        GGRSError,
    >)
        requires
            old(self).wf(),
        ensures
            final(self).wf(),
            player_handle < old(self)@.num_players && delay < MAX_PREDICTION_FRAMES ==> result is Ok
                && final(self)@ == (LayerView {
                queues: old(self)@.queues.update(
                    player_handle as int,
                    QueueView { frame_delay: delay, ..old(self)@.queues[player_handle as int] },
                ),
                ..old(self)@
            }),
            !(player_handle < old(self)@.num_players && delay < MAX_PREDICTION_FRAMES)
                ==> final(self)@ == old(self)@ && (result matches Err(
                GGRSError::InvalidRequest { info },
            ) && info@ == (if player_handle >= old(self)@.num_players {
                "The player handle is invalid."@
            } else {
                "The frame delay has to be smaller than the prediction window."@
            })),
    {
        if player_handle >= self.num_players {
            return Err(
                GGRSError::InvalidRequest { info: "The player handle is invalid.".to_owned() },
            );
        }
        let ghost before = *self;
        let result = self.input_queues[player_handle].set_frame_delay(delay);
        proof {
            Self::lemma_queue_replaced(before, *self, player_handle as int);
            if delay >= MAX_PREDICTION_FRAMES {
                assert(self@.queues =~= before@.queues);
            }
        }
        result
    }

    /// After one queue has changed, the layer is well formed if the queue
    /// is, and its value differs in that queue only.
    proof fn lemma_queue_replaced(before: SyncLayer, after: SyncLayer, player: int)
        requires
            before.wf(),
            0 <= player < before.input_queues@.len(),
            after.num_players == before.num_players,
            after.input_size == before.input_size,
            after.max_prediction == before.max_prediction,
            after.saved_states == before.saved_states,
            after.last_confirmed_frame == before.last_confirmed_frame,
            after.current_frame == before.current_frame,
            after.input_queues@.len() == before.input_queues@.len(),
            forall|i: int|
                0 <= i < before.input_queues@.len() && i != player ==> after.input_queues@[i]
                    == before.input_queues@[i],
            after.input_queues@[player].wf(),
            after.input_queues@[player]@.input_size == before.input_size,
        ensures
            after.wf(),
            after@ == (LayerView {
                queues: before@.queues.update(player, after.input_queues@[player]@),
                ..before@
            }),
    {
        after.input_queues@[player].lemma_wf_inv();
        assert(after@.queues =~= before@.queues.update(player, after.input_queues@[player]@));
        assert forall|i: int| 0 <= i < after@.queues.len() implies (#[trigger] after@.queues[i]).inv()
            && after@.queues[i].input_size == after.input_size by {
            if i != player {
                assert(after@.queues[i] == before@.queues[i]);
            }
        }
        assert forall|i: int| 0 <= i < after.input_queues@.len() implies (
        #[trigger] after.input_queues@[i]).wf() by {
            if i != player {
                assert(after.input_queues@[i] == before.input_queues@[i]);
            }
        }
    }

    /// Forgets the predictions and the incorrect frames of all queues,
    /// after a rollback to `frame`.
    pub fn reset_prediction(&mut self, frame: Frame)
        requires
            old(self).wf(),
        ensures
            final(self).wf(),
            final(self)@ == (LayerView {
                queues: Seq::new(
                    old(self)@.queues.len(),
                    |i: int| old(self)@.queues[i].prediction_reset(),
                ),
                ..old(self)@
            }),
    {
        let ghost before = self@;
        let mut i: usize = 0;
        while i < self.input_queues.len()
            invariant
                i <= self.input_queues.len(),
                self.wf(),
                before == old(self)@,
                self@ == (LayerView { queues: self@.queues, ..before }),
                self@.queues.len() == before.queues.len(),
                forall|j: int| 0 <= j < i ==> self@.queues[j] == before.queues[j].prediction_reset(),
                forall|j: int| i <= j < before.queues.len() ==> self@.queues[j] == before.queues[j],
            decreases self.input_queues.len() - i,
        {
            let ghost earlier = *self;
            self.input_queues[i].reset_prediction(frame);
            proof {
                assert(earlier@.queues[i as int].input_size == earlier.input_size);
                crate::input_queue::lemma_size_is_kept(
                    earlier.input_queues@[i as int]@,
                    arbitrary(),
                    0,
                );
                Self::lemma_queue_replaced(earlier, *self, i as int);
            }
            i += 1;
        }
        assert(self@.queues =~= Seq::new(
            before.queues.len(),
            |i: int| before.queues[i].prediction_reset(),
        ));
    }

    /// How many frames are to be simulated, the current one among them, and
    /// from which frame on the game has to roll back; `(0, NULL_FRAME)` if no
    /// queue knows of an incorrect frame.
    pub fn check_simulation(&self) -> (check: (i64, Frame))
        requires
            self.wf(),
        ensures
            check.0 == self@.simulation_check().0,
            check.1 == self@.simulation_check().1,
    {
        let mut first_incorrect: Frame = NULL_FRAME;
        let mut i: usize = 0;
        while i < self.input_queues.len()
            invariant
                i <= self.input_queues.len(),
                first_incorrect == first_incorrect_of(self@.queues, i as nat),
            decreases self.input_queues.len() - i,
        {
            let incorrect = self.input_queues[i].first_incorrect_frame();
            if first_incorrect == NULL_FRAME || (incorrect != NULL_FRAME && incorrect
                < first_incorrect) {
                first_incorrect = incorrect;
            }
            i += 1;
        }
        if first_incorrect == NULL_FRAME {
            (0, NULL_FRAME)
        } else {
            (self.current_frame as i64 - first_incorrect as i64 + 1, first_incorrect)
        }
    }

    /// Adds the input of a local player for the current frame. The result
    /// is the frame at which the input was stored, which is later than its
    /// own by the frame delay of the player, or `NULL_FRAME` if the input was
    /// left out because that frame has an input already.
    ///
    /// # Errors
    /// - `PredictionThreshold` if the game is as far ahead of the confirmed
    ///   inputs as it may be, or the queue of the player is full.
    /// - `InvalidInput` if there is no such player, or the input is not for
    ///   the current frame or has not the size of the session.
    ///
    /// Nothing changes after an error.
    pub fn add_local_input(&mut self, player_handle: PlayerHandle, input: PlayerInput) -> (result:
        Result<Frame, GGRSError>)
        requires
            old(self).wf(),
        ensures
            final(self).wf(),
            final(self)@ == old(self)@.after_local_input(player_handle as int, input@).0,
            result == old(self)@.after_local_input(player_handle as int, input@).1,
    {
        let frames_ahead = self.current_frame as i64 - self.last_confirmed_frame as i64;
        if frames_ahead >= self.max_prediction as i64 {
            return Err(GGRSError::PredictionThreshold);
        }
        if player_handle >= self.num_players || input.frame != self.current_frame {
            return Err(GGRSError::InvalidInput);
        }
        let ghost before = *self;
        let result = self.input_queues[player_handle].add_input(input);
        proof {
            crate::input_queue::lemma_size_is_kept(
                before.input_queues@[player_handle as int]@,
                input@,
                0,
            );
            Self::lemma_queue_replaced(before, *self, player_handle as int);
        }
        result
    }

    /// Adds the input of a remote player, as it has arrived. The result is
    /// the frame of the input.
    ///
    /// # Errors
    /// - `InvalidInput` if there is no such player, or the input has not the
    ///   size of the session or is not for the frame after the player's latest.
    /// - `PredictionThreshold` if the queue of the player is full.
    ///
    /// Nothing changes after an error.
    pub fn add_remote_input(&mut self, player_handle: PlayerHandle, input: PlayerInput) -> (result:
        Result<Frame, GGRSError>)
        requires
            old(self).wf(),
        ensures
            final(self).wf(),
            final(self)@ == old(self)@.after_remote_input(player_handle as int, input@).0,
            result == old(self)@.after_remote_input(player_handle as int, input@).1,
    {
        if player_handle >= self.num_players {
            return Err(GGRSError::InvalidInput);
        }
        let ghost before = *self;
        let result = self.input_queues[player_handle].add_remote_input(input);
        proof {
            crate::input_queue::lemma_size_is_kept(
                before.input_queues@[player_handle as int]@,
                input@,
                0,
            );
            Self::lemma_queue_replaced(before, *self, player_handle as int);
        }
        result
    }

    /// The inputs of all players for `frame`, one per player: the confirmed
    /// input where the layer has it, a prediction where it has not, and an
    /// input that belongs to no frame for a player who has left before `frame`.
    ///
    /// # Errors
    /// - `GeneralFailure` if a queue gives no input: it knows of an
    ///   incorrect frame, or has discarded `frame`. The other queues have
    ///   been asked all the same.
    pub fn synchronized_inputs(&mut self, frame: Frame, connect_status: &[ConnectionStatus]) -> (result:
        Result<Vec<PlayerInput>, GGRSError>)
        requires
            old(self).wf(),
        ensures
            final(self).wf(),
            final(self)@ == old(self)@.asked(frame as int, connect_status@),
            inputs_view(result) == old(self)@.synchronized(frame as int, connect_status@),
            result matches Ok(inputs) ==> forall|i: int|
                0 <= i < inputs@.len() ==> (#[trigger] inputs@[i]).wf() && inputs@[i].size
                    == old(self)@.input_size,
    {
        let ghost before = self@;
        let mut inputs: Vec<PlayerInput> = Vec::new();
        let mut failed = false;
        let ghost mut culprit: int = 0;
        let mut i: usize = 0;
        while i < self.input_queues.len()
            invariant
                i <= self.input_queues.len(),
                self.wf(),
                before == old(self)@,
                before.inv(),
                self@ == (LayerView { queues: self@.queues, ..before }),
                self@.queues.len() == before.queues.len(),
                forall|j: int|
                    0 <= j < i ==> self@.queues[j] == before.answer(
                        j,
                        frame as int,
                        connect_status@,
                    ).0,
                forall|j: int| i <= j < before.queues.len() ==> self@.queues[j] == before.queues[j],
                failed ==> 0 <= culprit < i && before.answer(
                    culprit,
                    frame as int,
                    connect_status@,
                ).1 is Err,
                !failed ==> forall|j: int|
                    0 <= j < i ==> (#[trigger] before.answer(j, frame as int, connect_status@)).1
                        is Ok,
                !failed ==> inputs@.len() == i,
                !failed ==> forall|j: int|
                    0 <= j < i ==> (#[trigger] inputs@[j]).wf() && inputs@[j].size
                        == before.input_size && inputs@[j]@ == before.answer(
                        j,
                        frame as int,
                        connect_status@,
                    ).1->Ok_0,
            decreases self.input_queues.len() - i,
        {
            let gone = i < connect_status.len() && connect_status[i].disconnected
                && connect_status[i].last_frame < frame;
            if gone {
                // the input of a player who has left belongs to no frame
                if !failed {
                    inputs.push(PlayerInput::blank_input(self.input_size));
                }
            } else {
                let ghost earlier = *self;
                let answer = self.input_queues[i].input(frame);
                proof {
                    assert(earlier@.queues[i as int].input_size == earlier.input_size);
                    crate::input_queue::lemma_size_is_kept(
                        earlier.input_queues@[i as int]@,
                        arbitrary(),
                        frame as int,
                    );
                    Self::lemma_queue_replaced(earlier, *self, i as int);
                }
                match answer {
                    Ok(input) => {
                        if !failed {
                            inputs.push(input);
                        }
                    },
                    Err(_) => {
                        if !failed {
                            proof {
                                culprit = i as int;
                            }
                        }
                        failed = true;
                    },
                }
            }
            i += 1;
        }
        proof {
            assert(self@.queues =~= before.asked(frame as int, connect_status@).queues);
        }
        if failed {
            Err(GGRSError::GeneralFailure)
        } else {
            assert(views(inputs@) =~= before.synchronized(frame as int, connect_status@)->Ok_0);
            Ok(inputs)
        }
    }

    /// The confirmed inputs of all players for `frame`, one per player, with
    /// an input that belongs to no frame for a player who has left before `frame`.
    ///
    /// # Errors
    /// - `InvalidRequest` if the layer lacks the confirmed input of a player
    ///   who has not left.
    pub fn confirmed_inputs(&self, frame: Frame, connect_status: &[ConnectionStatus]) -> (result:
        Result<Vec<PlayerInput>, GGRSError>)
        requires
            self.wf(),
        ensures
            match self@.confirmed(frame as int, connect_status@) {
                Some(confirmed) => result matches Ok(inputs) && views(inputs@) == confirmed
                    && forall|i: int|
                    0 <= i < inputs@.len() ==> (#[trigger] inputs@[i]).wf() && inputs@[i].size
                        == self@.input_size,
                None => result matches Err(GGRSError::InvalidRequest { info }) && info@
                    == "There is no confirmed input for the requested frame."@,
            },
    {
        let ghost layer = self@;
        let mut inputs: Vec<PlayerInput> = Vec::new();
        let mut i: usize = 0;
        while i < self.input_queues.len()
            invariant
                i <= self.input_queues.len(),
                self.wf(),
                layer == self@,
                inputs@.len() == i,
                forall|j: int|
                    0 <= j < i ==> LayerView::gone(j, frame as int, connect_status@)
                        || (#[trigger] layer.queues[j]).confirmed(frame as int) is Some,
                forall|j: int|
                    0 <= j < i ==> (#[trigger] inputs@[j]).wf() && inputs@[j].size == layer.input_size
                        && inputs@[j]@ == (if LayerView::gone(j, frame as int, connect_status@) {
                        InputView { frame: NULL_FRAME as int, bytes: zeros(layer.input_size as nat) }
                    } else {
                        InputView {
                            frame: frame as int,
                            bytes: layer.queues[j].confirmed(frame as int)->Some_0,
                        }
                    }),
            decreases self.input_queues.len() - i,
        {
            let gone = i < connect_status.len() && connect_status[i].disconnected
                && connect_status[i].last_frame < frame;
            if gone {
                inputs.push(PlayerInput::blank_input(self.input_size));
            } else {
                proof {
                    self.input_queues@[i as int].lemma_wf_inv();
                    assert(layer.queues[i as int].inv());
                }
                match self.input_queues[i].confirmed_input(frame) {
                    Ok(input) => {
                        inputs.push(input);
                    },
                    Err(e) => {
                        assert(layer.queues[i as int].confirmed(frame as int) is None);
                        return Err(e);
                    },
                }
            }
            i += 1;
        }
        assert(views(inputs@) =~= layer.confirmed(frame as int, connect_status@)->Some_0);
        Ok(inputs)
    }

    /// The confirmed input of one player for `frame`.
    ///
    /// # Errors
    /// - `InvalidRequest` if there is no such player, or the layer keeps no
    ///   input of the player for that frame.
    pub fn confirmed_input(&self, player_handle: PlayerHandle, frame: Frame) -> (result: Result<
        PlayerInput,
        GGRSError,
    >)
        requires
            self.wf(),
        ensures
            player_handle < self@.num_players && self@.queues[player_handle as int].confirmed(
                frame as int,
            ) is Some ==> (result matches Ok(input) && input.wf() && input.size == self@.input_size
                && input@ == (InputView {
                frame: frame as int,
                bytes: self@.queues[player_handle as int].confirmed(frame as int)->Some_0,
            })),
            !(player_handle < self@.num_players && self@.queues[player_handle as int].confirmed(
                frame as int,
            ) is Some) ==> (result matches Err(GGRSError::InvalidRequest { info }) && info@ == (
            if player_handle >= self@.num_players {
                "The player handle is invalid."@
            } else {
                "There is no confirmed input for the requested frame."@
            })),
    {
        if player_handle >= self.num_players {
            return Err(
                GGRSError::InvalidRequest { info: "The player handle is invalid.".to_owned() },
            );
        }
        proof {
            self.input_queues@[player_handle as int].lemma_wf_inv();
            assert(self@.queues[player_handle as int].input_size == self.input_size);
        }
        self.input_queues[player_handle].confirmed_input(frame)
    }

    /// The frame up to which inputs count as confirmed when the inputs of
    /// all players are known up to `frame`.
    pub fn confirmable_frame(&self, frame: Frame) -> (confirmed: Frame)
        requires
            self.wf(),
            frame >= NULL_FRAME,
        ensures
            confirmed == self@.confirmable(frame),
            confirmed >= NULL_FRAME,
    {
        let incorrect = self.check_simulation().1;
        proof {
            lemma_first_incorrect_is_a_frame(self@.queues, self@.queues.len());
        }
        if incorrect != NULL_FRAME && incorrect <= frame {
            incorrect - 1
        } else {
            frame
        }
    }

    /// Notes that the inputs of all players are known up to `frame`. The
    /// queues give up the inputs before the confirmed frame, of which one is
    /// kept to predict from.
    pub fn set_last_confirmed_frame(&mut self, frame: Frame)
        requires
            old(self).wf(),
            frame >= NULL_FRAME,
        ensures
            final(self).wf(),
            final(self)@ == old(self)@.confirmed_up_to(frame),
    {
        let ghost before = self@;
        // no frame counts as confirmed from the first incorrect one on, before the rollback
        let incorrect = self.check_simulation().1;
        proof {
            lemma_first_incorrect_is_a_frame(before.queues, before.queues.len());
        }
        let confirmed = if incorrect != NULL_FRAME && incorrect <= frame {
            incorrect - 1
        } else {
            frame
        };
        self.last_confirmed_frame = confirmed;
        if confirmed > 0 {
            let mut i: usize = 0;
            while i < self.input_queues.len()
                invariant
                    i <= self.input_queues.len(),
                    self.wf(),
                    confirmed > 0,
                    self@ == (LayerView {
                        queues: self@.queues,
                        last_confirmed_frame: confirmed,
                        ..before
                    }),
                    self@.queues.len() == before.queues.len(),
                    forall|j: int|
                        0 <= j < i ==> self@.queues[j] == before.queues[j].discarded(confirmed - 1),
                    forall|j: int|
                        i <= j < before.queues.len() ==> self@.queues[j] == before.queues[j],
                decreases self.input_queues.len() - i,
            {
                let ghost earlier = *self;
                self.input_queues[i].discard_confirmed_frames(confirmed - 1);
                proof {
                    assert(earlier@.queues[i as int].input_size == earlier.input_size);
                    crate::input_queue::lemma_size_is_kept(
                        earlier.input_queues@[i as int]@,
                        arbitrary(),
                        confirmed - 1,
                    );
                    Self::lemma_queue_replaced(earlier, *self, i as int);
                }
                i += 1;
            }
        }
        assert(self@.queues =~= before.confirmed_up_to(frame).queues);
    }

    /// Marks the cell of the current frame for its state and asks the host to save it.
    pub fn save_current_state(&mut self) -> (request: GGRSRequest)
        requires
            old(self).wf(),
        ensures
            final(self).wf(),
            final(self)@ == old(self)@.saved(),
            request@ == (RequestView::SaveGameState {
                cell: old(self)@.cell_of(old(self)@.current_frame as int),
                frame: old(self)@.current_frame as int,
            }),
    {
        let frame = self.current_frame;
        let cell = frame as usize % self.saved_states.len();
        if self.saved_states[cell].frame != frame {
            self.saved_states.set(cell, GameState { frame, buffer: None, checksum: None });
            assert(state_views(self.saved_states@) =~= old(self)@.saved_states.update(
                cell as int,
                marked_state(frame),
            ));
        }
        GGRSRequest::SaveGameState { cell, frame }
    }

    /// Takes the game back to `frame_to_load` and asks the host to load the
    /// state of that frame.
    ///
    /// # Errors
    /// - `GeneralFailure` if the frame is not before the current one, or its
    ///   state is not at hand. Nothing changes then.
    pub fn load_frame(&mut self, frame_to_load: Frame) -> (result: Result<GGRSRequest, GGRSError>)
        requires
            old(self).wf(),
        ensures
            final(self).wf(),
            old(self)@.loadable(frame_to_load as int) ==> (result matches Ok(request) && request@
                == (RequestView::LoadGameState {
                cell: old(self)@.cell_of(frame_to_load as int),
                frame: frame_to_load as int,
            })) && final(self)@ == old(self)@.rolled_back(frame_to_load),
            !old(self)@.loadable(frame_to_load as int) ==> result == Err::<GGRSRequest, GGRSError>(
                GGRSError::GeneralFailure,
            ) && final(self)@ == old(self)@,
    {
        if frame_to_load < 0 || frame_to_load >= self.current_frame {
            return Err(GGRSError::GeneralFailure);
        }
        let cell = frame_to_load as usize % self.saved_states.len();
        if self.saved_states[cell].frame != frame_to_load {
            return Err(GGRSError::GeneralFailure);
        }
        let ghost before = self@;
        self.current_frame = frame_to_load;
        // the states of later frames are of no use any more
        let mut i: usize = 0;
        while i < self.saved_states.len()
            invariant
                i <= self.saved_states.len(),
                self.wf(),
                self@ == (LayerView {
                    saved_states: self@.saved_states,
                    current_frame: frame_to_load,
                    ..before
                }),
                self@.saved_states.len() == before.saved_states.len(),
                forall|j: int|
                    0 <= j < i ==> self@.saved_states[j] == (if before.saved_states[j].frame
                        > frame_to_load {
                        blank_state()
                    } else {
                        before.saved_states[j]
                    }),
                forall|j: int|
                    i <= j < before.saved_states.len() ==> self@.saved_states[j]
                        == before.saved_states[j],
            decreases self.saved_states.len() - i,
        {
            if self.saved_states[i].frame > frame_to_load {
                let ghost states = self.saved_states@;
                self.saved_states.set(i, GameState::blank());
                assert(state_views(self.saved_states@) =~= state_views(states).update(
                    i as int,
                    blank_state(),
                ));
            }
            i += 1;
        }
        self.reset_prediction(frame_to_load);
        assert(self@.saved_states =~= before.rolled_back(frame_to_load).saved_states);
        Ok(GGRSRequest::LoadGameState { cell, frame: frame_to_load })
    }

    /// Simulates `count` frames from the current one on: returns, for each
    /// frame, the request to save the state and the request to advance with
    /// the inputs of all players.
    ///
    /// # Errors
    /// - `GeneralFailure` if a queue gives no input for a frame, or the game
    ///   is at the last frame there is. The frames before count as simulated.
    pub fn replay(&mut self, count: u32, connect_status: &[ConnectionStatus]) -> (result: Result<
        Vec<GGRSRequest>,
        GGRSError,
    >)
        requires
            old(self).wf(),
        ensures
            final(self).wf(),
            final(self)@ == old(self)@.replayed(count as nat, connect_status@).0,
            requests_view(result) == old(self)@.replayed(count as nat, connect_status@).1,
    {
        let ghost start = self@;
        let mut requests: Vec<GGRSRequest> = Vec::new();
        let mut done: u32 = 0;
        assert(prefixed(request_views(requests@), self@.replayed(count as nat, connect_status@))
            == start.replayed(count as nat, connect_status@)) by {
            let rest = self@.replayed(count as nat, connect_status@);
            if rest.1 is Ok {
                assert(request_views(requests@) + rest.1->Ok_0 =~= rest.1->Ok_0);
            }
        }
        while done < count
            invariant
                done <= count,
                self.wf(),
                start == old(self)@,
                prefixed(
                    request_views(requests@),
                    self@.replayed((count - done) as nat, connect_status@),
                ) == start.replayed(count as nat, connect_status@),
            decreases count - done,
        {
            let ghost before = self@;
            let ghost so_far = request_views(requests@);
            if self.current_frame == i32::MAX {
                return Err(GGRSError::GeneralFailure);
            }
            let frame = self.current_frame;
            let save = self.save_current_state();
            let inputs = match self.synchronized_inputs(frame, connect_status) {
                Ok(inputs) => inputs,
                Err(e) => {
                    return Err(e);
                },
            };
            let advance = GGRSRequest::AdvanceFrame { inputs };
            let ghost save_view = save@;
            let ghost advance_view = advance@;
            requests.push(save);
            requests.push(advance);
            self.current_frame = frame + 1;
            done = done + 1;
            proof {
                let next = LayerView {
                    current_frame: (frame + 1) as Frame,
                    ..before.saved().asked(frame as int, connect_status@)
                };
                assert(self@ == next);
                let rest = next.replayed((count - done) as nat, connect_status@);
                assert(request_views(requests@) =~= so_far.push(save_view).push(advance_view));
                if rest.1 is Ok {
                    assert(so_far + (seq![save_view, advance_view] + rest.1->Ok_0)
                        =~= so_far.push(save_view).push(advance_view) + rest.1->Ok_0);
                }
            }
        }
        proof {
            assert(request_views(requests@) + Seq::<RequestView>::empty() =~= request_views(
                requests@,
            ));
        }
        Ok(requests)
    }

    /// Advances the game by a frame: returns the requests that the host has
    /// to fulfil, in their order, for the game to be one frame further.
    ///
    /// Where a queue knows of an incorrect frame, the requests take the game
    /// back to that frame first and replay the frames since then.
    ///
    /// # Errors
    /// - `GeneralFailure` if the state of the incorrect frame is not at
    ///   hand, a queue gives no input for a frame, or the game is at the last
    ///   frame there is.
    pub fn advance_frame(&mut self, connect_status: &[ConnectionStatus]) -> (result: Result<
        Vec<GGRSRequest>,
        GGRSError,
    >)
        requires
            old(self).wf(),
        ensures
            final(self).wf(),
            final(self)@ == old(self)@.advanced(connect_status@).0,
            requests_view(result) == old(self)@.advanced(connect_status@).1,
    {
        let (count, target) = self.check_simulation();
        if target == NULL_FRAME {
            return self.replay(1, connect_status);
        }
        // a prediction was wrong: go back to where it was made
        let load = match self.load_frame(target) {
            Ok(request) => request,
            Err(e) => {
                return Err(e);
            },
        };
        let ghost load_view = load@;
        let mut requests: Vec<GGRSRequest> = Vec::new();
        requests.push(load);
        // and simulate again up to the current frame, and this frame
        let mut replayed = match self.replay(count as u32, connect_status) {
            Ok(requests) => requests,
            Err(e) => {
                return Err(e);
            },
        };
        let ghost more = request_views(replayed@);
        requests.append(&mut replayed);
        assert(request_views(requests@) =~= seq![load_view] + more);
        Ok(requests)
    }
}

/// The outcome `rest` of a replay, with the requests `requests` before its own.
pub open spec fn prefixed(
    requests: Seq<RequestView>,
    rest: (LayerView, Result<Seq<RequestView>, GGRSError>),
) -> (LayerView, Result<Seq<RequestView>, GGRSError>) {
    (
        rest.0,
        match rest.1 {
            Ok(more) => Ok(requests + more),
            Err(e) => Err(e),
        },
    )
}

/// The earliest incorrect frame is the incorrect frame of one of the queues.
pub proof fn lemma_first_incorrect_is_a_frame(queues: Seq<QueueView>, count: nat)
    requires
        count <= queues.len(),
        forall|i: int| 0 <= i < queues.len() ==> (#[trigger] queues[i]).inv(),
    ensures
        first_incorrect_of(queues, count) >= NULL_FRAME,
        first_incorrect_of(queues, count) != NULL_FRAME ==> exists|i: int|
            0 <= i < count && (#[trigger] queues[i]).first_incorrect_frame == first_incorrect_of(
                queues,
                count,
            ),
        forall|i: int|
            0 <= i < count && (#[trigger] queues[i]).first_incorrect_frame != NULL_FRAME
                ==> NULL_FRAME < first_incorrect_of(queues, count)
                <= queues[i].first_incorrect_frame,
    decreases count,
{
    if count > 0 {
        lemma_first_incorrect_is_a_frame(queues, (count - 1) as nat);
        assert(queues[count - 1].inv());
    }
}

/// No queue knows of an incorrect frame.
pub open spec fn quiet(queues: Seq<QueueView>) -> bool {
    forall|i: int| 0 <= i < queues.len() ==> (#[trigger] queues[i]).first_incorrect_frame == NULL_FRAME
}

/// Where the inputs of all players are confirmed, none is predicted: the
/// inputs that the layer hands out for such a frame are the confirmed ones,
/// and asking for them changes nothing.
pub proof fn lemma_confirmed_is_handed_out(
    layer: LayerView,
    frame: int,
    connect_status: Seq<ConnectionStatus>,
)
    requires
        layer.inv(),
        quiet(layer.queues),
        layer.confirmed(frame, connect_status) is Some,
    ensures
        layer.synchronized(frame, connect_status) == Ok::<Seq<InputView>, GGRSError>(
            layer.confirmed(frame, connect_status)->Some_0,
        ),
        layer.asked(frame, connect_status) == layer,
{
    let confirmed = layer.confirmed(frame, connect_status)->Some_0;
    assert forall|i: int| 0 <= i < layer.queues.len() implies #[trigger] layer.answer(
        i,
        frame,
        connect_status,
    ) == (layer.queues[i], Ok::<InputView, GGRSError>(confirmed[i])) by {
        if !LayerView::gone(i, frame, connect_status) {
            assert(layer.queues[i].confirmed(frame) is Some);
            assert(layer.queues[i].first_incorrect_frame == NULL_FRAME);
        }
    }
    assert(layer.synchronized(frame, connect_status)->Ok_0 =~= confirmed);
    assert(layer.asked(frame, connect_status).queues =~= layer.queues);
}

/// A replay of frames whose inputs are all confirmed hands out those
/// inputs, frame by frame.
///
/// Let no queue know of an incorrect frame, and let the inputs of all
/// players be confirmed for each of the `count` frames from the current one
/// on, but maybe the last. Then the replay succeeds with two requests for
/// each frame, to save the state and to advance, and the inputs in the
/// request to advance are the confirmed inputs of the frame, for each frame
/// but the last. The current frame is `count` frames later.
pub proof fn lemma_replay_hands_out_confirmed(
    layer: LayerView,
    count: nat,
    connect_status: Seq<ConnectionStatus>,
)
    requires
        layer.inv(),
        quiet(layer.queues),
        count >= 1,
        layer.current_frame + count - 1 < i32::MAX,
        forall|f: int|
            layer.current_frame <= f < layer.current_frame + count - 1 ==> (#[trigger] layer.confirmed(
                f,
                connect_status,
            )) is Some,
        forall|i: int|
            0 <= i < layer.queues.len() && !LayerView::gone(
                i,
                layer.current_frame + count - 1,
                connect_status,
            ) ==> (#[trigger] layer.queues[i]).first_frame <= layer.current_frame + count - 1,
    ensures
        layer.replayed(count, connect_status).1 is Ok,
        layer.replayed(count, connect_status).1->Ok_0.len() == 2 * count,
        layer.replayed(count, connect_status).0.current_frame == layer.current_frame + count,
        forall|k: int|
            0 <= k < count ==> (#[trigger] layer.replayed(count, connect_status).1->Ok_0[2 * k])
                == (RequestView::SaveGameState {
                cell: layer.cell_of(layer.current_frame + k),
                frame: layer.current_frame + k,
            }),
        forall|k: int|
            0 <= k < count - 1 ==> (#[trigger] layer.replayed(count, connect_status).1->Ok_0[2 * k
                + 1]) == (RequestView::AdvanceFrame {
                inputs: layer.confirmed(layer.current_frame + k, connect_status)->Some_0,
            }),
        layer.replayed(count, connect_status).1->Ok_0[2 * count - 1] is AdvanceFrame,
    decreases count,
{
    let frame = layer.current_frame as int;
    let saved = layer.saved();
    assert(saved.queues == layer.queues);
    if count == 1 {
        // the last frame: an input is handed out for it, confirmed or predicted
        assert forall|i: int| 0 <= i < saved.queues.len() implies (#[trigger] saved.answer(
            i,
            frame,
            connect_status,
        )).1 is Ok by {
            if !LayerView::gone(i, frame, connect_status) {
                assert(saved.queues[i].first_frame <= frame);
                assert(saved.queues[i].first_incorrect_frame == NULL_FRAME);
            }
        }
        let inputs = saved.synchronized(frame, connect_status)->Ok_0;
        let next = LayerView {
            current_frame: (frame + 1) as Frame,
            ..saved.asked(frame, connect_status)
        };
        assert(next.replayed(0, connect_status) == (next, Ok::<Seq<RequestView>, GGRSError>(Seq::empty())));
        let requests = layer.replayed(count, connect_status).1->Ok_0;
        assert(requests =~= seq![
            RequestView::SaveGameState { cell: layer.cell_of(frame), frame },
            RequestView::AdvanceFrame { inputs },
        ]);
    } else {
        assert(layer.confirmed(frame, connect_status) is Some);
        assert(saved.confirmed(frame, connect_status) is Some);
        assert(saved.confirmed(frame, connect_status)->Some_0 =~= layer.confirmed(
            frame,
            connect_status,
        )->Some_0);
        lemma_confirmed_is_handed_out(saved, frame, connect_status);
        let inputs = layer.confirmed(frame, connect_status)->Some_0;
        let next = LayerView { current_frame: (frame + 1) as Frame, ..saved };
        assert(next.queues == layer.queues);
        assert forall|f: int| next.current_frame <= f < next.current_frame + (count - 1)
            - 1 implies (#[trigger] next.confirmed(f, connect_status)) is Some by {
            assert(layer.confirmed(f, connect_status) is Some);
        }
        lemma_replay_hands_out_confirmed(next, (count - 1) as nat, connect_status);
        let rest = next.replayed((count - 1) as nat, connect_status).1->Ok_0;
        let requests = layer.replayed(count, connect_status).1->Ok_0;
        let head = seq![
            RequestView::SaveGameState { cell: layer.cell_of(frame), frame },
            RequestView::AdvanceFrame { inputs },
        ];
        assert(requests =~= head + rest);
        assert(next.saved_states.len() == layer.saved_states.len());
        assert forall|k: int| 0 <= k < count implies (#[trigger] requests[2 * k]) == (
        RequestView::SaveGameState {
            cell: layer.cell_of(layer.current_frame + k),
            frame: layer.current_frame + k,
        }) by {
            if k > 0 {
                assert(requests[2 * k] == rest[2 * (k - 1)]);
            }
        }
        assert forall|k: int| 0 <= k < count - 1 implies (#[trigger] requests[2 * k + 1]) == (
        RequestView::AdvanceFrame {
            inputs: layer.confirmed(layer.current_frame + k, connect_status)->Some_0,
        }) by {
            if k > 0 {
                assert(requests[2 * k + 1] == rest[2 * (k - 1) + 1]);
                assert(next.confirmed(next.current_frame + (k - 1), connect_status)->Some_0
                    =~= layer.confirmed(layer.current_frame + k, connect_status)->Some_0);
            }
        }
        assert(requests[2 * count - 1] == rest[2 * (count - 1) - 1]);
    }
}

/// Rollback recovers.
///
/// Let a queue know of an incorrect frame, let the state of the earliest
/// such frame be at hand, and let the inputs of all players be confirmed for
/// every frame from that one up to the current one. Then the game advances
/// as it would have with perfect foresight: the requests are to load the
/// state of the incorrect frame, and then for each frame from that one to the
/// current one to save the state and to advance; the inputs in the requests
/// for the frames before the current one are the confirmed inputs of those
/// frames; and the current frame ends one frame later than it was.
pub proof fn lemma_rollback_recovers(layer: LayerView, connect_status: Seq<ConnectionStatus>)
    requires
        layer.inv(),
        layer.current_frame < i32::MAX,
        layer.first_incorrect() != NULL_FRAME,
        layer.loadable(layer.first_incorrect() as int),
        forall|f: int|
            layer.first_incorrect() <= f < layer.current_frame ==> (#[trigger] layer.confirmed(
                f,
                connect_status,
            )) is Some,
    ensures
        layer.advanced(connect_status).1 is Ok,
        layer.advanced(connect_status).0.current_frame == layer.current_frame + 1,
        layer.advanced(connect_status).1->Ok_0.len() == 1 + 2 * (layer.current_frame
            - layer.first_incorrect() + 1),
        layer.advanced(connect_status).1->Ok_0[0] == (RequestView::LoadGameState {
            cell: layer.cell_of(layer.first_incorrect() as int),
            frame: layer.first_incorrect() as int,
        }),
        forall|f: int|
            layer.first_incorrect() <= f <= layer.current_frame ==> (#[trigger] layer.advanced(
                connect_status,
            ).1->Ok_0[1 + 2 * (f - layer.first_incorrect())]) == (RequestView::SaveGameState {
                cell: layer.cell_of(f),
                frame: f,
            }),
        forall|f: int|
            layer.first_incorrect() <= f < layer.current_frame ==> (#[trigger] layer.advanced(
                connect_status,
            ).1->Ok_0[2 + 2 * (f - layer.first_incorrect())]) == (RequestView::AdvanceFrame {
                inputs: layer.confirmed(f, connect_status)->Some_0,
            }),
{
    let target = layer.first_incorrect();
    let count = (layer.current_frame - target + 1) as nat;
    let back = layer.rolled_back(target);
    assert(back.inv()) by {
        assert forall|i: int| 0 <= i < back.queues.len() implies (#[trigger] back.queues[i]).inv()
            && back.queues[i].input_size == back.input_size by {
            assert(layer.queues[i].inv());
        }
    }
    assert(quiet(back.queues));
    assert forall|f: int| target <= f < layer.current_frame implies (#[trigger] back.confirmed(
        f,
        connect_status,
    )) is Some && back.confirmed(f, connect_status)->Some_0 =~= layer.confirmed(
        f,
        connect_status,
    )->Some_0 by {
        assert(layer.confirmed(f, connect_status) is Some);
        assert forall|i: int| 0 <= i < back.queues.len() implies LayerView::gone(
            i,
            f,
            connect_status,
        ) || (#[trigger] back.queues[i]).confirmed(f) is Some by {
            assert(LayerView::gone(i, f, connect_status) || layer.queues[i].confirmed(f) is Some);
        }
    }
    assert forall|i: int|
        0 <= i < back.queues.len() && !LayerView::gone(
            i,
            layer.current_frame as int,
            connect_status,
        ) implies (#[trigger] back.queues[i]).first_frame <= layer.current_frame by {
        assert(layer.confirmed(target as int, connect_status) is Some);
        assert(LayerView::gone(i, target as int, connect_status) || layer.queues[i].confirmed(
            target as int,
        ) is Some);
    }
    lemma_replay_hands_out_confirmed(back, count, connect_status);
    let rest = back.replayed(count, connect_status).1->Ok_0;
    let requests = layer.advanced(connect_status).1->Ok_0;
    assert(requests =~= seq![
        RequestView::LoadGameState { cell: layer.cell_of(target as int), frame: target as int },
    ] + rest);
    assert(back.saved_states.len() == layer.saved_states.len());
    assert forall|f: int| target <= f <= layer.current_frame implies (#[trigger] requests[1 + 2 * (f
        - target)]) == (RequestView::SaveGameState { cell: layer.cell_of(f), frame: f }) by {
        assert(requests[1 + 2 * (f - target)] == rest[2 * (f - target)]);
    }
    assert forall|f: int| target <= f < layer.current_frame implies (#[trigger] requests[2 + 2 * (f
        - target)]) == (RequestView::AdvanceFrame {
        inputs: layer.confirmed(f, connect_status)->Some_0,
    }) by {
        assert(requests[2 + 2 * (f - target)] == rest[2 * (f - target) + 1]);
        assert(back.confirmed(back.current_frame + (f - target), connect_status)->Some_0
            =~= layer.confirmed(f, connect_status)->Some_0);
    }
}

/// Two layers are for the same players, the same inputs and the same window.
pub open spec fn same_session(before: LayerView, after: LayerView) -> bool {
    &&& after.num_players == before.num_players
    &&& after.input_size == before.input_size
    &&& after.max_prediction == before.max_prediction
    &&& after.last_confirmed_frame == before.last_confirmed_frame
}

/// A replay changes neither the players nor the inputs nor the window, and
/// does not take the game back.
pub proof fn lemma_replay_keeps_session(
    layer: LayerView,
    count: nat,
    connect_status: Seq<ConnectionStatus>,
)
    ensures
        same_session(layer, layer.replayed(count, connect_status).0),
        layer.replayed(count, connect_status).0.current_frame >= layer.current_frame,
    decreases count,
{
    if count > 0 && layer.current_frame != i32::MAX {
        let frame = layer.current_frame;
        let saved = layer.saved();
        let asked = saved.asked(frame as int, connect_status);
        if saved.synchronized(frame as int, connect_status) is Ok {
            let next = LayerView { current_frame: (frame + 1) as Frame, ..asked };
            lemma_replay_keeps_session(next, (count - 1) as nat, connect_status);
        }
    }
}

/// An advance changes neither the players nor the inputs nor the window.
pub proof fn lemma_advance_keeps_session(layer: LayerView, connect_status: Seq<ConnectionStatus>)
    ensures
        same_session(layer, layer.advanced(connect_status).0),
{
    let target = layer.first_incorrect();
    if target == NULL_FRAME {
        lemma_replay_keeps_session(layer, 1, connect_status);
    } else if layer.loadable(target as int) {
        lemma_replay_keeps_session(
            layer.rolled_back(target),
            (layer.current_frame - target + 1) as nat,
            connect_status,
        );
    }
}

} // verus!
