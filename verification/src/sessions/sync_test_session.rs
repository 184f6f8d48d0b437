//! A session that tests whether a game is deterministic.
//!
//! A sync test runs in one process, without a network. In every frame it
//! makes the game go back a few frames and simulate them again, and compares
//! the checksums of the states that the host saves the second time with
//! those of the first: a game whose states depend on nothing but the inputs
//! gives the same checksums.
use vstd::prelude::*;

use crate::error::GGRSError;
use crate::frame_info::{InputView, PlayerInput};
use crate::input_queue::MAX_PREDICTION_FRAMES;
use crate::network::udp_msg::ConnectionStatus;
use crate::sync_layer::{requests_view, GameState, LayerView, StateView, SyncLayer};
use crate::{request_views, Frame, GGRSRequest, PlayerHandle, RequestView, NULL_FRAME};

verus! {

/// The checksum that was recorded for a frame when its state was saved first.
#[derive(Copy, Clone, Debug, PartialEq, Eq, Structural)]
pub struct ChecksumRecord {
    /// The frame of the state; `NULL_FRAME` for a record that holds none.
    pub frame: Frame,
    pub checksum: Option<u64>,
}

/// The bytes of each of a sequence of buffers.
pub open spec fn byte_views(buffers: Seq<Vec<u8>>) -> Seq<Seq<u8>> {
    Seq::new(buffers.len(), |i: int| buffers[i]@)
}

/// The mathematical value of a [`SyncTestSession`].
pub struct SyncTestView {
    pub num_players: usize,
    pub input_size: u16,
    /// How many frames the game goes back in every frame.
    pub check_distance: u32,
    pub layer: LayerView,
    /// The status of each player as the session hands it to the sync layer:
    /// none has left, and the inputs of each are known up to the current frame.
    pub connect_status: Seq<ConnectionStatus>,
    /// The ring of recorded checksums: the record of frame `f`, while it is
    /// kept, stands at index `f` modulo the length of the ring.
    pub history: Seq<ChecksumRecord>,
}

impl SyncTestView {
    /// What holds of every sync test: its sync layer is that of a session
    /// with the widest prediction window, the ring of records has one place
    /// more than the game goes back, and every player has a status.
    pub open spec fn inv(self) -> bool {
        &&& self.layer.inv()
        &&& self.layer.num_players == self.num_players
        &&& self.layer.input_size == self.input_size
        &&& self.layer.max_prediction == MAX_PREDICTION_FRAMES
        &&& self.check_distance < MAX_PREDICTION_FRAMES
        &&& self.history.len() == self.check_distance + 1
        &&& self.connect_status.len() == self.num_players
    }

    /// The state of `frame` as the host has saved it, if it stands in its cell.
    pub open spec fn state_of(self, frame: int) -> Option<StateView> {
        if frame >= 0 && self.layer.saved_states[self.layer.cell_of(frame)].frame == frame {
            Some(self.layer.saved_states[self.layer.cell_of(frame)])
        } else {
            None
        }
    }

    /// The place of the record of `frame` in the ring.
    pub open spec fn slot_of(self, frame: int) -> int {
        frame % (self.history.len() as int)
    }

    /// The checksum that was recorded for `frame`, if the ring keeps it.
    pub open spec fn recorded(self, frame: int) -> Option<Option<u64>> {
        if self.history[self.slot_of(frame)].frame == frame {
            Some(self.history[self.slot_of(frame)].checksum)
        } else {
            None
        }
    }

    /// Whether the saved state of `frame` agrees with the record of the
    /// frame. A frame without a saved state or without a record agrees.
    pub open spec fn consistent(self, frame: int) -> bool {
        match self.state_of(frame) {
            None => true,
            Some(state) => match self.recorded(frame) {
                None => true,
                Some(checksum) => checksum == state.checksum,
            },
        }
    }

    /// The session after `frame` was checked: the checksum of its saved
    /// state is recorded if the frame had no record.
    pub open spec fn checked(self, frame: int) -> SyncTestView {
        match self.state_of(frame) {
            Some(state) if self.recorded(frame) is None => SyncTestView {
                history: self.history.update(
                    self.slot_of(frame),
                    ChecksumRecord { frame: frame as Frame, checksum: state.checksum },
                ),
                ..self
            },
            _ => self,
        }
    }

    /// The session after the frames from `back` frames before the current
    /// one to `check_distance` frames before it were checked, latest first,
    /// and the first frame that did not agree with its record, if there is one.
    pub open spec fn verified(self, back: nat) -> (SyncTestView, Option<Frame>)
        decreases self.check_distance + 1 - back,
    {
        if back > self.check_distance {
            (self, None)
        } else {
            let frame = self.layer.current_frame - back;
            if !self.consistent(frame) {
                (self, Some(frame as Frame))
            } else {
                self.checked(frame).verified(back + 1)
            }
        }
    }

    /// Whether the session takes `all_inputs` as the inputs of a frame: one
    /// for each player, each of the size of the session.
    pub open spec fn accepts(self, all_inputs: Seq<Seq<u8>>) -> bool {
        all_inputs.len() == self.num_players && forall|i: int|
            0 <= i < all_inputs.len() ==> (#[trigger] all_inputs[i]).len() == self.input_size
    }

    /// The sync layer after the inputs of the players from `player` on were
    /// added for the current frame, and the error of the first that was not taken.
    pub open spec fn fed(layer: LayerView, all_inputs: Seq<Seq<u8>>, player: nat) -> (
        LayerView,
        Option<GGRSError>,
    )
        decreases all_inputs.len() - player,
    {
        if player >= all_inputs.len() {
            (layer, None)
        } else {
            let input = InputView { frame: layer.current_frame as int, bytes: all_inputs[player as int] };
            let (next, outcome) = layer.after_local_input(player as int, input);
            match outcome {
                Err(e) => (next, Some(e)),
                Ok(_) => Self::fed(next, all_inputs, player + 1),
            }
        }
    }

    /// The frame that counts as confirmed once the game is at `current_frame`.
    pub open spec fn safe_frame(self, current_frame: int) -> Frame {
        if current_frame - self.check_distance < NULL_FRAME {
            NULL_FRAME
        } else {
            (current_frame - self.check_distance) as Frame
        }
    }

    /// The session after the frame proper, and its requests: the inputs are
    /// added, the state is saved, the game advances, and the inputs of all
    /// frames but the last `check_distance` count as confirmed.
    pub open spec fn stepped(self, all_inputs: Seq<Seq<u8>>) -> (
        SyncTestView,
        Result<Seq<RequestView>, GGRSError>,
    ) {
        let (fed, refused) = Self::fed(self.layer, all_inputs, 0);
        match refused {
            Some(e) => (SyncTestView { layer: fed, ..self }, Err(e)),
            None => {
                let (moved, outcome) = fed.replayed(1, self.connect_status);
                match outcome {
                    Err(e) => (SyncTestView { layer: moved, ..self }, Err(e)),
                    Ok(requests) => (
                        SyncTestView {
                            layer: moved.confirmed_up_to(
                                self.safe_frame(moved.current_frame as int),
                            ),
                            connect_status: Seq::new(
                                self.connect_status.len(),
                                |i: int|
                                    ConnectionStatus {
                                        disconnected: self.connect_status[i].disconnected,
                                        last_frame: moved.current_frame,
                                    },
                            ),
                            ..self
                        },
                        Ok(requests),
                    ),
                }
            },
        }
    }

    /// The session after a frame, and the requests for the host.
    ///
    /// Once the game is more than `check_distance` frames old, the session
    /// first checks the saved states of the last frames against their
    /// records. If they agree, it makes the game load the state of
    /// `check_distance` frames ago and simulate the frames since then again.
    /// The frame proper follows.
    pub open spec fn advanced(self, all_inputs: Seq<Seq<u8>>) -> (
        SyncTestView,
        Result<Seq<RequestView>, GGRSError>,
    ) {
        if !self.accepts(all_inputs) {
            (self, Err(GGRSError::InvalidInput))
        } else if self.check_distance > 0 && self.layer.current_frame > self.check_distance {
            let (checked, mismatch) = self.verified(0);
            let target = (self.layer.current_frame - self.check_distance) as Frame;
            match mismatch {
                Some(frame) => (checked, Err(GGRSError::MismatchedChecksum { frame })),
                None => if !checked.layer.loadable(target as int) {
                    (checked, Err(GGRSError::GeneralFailure))
                } else {
                    let (replayed, outcome) = checked.layer.rolled_back(target).replayed(
                        self.check_distance as nat,
                        self.connect_status,
                    );
                    let again = SyncTestView { layer: replayed, ..checked };
                    match outcome {
                        Err(e) => (again, Err(e)),
                        Ok(requests) => {
                            let (end, rest) = again.stepped(all_inputs);
                            (
                                end,
                                match rest {
                                    Ok(more) => Ok(
                                        seq![
                                            RequestView::LoadGameState {
                                                cell: self.layer.cell_of(target as int),
                                                frame: target as int,
                                            },
                                        ] + requests + more,
                                    ),
                                    Err(e) => Err(e),
                                },
                            )
                        },
                    }
                },
            }
        } else {
            self.stepped(all_inputs)
        }
    }
}

/// A sync test at the start of a game.
pub open spec fn initial_sync_test(num_players: usize, input_size: u16, check_distance: u32)
    -> SyncTestView {
    SyncTestView {
        num_players,
        input_size,
        check_distance,
        layer: crate::sync_layer::initial_layer(num_players, input_size, MAX_PREDICTION_FRAMES),
        connect_status: Seq::new(
            num_players as nat,
            |i: int| ConnectionStatus { disconnected: false, last_frame: NULL_FRAME },
        ),
        history: Seq::new(
            (check_distance + 1) as nat,
            |i: int| ChecksumRecord { frame: NULL_FRAME, checksum: None },
        ),
    }
}

/// A session that tests whether a game is deterministic.
pub struct SyncTestSession {
    num_players: usize,
    input_size: u16,
    check_distance: u32,
    sync_layer: SyncLayer,
    dummy_connect_status: Vec<ConnectionStatus>,
    checksum_history: Vec<ChecksumRecord>,
}

impl View for SyncTestSession {
    type V = SyncTestView;

    closed spec fn view(&self) -> SyncTestView {
        SyncTestView {
            num_players: self.num_players,
            input_size: self.input_size,
            check_distance: self.check_distance,
            layer: self.sync_layer@,
            connect_status: self.dummy_connect_status@,
            history: self.checksum_history@,
        }
    }
}

impl SyncTestSession {
    /// The session's value is well formed, and so is its sync layer.
    pub closed spec fn wf(&self) -> bool {
        self@.inv() && self.sync_layer.wf()
    }

    /// The value of a well-formed session has the properties of [`SyncTestView::inv`].
    pub proof fn lemma_wf_inv(&self)
        requires
            self.wf(),
        ensures
            self@.inv(),
    {
    }

    /// A session for `num_players` players with inputs of `input_size`
    /// bytes, in which the game goes back `check_distance` frames in every frame.
    ///
    /// # Errors
    /// - `InvalidRequest` if `check_distance` is not below `MAX_PREDICTION_FRAMES`.
    pub fn new(num_players: usize, input_size: u16, check_distance: u32) -> (result: Result<
        Self,
        GGRSError,
    >)
        ensures
            check_distance < MAX_PREDICTION_FRAMES ==> (result matches Ok(session) && session.wf()
                && session@ == initial_sync_test(num_players, input_size, check_distance)),
            check_distance >= MAX_PREDICTION_FRAMES ==> (result matches Err(
                GGRSError::InvalidRequest { info },
            ) && info@ == "Check distance too big."@),
    {
        if check_distance as usize >= MAX_PREDICTION_FRAMES {
            return Err(GGRSError::InvalidRequest { info: "Check distance too big.".to_owned() });
        }
        let mut dummy_connect_status: Vec<ConnectionStatus> = Vec::new();
        let mut i: usize = 0;
        while i < num_players
            invariant
                i <= num_players,
                dummy_connect_status@ == Seq::new(
                    i as nat,
                    |i: int| ConnectionStatus { disconnected: false, last_frame: NULL_FRAME },
                ),
            decreases num_players - i,
        {
            dummy_connect_status.push(ConnectionStatus::default());
            i += 1;
        }
        let mut checksum_history: Vec<ChecksumRecord> = Vec::new();
        let mut k: u32 = 0;
        while k < check_distance + 1
            invariant
                k <= check_distance + 1,
                check_distance < MAX_PREDICTION_FRAMES,
                checksum_history@ == Seq::new(
                    k as nat,
                    |i: int| ChecksumRecord { frame: NULL_FRAME, checksum: None },
                ),
            decreases check_distance + 1 - k,
        {
            checksum_history.push(ChecksumRecord { frame: NULL_FRAME, checksum: None });
            k += 1;
        }
        let sync_layer = SyncLayer::new(num_players, input_size, MAX_PREDICTION_FRAMES);
        proof {
            sync_layer.lemma_wf_inv();
        }
        Ok(
            SyncTestSession {
                num_players,
                input_size,
                check_distance,
                sync_layer,
                dummy_connect_status,
                checksum_history,
            },
        )
    }

    /// The frame that the game is about to simulate.
    pub fn current_frame(&self) -> (frame: Frame)
        ensures
            frame == self@.layer.current_frame,
    {
        self.sync_layer.current_frame()
    }

    /// The number of players.
    pub fn num_players(&self) -> (count: usize)
        ensures
            count == self@.num_players,
    {
        self.num_players
    }

    /// How many frames the game goes back in every frame.
    pub fn check_distance(&self) -> (distance: u32)
        ensures
            distance == self@.check_distance,
    {
        self.check_distance
    }

    /// Sets by how many frames the inputs of a player are delayed.
    ///
    /// # Errors
    /// - `InvalidRequest` if there is no such player or the delay is not
    ///   below `MAX_PREDICTION_FRAMES`. Nothing changes then.
    pub fn set_frame_delay(&mut self, frame_delay: u32, player_handle: PlayerHandle) -> (result:
        Result<(), GGRSError>)
        requires
            old(self).wf(),
        ensures
            final(self).wf(),
            player_handle < old(self)@.num_players && frame_delay < MAX_PREDICTION_FRAMES
                ==> result is Ok && final(self)@ == (SyncTestView {
                layer: LayerView {
                    queues: old(self)@.layer.queues.update(
                        player_handle as int,
                        crate::input_queue::QueueView {
                            frame_delay,
                            ..old(self)@.layer.queues[player_handle as int]
                        },
                    ),
                    ..old(self)@.layer
                },
                ..old(self)@
            }),
            !(player_handle < old(self)@.num_players && frame_delay < MAX_PREDICTION_FRAMES)
                ==> final(self)@ == old(self)@ && (result matches Err(
                GGRSError::InvalidRequest { info },
            ) && info@ == (if player_handle >= old(self)@.num_players {
                "The player handle is invalid."@
            } else {
                "The frame delay has to be smaller than the prediction window."@
            })),
    {
        proof {
            self.sync_layer.lemma_wf_inv();
        }
        let result = self.sync_layer.set_frame_delay(player_handle, frame_delay);
        proof {
            self.sync_layer.lemma_wf_inv();
        }
        result
    }

    /// Puts the state that the host has saved into the cell with this
    /// number. The host does this when it fulfils a request to save.
    ///
    /// # Errors
    /// - `InvalidRequest` if there is no such cell, or the cell is not
    ///   marked for the frame of the state. Nothing changes then.
    pub fn save_game_state(&mut self, cell: usize, state: GameState) -> (result: Result<
        (),
        GGRSError,
    >)
        requires
            old(self).wf(),
        ensures
            final(self).wf(),
            cell < old(self)@.layer.saved_states.len() && old(
                self,
            )@.layer.saved_states[cell as int].frame == state.frame ==> result is Ok
                && final(self)@ == (SyncTestView {
                layer: LayerView {
                    saved_states: old(self)@.layer.saved_states.update(cell as int, state@),
                    ..old(self)@.layer
                },
                ..old(self)@
            }),
            !(cell < old(self)@.layer.saved_states.len() && old(
                self,
            )@.layer.saved_states[cell as int].frame == state.frame) ==> final(self)@ == old(
                self,
            )@ && (result matches Err(GGRSError::InvalidRequest { info }) && info@ == "The cell is not marked for the frame of the state."@),
    {
        proof {
            self.sync_layer.lemma_wf_inv();
        }
        let result = self.sync_layer.save_game_state(cell, state);
        proof {
            self.sync_layer.lemma_wf_inv();
        }
        result
    }

    /// The state in the cell with this number, for the host to load, if
    /// there is such a cell.
    pub fn load_game_state(&self, cell: usize) -> (state: Option<&GameState>)
        requires
            self.wf(),
        ensures
            match state {
                Some(found) => cell < self@.layer.saved_states.len() && found@
                    == self@.layer.saved_states[cell as int],
                None => cell >= self@.layer.saved_states.len(),
            },
    {
        proof {
            self.sync_layer.lemma_wf_inv();
        }
        if cell < MAX_PREDICTION_FRAMES + 2 {
            Some(self.sync_layer.saved_state(cell))
        } else {
            None
        }
    }

    /// Checks the saved state of a frame against the record of the frame,
    /// and records its checksum if the frame has no record.
    fn checksums_consistent(&mut self, frame_to_check: Frame) -> (agree: bool)
        requires
            old(self).wf(),
        ensures
            final(self).wf(),
            agree == old(self)@.consistent(frame_to_check as int),
            agree ==> final(self)@ == old(self)@.checked(frame_to_check as int),
            !agree ==> final(self)@ == old(self)@,
    {
        proof {
            self.sync_layer.lemma_wf_inv();
        }
        let saved = match self.sync_layer.saved_state_by_frame(frame_to_check) {
            Some(state) => state.checksum,
            None => {
                return true;
            },
        };
        let slot = frame_to_check as usize % self.checksum_history.len();
        let record = self.checksum_history[slot];
        if record.frame == frame_to_check {
            match (record.checksum, saved) {
                (Some(first), Some(second)) => first == second,
                (None, None) => true,
                _ => false,
            }
        } else {
            self.checksum_history.set(
                slot,
                ChecksumRecord { frame: frame_to_check, checksum: saved },
            );
            true
        }
    }

    /// Adds the inputs of all players for the current frame.
    fn feed(&mut self, all_inputs: &Vec<Vec<u8>>) -> (refused: Option<GGRSError>)
        requires
            old(self).wf(),
            old(self)@.accepts(byte_views(all_inputs@)),
        ensures
            final(self).wf(),
            final(self)@ == (SyncTestView {
                layer: SyncTestView::fed(old(self)@.layer, byte_views(all_inputs@), 0).0,
                ..old(self)@
            }),
            refused == SyncTestView::fed(old(self)@.layer, byte_views(all_inputs@), 0).1,
    {
        let ghost before = self@;
        let ghost all = byte_views(all_inputs@);
        let frame = self.sync_layer.current_frame();
        let mut i: usize = 0;
        while i < all_inputs.len()
            invariant
                i <= all_inputs.len(),
                self.wf(),
                before == old(self)@,
                all == byte_views(all_inputs@),
                before.accepts(all),
                frame == self@.layer.current_frame,
                self@ == (SyncTestView { layer: self@.layer, ..before }),
                SyncTestView::fed(self@.layer, all, i as nat) == SyncTestView::fed(
                    before.layer,
                    all,
                    0,
                ),
            decreases all_inputs.len() - i,
        {
            let bytes = &all_inputs[i];
            assert(all[i as int] == bytes@);
            // an input of the player for the current frame
            let mut input = PlayerInput::new(frame, self.input_size);
            input.copy_input(bytes.as_slice());
            proof {
                self.sync_layer.lemma_wf_inv();
            }
            let outcome = self.sync_layer.add_local_input(i, input);
            proof {
                self.sync_layer.lemma_wf_inv();
            }
            match outcome {
                Ok(_) => {},
                Err(e) => {
                    return Some(e);
                },
            }
            i += 1;
        }
        None
    }

    /// The frame proper: adds the inputs, saves the state, advances.
    fn step(&mut self, all_inputs: &Vec<Vec<u8>>) -> (result: Result<Vec<GGRSRequest>, GGRSError>)
        requires
            old(self).wf(),
            old(self)@.accepts(byte_views(all_inputs@)),
        ensures
            final(self).wf(),
            final(self)@ == old(self)@.stepped(byte_views(all_inputs@)).0,
            requests_view(result) == old(self)@.stepped(byte_views(all_inputs@)).1,
    {
        let ghost before = self@;
        // pass all inputs into the sync layer
        match self.feed(all_inputs) {
            Some(e) => {
                return Err(e);
            },
            None => {},
        }
        let ghost fed = self@.layer;
        proof {
            self.sync_layer.lemma_wf_inv();
            crate::sync_layer::lemma_replay_keeps_session(fed, 1, self.dummy_connect_status@);
        }
        // save the state, and advance with the inputs of all players
        let requests = match self.sync_layer.replay(1, self.dummy_connect_status.as_slice()) {
            Ok(requests) => requests,
            Err(e) => {
                proof {
                    self.sync_layer.lemma_wf_inv();
                }
                return Err(e);
            },
        };
        proof {
            self.sync_layer.lemma_wf_inv();
        }
        // the inputs of all frames but the last few count as confirmed, so
        // that the sync layer does not wait for any
        let current = self.sync_layer.current_frame();
        let safe_frame = if (current as i64) - (self.check_distance as i64) < NULL_FRAME as i64 {
            NULL_FRAME
        } else {
            current - self.check_distance as i32
        };
        self.sync_layer.set_last_confirmed_frame(safe_frame);
        proof {
            self.sync_layer.lemma_wf_inv();
        }
        let ghost confirmed = self@;
        // and the inputs of all players count as received
        let mut i: usize = 0;
        while i < self.dummy_connect_status.len()
            invariant
                i <= self.dummy_connect_status.len(),
                self.wf(),
                self.dummy_connect_status@.len() == before.connect_status.len(),
                confirmed.connect_status == before.connect_status,
                self@ == (SyncTestView { connect_status: self.dummy_connect_status@, ..confirmed }),
                forall|j: int|
                    0 <= j < i ==> self.dummy_connect_status@[j] == (ConnectionStatus {
                        disconnected: before.connect_status[j].disconnected,
                        last_frame: current,
                    }),
                forall|j: int|
                    i <= j < before.connect_status.len() ==> self.dummy_connect_status@[j]
                        == before.connect_status[j],
            decreases self.dummy_connect_status.len() - i,
        {
            let status = self.dummy_connect_status[i];
            self.dummy_connect_status.set(
                i,
                ConnectionStatus { disconnected: status.disconnected, last_frame: current },
            );
            i += 1;
        }
        assert(self.dummy_connect_status@ =~= before.stepped(
            byte_views(all_inputs@),
        ).0.connect_status);
        Ok(requests)
    }

    /// Advances the game by a frame with the inputs `all_inputs`, one for
    /// each player: returns the requests that the host has to fulfil, in
    /// their order.
    ///
    /// # Errors
    /// - `InvalidInput` if there is not one input for each player, or an
    ///   input has not the size of the session. Nothing changes then.
    /// - `MismatchedChecksum` if the state that the host has saved for a
    ///   frame when it simulated the frame again has another checksum than
    ///   the state it saved first.
    /// - The errors of the sync layer.
    pub fn advance_frame(&mut self, all_inputs: &Vec<Vec<u8>>) -> (result: Result<
        Vec<GGRSRequest>,
        GGRSError,
    >)
        requires
            old(self).wf(),
        ensures
            final(self).wf(),
            final(self)@ == old(self)@.advanced(byte_views(all_inputs@)).0,
            requests_view(result) == old(self)@.advanced(byte_views(all_inputs@)).1,
    {
        let ghost before = self@;
        let ghost all = byte_views(all_inputs@);
        if !self.takes(all_inputs) {
            return Err(GGRSError::InvalidInput);
        }
        let current = self.sync_layer.current_frame();
        if self.check_distance == 0 || current as i64 <= self.check_distance as i64 {
            return self.step(all_inputs);
        }
        // compare the checksums of the last frames with those recorded first
        let mut back: u32 = 0;
        while back <= self.check_distance
            invariant
                back <= self.check_distance + 1,
                self.wf(),
                before == old(self)@,
                before.inv(),
                all == byte_views(all_inputs@),
                before.accepts(all),
                before.check_distance > 0,
                self@.check_distance == before.check_distance,
                self@.num_players == before.num_players,
                self@.input_size == before.input_size,
                self@.connect_status == before.connect_status,
                self@.layer == before.layer,
                current == before.layer.current_frame,
                current > before.check_distance,
                self@.verified(back as nat) == before.verified(0),
            decreases self.check_distance + 1 - back,
        {
            let frame_to_check = current - back as i32;
            if !self.checksums_consistent(frame_to_check) {
                return Err(GGRSError::MismatchedChecksum { frame: frame_to_check });
            }
            back = back + 1;
        }
        let ghost checked = self@;
        assert(before.verified(0) == (checked, None::<Frame>));
        // make the game go back, and simulate the frames since then again
        let target = current - self.check_distance as i32;
        proof {
            self.sync_layer.lemma_wf_inv();
            crate::sync_layer::lemma_replay_keeps_session(
                checked.layer.rolled_back(target),
                self.check_distance as nat,
                self.dummy_connect_status@,
            );
        }
        let load = match self.sync_layer.load_frame(target) {
            Ok(request) => request,
            Err(e) => {
                proof {
                    self.sync_layer.lemma_wf_inv();
                }
                return Err(e);
            },
        };
        proof {
            self.sync_layer.lemma_wf_inv();
        }
        let ghost load_view = load@;
        let mut requests: Vec<GGRSRequest> = Vec::new();
        requests.push(load);
        let mut again = match self.sync_layer.replay(
            self.check_distance,
            self.dummy_connect_status.as_slice(),
        ) {
            Ok(requests) => requests,
            Err(e) => {
                proof {
                    self.sync_layer.lemma_wf_inv();
                }
                return Err(e);
            },
        };
        proof {
            self.sync_layer.lemma_wf_inv();
        }
        let ghost again_view = request_views(again@);
        requests.append(&mut again);
        // the frame proper
        let mut more = match self.step(all_inputs) {
            Ok(requests) => requests,
            Err(e) => {
                return Err(e);
            },
        };
        let ghost more_view = request_views(more@);
        requests.append(&mut more);
        assert(request_views(requests@) =~= seq![load_view] + again_view + more_view);
        Ok(requests)
    }

    /// Whether there is one input for each player, each of the size of the session.
    fn takes(&self, all_inputs: &Vec<Vec<u8>>) -> (taken: bool)
        ensures
            taken == self@.accepts(byte_views(all_inputs@)),
    {
        if all_inputs.len() != self.num_players {
            return false;
        }
        let mut i: usize = 0;
        while i < all_inputs.len()
            invariant
                i <= all_inputs.len(),
                forall|j: int|
                    0 <= j < i ==> (#[trigger] byte_views(all_inputs@)[j]).len() == self.input_size,
            decreases all_inputs.len() - i,
        {
            if all_inputs[i].len() != self.input_size as usize {
                assert(byte_views(all_inputs@)[i as int].len() != self.input_size);
                return false;
            }
            i += 1;
        }
        true
    }
}

/// A session that finds no mismatch has found every frame in agreement:
/// if the check of the last frames ends without a mismatch, the saved state
/// of each of them that has a record has the checksum of its record.
pub proof fn lemma_checked_frames_agree(session: SyncTestView, back: nat)
    requires
        session.inv(),
        session.layer.current_frame >= session.check_distance,
        session.verified(back).1 is None,
    ensures
        forall|i: int|
            back <= i <= session.check_distance ==> #[trigger] session.consistent(
                session.layer.current_frame - i,
            ),
    decreases session.check_distance + 1 - back,
{
    if back <= session.check_distance {
        let frame = session.layer.current_frame - back;
        let next = session.checked(frame);
        lemma_checked_frames_agree(next, back + 1);
        assert forall|i: int| back <= i <= session.check_distance implies #[trigger] session.consistent(
            session.layer.current_frame - i,
        ) by {
            if i > back {
                let other = session.layer.current_frame - i;
                assert(next.consistent(other));
                lemma_slots_differ(other, frame, session.history.len() as int);
            }
        }
    }
}

/// Two frames that are less than `n` frames apart have different places in a ring of `n`.
pub proof fn lemma_slots_differ(a: int, b: int, n: int)
    requires
        0 <= a < b,
        b - a < n,
    ensures
        a % n != b % n,
{
    vstd::arithmetic::div_mod::lemma_fundamental_div_mod(a, n);
    vstd::arithmetic::div_mod::lemma_fundamental_div_mod(b, n);
    if a % n == b % n {
        let q = b / n - a / n;
        assert(b - a == n * q) by (nonlinear_arith)
            requires
                a == n * (a / n) + a % n,
                b == n * (b / n) + b % n,
                a % n == b % n,
                q == b / n - a / n,
        ;
        assert(false) by (nonlinear_arith)
            requires
                0 < n * q < n,
        ;
    }
}

} // verus!
