//! The inputs of one player, frame by frame.
//!
//! A queue keeps the confirmed inputs of a player as a run of consecutive
//! frames. It answers the question "what is the input at frame `f`" with the
//! confirmed input if it has one, and with a prediction otherwise: a copy of
//! the last confirmed input. When an input arrives for a frame for which a
//! prediction was handed out, and differs from it, the queue remembers that
//! frame as the first incorrect one.
use std::collections::VecDeque;
use vstd::prelude::*;

use crate::error::GGRSError;
use crate::frame_info::{zeros, InputView, PlayerInput};
use crate::{Frame, NULL_FRAME};

verus! {

/// The most inputs that a queue keeps.
pub const INPUT_QUEUE_LENGTH: usize = 128;

/// How many frames a session may run ahead of the confirmed inputs, at most.
pub const MAX_PREDICTION_FRAMES: usize = 8;

/// The mathematical value of an [`InputQueue`].
pub struct QueueView {
    /// The number of bytes of an input.
    pub input_size: u16,
    /// The oldest frame that the queue keeps; 0 while it is empty.
    pub first_frame: Frame,
    /// The bytes of the inputs that the queue keeps, for the frames from
    /// `first_frame` on.
    pub inputs: Seq<Seq<u8>>,
    /// The frame of the last input that the user has added, before the delay.
    pub last_user_added_frame: Frame,
    /// The first frame for which an input has arrived that differs from the
    /// prediction handed out for it; `NULL_FRAME` if there is none.
    pub first_incorrect_frame: Frame,
    /// The last frame for which a prediction was handed out.
    pub last_requested_frame: Frame,
    /// By how many frames the inputs of the user are delayed.
    pub frame_delay: u32,
    /// The bytes that are handed out as prediction while one is active.
    pub prediction: Seq<u8>,
    pub prediction_is_active: bool,
}

impl QueueView {
    /// The frame of the latest input; `NULL_FRAME` while the queue is empty.
    pub open spec fn last_added_frame(self) -> int {
        self.first_frame + self.inputs.len() - 1
    }

    /// What holds of every queue: it keeps a bounded run of inputs of one
    /// size, and is empty only if nothing was ever added.
    pub open spec fn inv(self) -> bool {
        &&& self.first_frame >= 0
        &&& self.inputs.len() == 0 ==> self.first_frame == 0
        &&& self.inputs.len() <= INPUT_QUEUE_LENGTH
        &&& self.last_added_frame() <= i32::MAX
        &&& forall|i: int|
            0 <= i < self.inputs.len() ==> (#[trigger] self.inputs[i]).len() == self.input_size
        &&& self.prediction.len() == self.input_size
        &&& self.last_user_added_frame >= NULL_FRAME
        &&& self.first_incorrect_frame >= NULL_FRAME
        &&& self.last_requested_frame >= NULL_FRAME
        &&& self.frame_delay < MAX_PREDICTION_FRAMES
    }

    /// The confirmed input of `frame`, if the queue keeps it.
    pub open spec fn confirmed(self, frame: int) -> Option<Seq<u8>> {
        if self.first_frame <= frame <= self.last_added_frame() {
            Some(self.inputs[frame - self.first_frame])
        } else {
            None
        }
    }

    /// The queue with one more input, for the frame after the latest.
    ///
    /// If a prediction was handed out for that frame and the input differs
    /// from it, and no earlier frame is known to be incorrect, that frame is
    /// the first incorrect one.
    pub open spec fn stored(self, bytes: Seq<u8>) -> QueueView {
        let frame = self.last_added_frame() + 1;
        QueueView {
            inputs: self.inputs.push(bytes),
            first_incorrect_frame: if self.first_incorrect_frame == NULL_FRAME
                && self.prediction_is_active && frame <= self.last_requested_frame && bytes
                != self.prediction {
                frame as Frame
            } else {
                self.first_incorrect_frame
            },
            ..self
        }
    }

    /// The queue with `count` more inputs whose bytes are all zero.
    pub open spec fn filled(self, count: nat) -> QueueView
        decreases count,
    {
        if count == 0 {
            self
        } else {
            self.stored(zeros(self.input_size as nat)).filled((count - 1) as nat)
        }
    }

    /// Whether the queue takes `input` as it comes from a peer: it has the
    /// size of the queue and is for the frame after the latest.
    pub open spec fn takes_remote(self, input: InputView) -> bool {
        input.bytes.len() == self.input_size && input.frame == self.last_added_frame() + 1
    }

    /// Whether the queue takes `input` from the user: it has the size of the
    /// queue, is for the frame after the last that the user has added, or
    /// for any frame if the user has added none, and its frame with the delay
    /// is a frame.
    pub open spec fn takes_local(self, input: InputView) -> bool {
        &&& input.bytes.len() == self.input_size
        &&& input.frame >= 0
        &&& self.last_user_added_frame == NULL_FRAME || input.frame == self.last_user_added_frame
            + 1
        &&& input.frame + self.frame_delay <= i32::MAX
    }

    /// The queue after an input of a peer, and the frame at which it was
    /// stored or the reason why it was not.
    pub open spec fn after_add_remote(self, input: InputView) -> (QueueView, Result<Frame, GGRSError>) {
        if !self.takes_remote(input) {
            (self, Err(GGRSError::InvalidInput))
        } else if self.inputs.len() >= INPUT_QUEUE_LENGTH {
            (self, Err(GGRSError::PredictionThreshold))
        } else {
            (self.stored(input.bytes), Ok(input.frame as Frame))
        }
    }

    /// The queue after an input of the user, and the frame at which it was
    /// stored or the reason why it was not.
    ///
    /// The input is stored `frame_delay` frames after its own frame, and the
    /// frames between the latest input and that frame get inputs of zero
    /// bytes. Where the delay has shrunk and the frame is taken already, the
    /// input is left out and the result is `NULL_FRAME`.
    pub open spec fn after_add(self, input: InputView) -> (QueueView, Result<Frame, GGRSError>) {
        let target = input.frame + self.frame_delay;
        let gap = target - self.last_added_frame() - 1;
        if !self.takes_local(input) {
            (self, Err(GGRSError::InvalidInput))
        } else if gap < 0 {
            (QueueView { last_user_added_frame: input.frame as Frame, ..self }, Ok(NULL_FRAME))
        } else if self.inputs.len() + gap >= INPUT_QUEUE_LENGTH {
            (self, Err(GGRSError::PredictionThreshold))
        } else {
            (
                QueueView {
                    last_user_added_frame: input.frame as Frame,
                    ..self.filled(gap as nat).stored(input.bytes)
                },
                Ok(target as Frame),
            )
        }
    }

    /// What a prediction is made from: the latest input, or zero bytes while
    /// there is none.
    pub open spec fn prediction_source(self) -> Seq<u8> {
        if self.inputs.len() == 0 {
            zeros(self.input_size as nat)
        } else {
            self.inputs.last()
        }
    }

    /// The bytes that the queue hands out for frames after the latest: the
    /// prediction that is active, or else the one that would be made now.
    pub open spec fn predicted(self) -> Seq<u8> {
        if self.prediction_is_active {
            self.prediction
        } else {
            self.prediction_source()
        }
    }

    /// The queue after it was asked for the input of `frame`, and the answer.
    ///
    /// No input is handed out while a frame is known to be incorrect, nor for
    /// a frame that the queue keeps no longer. For a frame up to the latest,
    /// the answer is the confirmed input. For a later frame it is the
    /// prediction, stamped with the frame; the first such request since the
    /// last reset fixes the prediction.
    pub open spec fn after_input(self, frame: int) -> (QueueView, Result<InputView, GGRSError>) {
        if self.first_incorrect_frame != NULL_FRAME || frame < self.first_frame {
            (self, Err(GGRSError::GeneralFailure))
        } else if frame <= self.last_added_frame() {
            (self, Ok(InputView { frame, bytes: self.inputs[frame - self.first_frame] }))
        } else {
            (
                QueueView {
                    prediction: self.predicted(),
                    prediction_is_active: true,
                    last_requested_frame: if frame > self.last_requested_frame {
                        frame as Frame
                    } else {
                        self.last_requested_frame
                    },
                    ..self
                },
                Ok(InputView { frame, bytes: self.predicted() }),
            )
        }
    }

    /// How many of its oldest inputs the queue gives up when the frames up
    /// to `frame` are discarded. The latest input always stays, as the source
    /// of predictions.
    pub open spec fn discard_count(self, frame: int) -> int {
        if self.inputs.len() == 0 || frame < self.first_frame {
            0
        } else if frame >= self.last_added_frame() {
            self.inputs.len() - 1
        } else {
            frame - self.first_frame + 1
        }
    }

    /// The queue without the inputs of the frames up to `frame`.
    pub open spec fn discarded(self, frame: int) -> QueueView {
        let count = self.discard_count(frame);
        QueueView {
            first_frame: (self.first_frame + count) as Frame,
            inputs: self.inputs.skip(count),
            ..self
        }
    }

    /// The queue after a rollback: no prediction is active and no frame
    /// counts as incorrect.
    pub open spec fn prediction_reset(self) -> QueueView {
        QueueView {
            prediction_is_active: false,
            first_incorrect_frame: NULL_FRAME,
            last_requested_frame: NULL_FRAME,
            ..self
        }
    }
}

/// An empty queue for inputs of `input_size` bytes.
pub open spec fn empty_queue(input_size: u16) -> QueueView {
    QueueView {
        input_size,
        first_frame: 0,
        inputs: Seq::empty(),
        last_user_added_frame: NULL_FRAME,
        first_incorrect_frame: NULL_FRAME,
        last_requested_frame: NULL_FRAME,
        frame_delay: 0,
        prediction: zeros(input_size as nat),
        prediction_is_active: false,
    }
}

/// The inputs of one player.
pub struct InputQueue {
    input_size: u16,
    first_frame: Frame,
    inputs: VecDeque<PlayerInput>,
    last_user_added_frame: Frame,
    first_incorrect_frame: Frame,
    last_requested_frame: Frame,
    frame_delay: u32,
    prediction: PlayerInput,
    prediction_is_active: bool,
}

impl View for InputQueue {
    type V = QueueView;

    closed spec fn view(&self) -> QueueView {
        QueueView {
            input_size: self.input_size,
            first_frame: self.first_frame,
            inputs: Seq::new(self.inputs@.len(), |i: int| self.inputs@[i].buffer@),
            last_user_added_frame: self.last_user_added_frame,
            first_incorrect_frame: self.first_incorrect_frame,
            last_requested_frame: self.last_requested_frame,
            frame_delay: self.frame_delay,
            prediction: self.prediction.buffer@,
            prediction_is_active: self.prediction_is_active,
        }
    }
}

impl InputQueue {
    /// The queue's value is well formed, and every input it keeps has its
    /// frame and its size.
    pub closed spec fn wf(&self) -> bool {
        &&& self@.inv()
        &&& self.prediction.wf()
        &&& self.prediction.size == self.input_size
        &&& forall|i: int|
            0 <= i < self.inputs@.len() ==> (#[trigger] self.inputs@[i]).wf() && self.inputs@[i].size
                == self.input_size && self.inputs@[i].frame == self.first_frame + i
    }

    /// The value of a well-formed queue has the properties of [`QueueView::inv`].
    pub proof fn lemma_wf_inv(&self)
        requires
            self.wf(),
        ensures
            self@.inv(),
    {
    }

    /// An empty queue for inputs of `input_size` bytes.
    pub fn new(input_size: u16) -> (queue: Self)
        ensures
            queue.wf(),
            queue@ == empty_queue(input_size),
    {
        let queue = InputQueue {
            input_size,
            first_frame: 0,
            inputs: VecDeque::new(),
            last_user_added_frame: NULL_FRAME,
            first_incorrect_frame: NULL_FRAME,
            last_requested_frame: NULL_FRAME,
            frame_delay: 0,
            prediction: PlayerInput::blank_input(input_size),
            prediction_is_active: false,
        };
        assert(queue@.inputs =~= Seq::empty());
        queue
    }

    /// The first frame for which an input has arrived that differs from the
    /// prediction handed out for it; `NULL_FRAME` if there is none.
    pub fn first_incorrect_frame(&self) -> (frame: Frame)
        ensures
            frame == self@.first_incorrect_frame,
    {
        self.first_incorrect_frame
    }

    /// The frame of the latest input; `NULL_FRAME` while the queue is empty.
    pub fn last_added_frame(&self) -> (frame: Frame)
        requires
            self.wf(),
        ensures
            frame == self@.last_added_frame(),
    {
        (self.first_frame as i64 + self.inputs.len() as i64 - 1) as Frame
    }

    /// By how many frames the inputs of the user are delayed.
    pub fn frame_delay(&self) -> (delay: u32)
        ensures
            delay == self@.frame_delay,
    {
        self.frame_delay
    }

    /// Sets by how many frames the inputs of the user are delayed.
    ///
    /// # Errors
    /// - `InvalidRequest` if the delay is not below `MAX_PREDICTION_FRAMES`.
    ///   Nothing changes then.
    pub fn set_frame_delay(&mut self, delay: u32) -> (result: Result<(), GGRSError>)
        requires
            old(self).wf(),
        ensures
            final(self).wf(),
            delay < MAX_PREDICTION_FRAMES ==> result is Ok && final(self)@ == (QueueView {
                frame_delay: delay,
                ..old(self)@
            }),
            delay >= MAX_PREDICTION_FRAMES ==> final(self)@ == old(self)@ && (result matches Err(
                GGRSError::InvalidRequest { info },
            ) && info@ == "The frame delay has to be smaller than the prediction window."@),
    {
        if delay as usize >= MAX_PREDICTION_FRAMES {
            return Err(
                GGRSError::InvalidRequest {
                    info: "The frame delay has to be smaller than the prediction window.".to_owned(),
                },
            );
        }
        self.frame_delay = delay;
        Ok(())
    }

    /// Forgets the prediction and the incorrect frame, after a rollback to `frame`.
    pub fn reset_prediction(&mut self, frame: Frame)
        requires
            old(self).wf(),
        ensures
            final(self).wf(),
            final(self)@ == old(self)@.prediction_reset(),
    {
        self.prediction_is_active = false;
        self.first_incorrect_frame = NULL_FRAME;
        self.last_requested_frame = NULL_FRAME;
    }

    /// The confirmed input of `requested_frame`.
    ///
    /// # Errors
    /// - `InvalidRequest` if the queue keeps no input of that frame: the
    ///   frame is later than the latest input, or was discarded.
    pub fn confirmed_input(&self, requested_frame: Frame) -> (result: Result<
        PlayerInput,
        GGRSError,
    >)
        requires
            self.wf(),
        ensures
            match self@.confirmed(requested_frame as int) {
                Some(bytes) => result matches Ok(input) && input.wf() && input.size
                    == self@.input_size && input@ == (InputView {
                    frame: requested_frame as int,
                    bytes,
                }),
                None => result matches Err(GGRSError::InvalidRequest { info }) && info@
                    == "There is no confirmed input for the requested frame."@,
            },
    {
        if requested_frame < self.first_frame || requested_frame as i64 > self.first_frame as i64
            + self.inputs.len() as i64 - 1 {
            return Err(
                GGRSError::InvalidRequest {
                    info: "There is no confirmed input for the requested frame.".to_owned(),
                },
            );
        }
        let index = (requested_frame - self.first_frame) as usize;
        assert(self.inputs@[index as int].wf());
        Ok(self.inputs[index].duplicate())
    }

    /// Gives up the inputs of the frames up to `frame`, but for the latest input.
    pub fn discard_confirmed_frames(&mut self, frame: Frame)
        requires
            old(self).wf(),
        ensures
            final(self).wf(),
            final(self)@ == old(self)@.discarded(frame as int),
    {
        let ghost before = self@;
        let ghost kept = self.inputs@;
        if self.inputs.len() == 0 || frame < self.first_frame {
            assert(before.inputs.skip(0) =~= before.inputs);
            return ;
        }
        let last = self.last_added_frame();
        let count: usize = if frame >= last {
            self.inputs.len() - 1
        } else {
            (frame - self.first_frame) as usize + 1
        };
        let mut rest = self.inputs.split_off(count);
        core::mem::swap(&mut self.inputs, &mut rest);
        self.first_frame = self.first_frame + count as i32;
        proof {
            assert(self.inputs@ =~= kept.skip(count as int));
            assert(self@.inputs =~= before.inputs.skip(count as int));
            assert forall|i: int| 0 <= i < self.inputs@.len() implies (
            #[trigger] self.inputs@[i]).wf() && self.inputs@[i].size == self.input_size
                && self.inputs@[i].frame == self.first_frame + i by {
                assert(kept[count + i].wf());
            }
            assert forall|i: int| 0 <= i < self@.inputs.len() implies (
            #[trigger] self@.inputs[i]).len() == self.input_size by {
                assert(before.inputs[count + i].len() == self.input_size);
            }
        }
    }

    /// Keeps one more input, for the frame after the latest.
    fn store(&mut self, input: PlayerInput)
        requires
            old(self).wf(),
            input.wf(),
            input.size == old(self)@.input_size,
            old(self)@.inputs.len() < INPUT_QUEUE_LENGTH,
            old(self)@.last_added_frame() < i32::MAX,
        ensures
            final(self).wf(),
            final(self)@ == old(self)@.stored(input.buffer@),
    {
        let ghost before = self@;
        let ghost kept = self.inputs@;
        let frame = self.last_added_frame() + 1;
        // an input for a frame that was predicted shows whether the prediction was right
        if self.first_incorrect_frame == NULL_FRAME && self.prediction_is_active && frame
            <= self.last_requested_frame && !self.prediction.equal(&input, true) {
            self.first_incorrect_frame = frame;
        }
        let stamped = PlayerInput { frame, size: input.size, buffer: input.buffer };
        self.inputs.push_back(stamped);
        proof {
            assert(self@.inputs =~= before.inputs.push(input.buffer@));
            assert forall|i: int| 0 <= i < self.inputs@.len() implies (
            #[trigger] self.inputs@[i]).wf() && self.inputs@[i].size == self.input_size
                && self.inputs@[i].frame == self.first_frame + i by {
                if i < kept.len() {
                    assert(self.inputs@[i] == kept[i]);
                }
            }
            assert forall|i: int| 0 <= i < self@.inputs.len() implies (
            #[trigger] self@.inputs[i]).len() == self.input_size by {
                if i < before.inputs.len() {
                    assert(self@.inputs[i] == before.inputs[i]);
                }
            }
        }
    }

    /// Adds an input as it comes from a peer, who has delayed it already.
    /// The result is the frame of the input.
    ///
    /// # Errors
    /// - `InvalidInput` if the input has not the size of the queue or is not
    ///   for the frame after the latest input.
    /// - `PredictionThreshold` if the queue is full.
    ///
    /// Nothing changes after an error.
    pub fn add_remote_input(&mut self, input: PlayerInput) -> (result: Result<Frame, GGRSError>)
        requires
            old(self).wf(),
        ensures
            final(self).wf(),
            final(self)@ == old(self)@.after_add_remote(input@).0,
            result == old(self)@.after_add_remote(input@).1,
    {
        if input.buffer.len() != self.input_size as usize || input.frame as i64
            != self.first_frame as i64 + self.inputs.len() as i64 {
            return Err(GGRSError::InvalidInput);
        }
        if self.inputs.len() >= INPUT_QUEUE_LENGTH {
            return Err(GGRSError::PredictionThreshold);
        }
        let frame = input.frame;
        self.store(PlayerInput { frame, size: self.input_size, buffer: input.buffer });
        Ok(frame)
    }

    /// Adds an input of the user. The result is the frame at which the input
    /// was stored, which is `frame_delay` frames after its own, or
    /// `NULL_FRAME` if it was left out because that frame has an input already.
    ///
    /// # Errors
    /// - `InvalidInput` if the input has not the size of the queue, is not for
    ///   the frame after the last that the user has added, or is delayed past
    ///   the last frame.
    /// - `PredictionThreshold` if the queue has no room for it.
    ///
    /// Nothing changes after an error.
    pub fn add_input(&mut self, input: PlayerInput) -> (result: Result<Frame, GGRSError>)
        requires
            old(self).wf(),
        ensures
            final(self).wf(),
            final(self)@ == old(self)@.after_add(input@).0,
            result == old(self)@.after_add(input@).1,
    {
        let ghost before = self@;
        let target = input.frame as i64 + self.frame_delay as i64;
        if input.buffer.len() != self.input_size as usize || input.frame < 0 || (
        self.last_user_added_frame != NULL_FRAME && input.frame as i64
            != self.last_user_added_frame as i64 + 1) || target > i32::MAX as i64 {
            return Err(GGRSError::InvalidInput);
        }
        let last = self.last_added_frame();
        let gap = target - last as i64 - 1;
        if gap < 0 {
            // the delay has shrunk: the frame has an input already
            self.last_user_added_frame = input.frame;
            return Ok(NULL_FRAME);
        }
        if self.inputs.len() as i64 + gap >= INPUT_QUEUE_LENGTH as i64 {
            return Err(GGRSError::PredictionThreshold);
        }
        // the frames up to the delayed frame get inputs of zero bytes
        let mut filled: i64 = 0;
        while filled < gap
            invariant
                0 <= filled <= gap,
                self.wf(),
                gap == target - before.last_added_frame() - 1,
                target <= i32::MAX,
                before.inputs.len() + gap < INPUT_QUEUE_LENGTH,
                self@.inputs.len() == before.inputs.len() + filled,
                self@.first_frame == before.first_frame,
                self@.input_size == before.input_size,
                self@.last_user_added_frame == before.last_user_added_frame,
                self@.filled((gap - filled) as nat) == before.filled(gap as nat),
            decreases gap - filled,
        {
            self.store(PlayerInput::new(NULL_FRAME, self.input_size));
            filled = filled + 1;
        }
        let frame = input.frame;
        self.store(PlayerInput { frame, size: self.input_size, buffer: input.buffer });
        self.last_user_added_frame = frame;
        Ok(target as Frame)
    }

    /// The input of `requested_frame`: the confirmed input if the queue has
    /// one, and a prediction otherwise.
    ///
    /// # Errors
    /// - `GeneralFailure` if a frame is known to be incorrect, so that the
    ///   game has to roll back first, or if the frame was discarded.
    pub fn input(&mut self, requested_frame: Frame) -> (result: Result<PlayerInput, GGRSError>)
        requires
            old(self).wf(),
        ensures
            final(self).wf(),
            final(self)@ == old(self)@.after_input(requested_frame as int).0,
            match old(self)@.after_input(requested_frame as int).1 {
                Ok(view) => result matches Ok(input) && input.wf() && input.size
                    == old(self)@.input_size && input@ == view,
                Err(e) => result == Err::<PlayerInput, GGRSError>(e),
            },
    {
        if self.first_incorrect_frame != NULL_FRAME || requested_frame < self.first_frame {
            return Err(GGRSError::GeneralFailure);
        }
        let last = self.last_added_frame();
        if requested_frame <= last {
            let index = (requested_frame - self.first_frame) as usize;
            assert(self.inputs@[index as int].wf());
            return Ok(self.inputs[index].duplicate());
        }
        // no input of that frame is known yet: predict that the player goes on as before
        if !self.prediction_is_active {
            if self.inputs.len() == 0 {
                self.prediction = PlayerInput::blank_input(self.input_size);
            } else {
                assert(self.inputs@[self.inputs@.len() - 1].wf());
                self.prediction = self.inputs[self.inputs.len() - 1].duplicate();
            }
            self.prediction_is_active = true;
        }
        if requested_frame > self.last_requested_frame {
            self.last_requested_frame = requested_frame;
        }
        let mut predicted = self.prediction.duplicate();
        predicted.frame = requested_frame;
        Ok(predicted)
    }
}

/// A confirmed input does not change: whatever happens to a queue between
/// two times at which it has the confirmed input of a frame, the bytes of that
/// input are the same.
pub proof fn lemma_confirmed_inputs_stay(queue: QueueView, frame: int, input: InputView, other: int)
    requires
        queue.inv(),
        queue.confirmed(frame) is Some,
    ensures
        kept_or_gone(queue, queue.after_add(input).0, frame),
        kept_or_gone(queue, queue.after_add_remote(input).0, frame),
        kept_or_gone(queue, queue.after_input(other).0, frame),
        kept_or_gone(queue, queue.discarded(other), frame),
        kept_or_gone(queue, queue.prediction_reset(), frame),
{
    let gap = input.frame + queue.frame_delay - queue.last_added_frame() - 1;
    if gap >= 0 {
        lemma_filled(queue, gap as nat);
    }
}

/// The confirmed input of `frame` is the same in both queues, unless the
/// second has none.
pub open spec fn kept_or_gone(before: QueueView, after: QueueView, frame: int) -> bool {
    after.confirmed(frame) is Some ==> after.confirmed(frame) == before.confirmed(frame)
}

/// Filling a queue adds inputs behind those it has and changes nothing else
/// but the first incorrect frame.
pub proof fn lemma_filled(queue: QueueView, count: nat)
    ensures
        queue.filled(count).inputs.len() == queue.inputs.len() + count,
        queue.filled(count).inputs.take(queue.inputs.len() as int) == queue.inputs,
        queue.filled(count) == (QueueView {
            inputs: queue.filled(count).inputs,
            first_incorrect_frame: queue.filled(count).first_incorrect_frame,
            ..queue
        }),
    decreases count,
{
    if count > 0 {
        let next = queue.stored(zeros(queue.input_size as nat));
        lemma_filled(next, (count - 1) as nat);
        assert(queue.filled(count).inputs.take(queue.inputs.len() as int) =~= next.filled(
            (count - 1) as nat,
        ).inputs.take(next.inputs.len() as int).take(queue.inputs.len() as int));
        assert(next.inputs.take(queue.inputs.len() as int) =~= queue.inputs);
    } else {
        assert(queue.inputs.take(queue.inputs.len() as int) =~= queue.inputs);
    }
}

/// A prediction stays as it is until it is reset: once a prediction is
/// active, whatever is added to the queue, asked of it or discarded from it,
/// the prediction is still active and has the same bytes, so every input that
/// the queue hands out for a frame after the latest holds those bytes.
pub proof fn lemma_prediction_stays(queue: QueueView, input: InputView, frame: int)
    requires
        queue.prediction_is_active,
    ensures
        same_prediction(queue, queue.after_add(input).0),
        same_prediction(queue, queue.after_add_remote(input).0),
        same_prediction(queue, queue.after_input(frame).0),
        same_prediction(queue, queue.discarded(frame)),
        frame > queue.last_added_frame() ==> (queue.after_input(frame).1 matches Ok(handed)
            ==> handed == (InputView { frame, bytes: queue.prediction })),
{
    let gap = input.frame + queue.frame_delay - queue.last_added_frame() - 1;
    if gap >= 0 {
        lemma_filled(queue, gap as nat);
    }
}

/// The prediction of `before` is active in `after` too, with the same bytes.
pub open spec fn same_prediction(before: QueueView, after: QueueView) -> bool {
    after.prediction_is_active && after.prediction == before.prediction
}

/// The first request for a frame after the latest makes the prediction: a
/// copy of the latest input. Every later request, until the prediction is
/// reset, is answered with the same bytes.
pub proof fn lemma_prediction_is_made_once(queue: QueueView, first: int, second: int)
    requires
        queue.inv(),
        queue.after_input(first).1 is Ok,
        first > queue.last_added_frame(),
        second > queue.after_input(first).0.last_added_frame(),
        queue.after_input(first).0.after_input(second).1 is Ok,
    ensures
        queue.after_input(first).0.after_input(second).1->Ok_0.bytes == queue.after_input(
            first,
        ).1->Ok_0.bytes,
        !queue.prediction_is_active ==> queue.after_input(first).1->Ok_0.bytes
            == queue.prediction_source(),
{
}

/// After a rollback a queue answers with what is confirmed: once the
/// prediction is reset, the input of every frame that the queue keeps is the
/// confirmed input of that frame.
pub proof fn lemma_reset_recovers(queue: QueueView, frame: int)
    requires
        queue.inv(),
        queue.confirmed(frame) is Some,
    ensures
        queue.prediction_reset().after_input(frame).1 == Ok::<InputView, GGRSError>(
            InputView { frame, bytes: queue.confirmed(frame)->Some_0 },
        ),
        queue.prediction_reset().after_input(frame).0 == queue.prediction_reset(),
{
}

/// Nothing that happens to a queue changes the size of its inputs.
pub proof fn lemma_size_is_kept(queue: QueueView, input: InputView, frame: int)
    ensures
        queue.after_add(input).0.input_size == queue.input_size,
        queue.after_add_remote(input).0.input_size == queue.input_size,
        queue.after_input(frame).0.input_size == queue.input_size,
        queue.discarded(frame).input_size == queue.input_size,
        queue.prediction_reset().input_size == queue.input_size,
{
    let gap = input.frame + queue.frame_delay - queue.last_added_frame() - 1;
    if gap >= 0 {
        lemma_filled(queue, gap as nat);
    }
}

} // verus!
