//! The input record: a fixed-size byte buffer tagged with a frame.
use vstd::prelude::*;

use crate::{Frame, NULL_FRAME};

verus! {

/// The mathematical value of a [`PlayerInput`]: its frame and its bytes.
pub struct InputView {
    pub frame: int,
    pub bytes: Seq<u8>,
}

/// The input of one player in one frame.
///
/// `buffer` holds exactly `size` bytes (see [`PlayerInput::wf`]); the size is
/// the same for every input of a session.
#[derive(Debug, Clone, PartialEq, Eq)]
pub struct PlayerInput {
    /// The frame this input belongs to; `NULL_FRAME` marks an input that stands for none.
    pub frame: Frame,
    /// The number of bytes of an input.
    pub size: u16,
    /// The serialized input.
    pub buffer: Vec<u8>,
}

impl View for PlayerInput {
    type V = InputView;

    open spec fn view(&self) -> InputView {
        InputView { frame: self.frame as int, bytes: self.buffer@ }
    }
}

/// `len` zero bytes.
pub open spec fn zeros(len: nat) -> Seq<u8> {
    Seq::new(len, |i: int| 0u8)
}

/// The views of a sequence of inputs, one for one.
pub open spec fn views(inputs: Seq<PlayerInput>) -> Seq<InputView> {
    Seq::new(inputs.len(), |i: int| inputs[i]@)
}

/// `bytemuck::zeroed_vec::<u8>`: a vector of `len` bytes, each of them zero.
///
/// The outside function unwraps an allocation; with a length that fits `u16`
/// the layout of that allocation always exists.
#[verifier::external_body]
fn zeroed_bytes(len: u16) -> (bytes: Vec<u8>)
    ensures
        bytes@ == zeros(len as nat),
{
    bytemuck::zeroed_vec::<u8>(len as usize)
}

/// The size of the inputs of `num_players` players together.
pub fn merged_size_of(num_players: usize, input_size: u16) -> (size: u16)
    requires
        num_players * input_size <= u16::MAX,
    ensures
        size == num_players * input_size,
{
    if input_size == 0 {
        assert(num_players * 0 == 0) by (nonlinear_arith);
        return 0;
    }
    assert(num_players <= u16::MAX) by (nonlinear_arith)
        requires
            num_players * input_size <= u16::MAX,
            input_size >= 1,
    ;
    ((num_players as u32) * (input_size as u32)) as u16
}

impl PlayerInput {
    /// The buffer has the length that `size` announces.
    pub open spec fn wf(&self) -> bool {
        self.buffer@.len() == self.size
    }

    /// An input for `frame` whose `size` bytes are all zero.
    pub fn new(frame: Frame, size: u16) -> (input: Self)
        ensures
            input.wf(),
            input.frame == frame,
            input.size == size,
            input.buffer@ == zeros(size as nat),
    {
        PlayerInput { frame, size, buffer: zeroed_bytes(size) }
    }

    /// An all-zero input that belongs to no frame.
    pub fn blank_input(size: u16) -> (input: Self)
        ensures
            input.wf(),
            input.frame == NULL_FRAME,
            input.size == size,
            input.buffer@ == zeros(size as nat),
    {
        PlayerInput::new(NULL_FRAME, size)
    }

    /// The serialized input.
    pub fn input(&self) -> (bytes: &[u8])
        ensures
            bytes@ == self.buffer@,
    {
        self.buffer.as_slice()
    }

    /// Overwrites the serialized input with `bytes`.
    pub fn copy_input(&mut self, bytes: &[u8])
        requires
            old(self).wf(),
            bytes@.len() == old(self).size,
        ensures
            final(self).wf(),
            final(self).frame == old(self).frame,
            final(self).size == old(self).size,
            final(self).buffer@ == bytes@,
    {
        let mut i: usize = 0;
        while i < bytes.len()
            invariant
                i <= bytes.len(),
                self.frame == old(self).frame,
                self.size == old(self).size,
                self.buffer@.len() == bytes@.len(),
                bytes@.len() == self.size,
                forall|j: int| 0 <= j < i ==> self.buffer@[j] == bytes@[j],
            decreases bytes.len() - i,
        {
            self.buffer.set(i, bytes[i]);
            i += 1;
        }
        assert(self.buffer@ =~= bytes@);
    }

    /// A copy of this input.
    pub fn duplicate(&self) -> (copy: Self)
        ensures
            copy.frame == self.frame,
            copy.size == self.size,
            copy.buffer@ == self.buffer@,
    {
        PlayerInput { frame: self.frame, size: self.size, buffer: self.buffer.clone() }
    }

    /// Whether two inputs hold the same bytes; unless `bitsonly`, they must also
    /// belong to the same frame.
    pub fn equal(&self, other: &Self, bitsonly: bool) -> (same: bool)
        ensures
            same == ((bitsonly || self.frame == other.frame) && self.size == other.size
                && self.buffer@ == other.buffer@),
    {
        if !bitsonly && self.frame != other.frame {
            return false;
        }
        if self.size != other.size || self.buffer.len() != other.buffer.len() {
            return false;
        }
        let mut i: usize = 0;
        while i < self.buffer.len()
            invariant
                i <= self.buffer.len(),
                self.buffer.len() == other.buffer.len(),
                forall|j: int| 0 <= j < i ==> self.buffer@[j] == other.buffer@[j],
            decreases self.buffer.len() - i,
        {
            if self.buffer[i] != other.buffer[i] {
                return false;
            }
            i += 1;
        }
        assert(self.buffer@ =~= other.buffer@);
        true
    }
}

} // verus!
