//! Keeps the frame advantages of the last frames and averages them.
use vstd::prelude::*;

use crate::Frame;

verus! {

/// The number of frames over which the advantages are averaged.
pub const FRAME_WINDOW_SIZE: usize = 30;

/// The sum of a sequence of numbers.
pub open spec fn sum(values: Seq<i32>) -> int
    decreases values.len(),
{
    if values.len() == 0 {
        0
    } else {
        sum(values.drop_last()) + values.last()
    }
}

/// `a / b` rounded towards zero, for a positive `b`.
pub open spec fn div_towards_zero(a: int, b: int) -> int {
    if a >= 0 {
        a / b
    } else {
        -((-a) / b)
    }
}

/// The advantages recorded for the last frames, local and remote, each at
/// the index of its frame modulo the window size.
pub struct TimeSyncView {
    pub local: Seq<i32>,
    pub remote: Seq<i32>,
}

impl TimeSyncView {
    /// The window with the advantages of `frame` written into its slot; a
    /// negative frame has no slot.
    pub open spec fn advanced(self, frame: Frame, local_adv: i32, remote_adv: i32) -> TimeSyncView {
        if frame < 0 {
            self
        } else {
            TimeSyncView {
                local: self.local.update(frame as int % FRAME_WINDOW_SIZE as int, local_adv),
                remote: self.remote.update(frame as int % FRAME_WINDOW_SIZE as int, remote_adv),
            }
        }
    }

    /// Half the difference between the average remote and the average local
    /// advantage: where the two sides meet in the middle.
    pub open spec fn average(self) -> int {
        div_towards_zero(sum(self.remote) - sum(self.local), 2 * FRAME_WINDOW_SIZE as int)
    }
}

/// A window of frame advantages.
pub struct TimeSync {
    local: Vec<i32>,
    remote: Vec<i32>,
}

impl View for TimeSync {
    type V = TimeSyncView;

    closed spec fn view(&self) -> TimeSyncView {
        TimeSyncView { local: self.local@, remote: self.remote@ }
    }
}

proof fn lemma_sum_bounds(values: Seq<i32>)
    ensures
        values.len() * (i32::MIN as int) <= sum(values) <= values.len() * (i32::MAX as int),
    decreases values.len(),
{
    if values.len() > 0 {
        lemma_sum_bounds(values.drop_last());
        assert(values.len() * (i32::MAX as int) == values.drop_last().len() * (i32::MAX as int)
            + i32::MAX as int) by (nonlinear_arith)
            requires
                values.drop_last().len() == values.len() - 1,
        ;
        assert(values.len() * (i32::MIN as int) == values.drop_last().len() * (i32::MIN as int)
            + i32::MIN as int) by (nonlinear_arith)
            requires
                values.drop_last().len() == values.len() - 1,
        ;
    } else {
        assert(values.len() * (i32::MIN as int) == 0 && values.len() * (i32::MAX as int) == 0)
            by (nonlinear_arith)
            requires
                values.len() == 0,
        ;
    }
}

fn sum_of(values: &Vec<i32>) -> (total: i64)
    requires
        values@.len() <= FRAME_WINDOW_SIZE,
    ensures
        total == sum(values@),
{
    let mut total: i64 = 0;
    let mut i: usize = 0;
    while i < values.len()
        invariant
            i <= values.len(),
            values@.len() <= FRAME_WINDOW_SIZE,
            total == sum(values@.take(i as int)),
        decreases values.len() - i,
    {
        proof {
            lemma_sum_bounds(values@.take(i as int));
            assert(values@.take(i as int + 1).drop_last() =~= values@.take(i as int));
            assert(i * (i32::MAX as int) <= 30 * (i32::MAX as int)) by (nonlinear_arith)
                requires
                    i <= 30,
            ;
            assert(i * (i32::MIN as int) >= 30 * (i32::MIN as int)) by (nonlinear_arith)
                requires
                    0 <= i <= 30,
            ;
        }
        total = total + values[i] as i64;
        i += 1;
    }
    assert(values@.take(values@.len() as int) =~= values@);
    total
}

impl TimeSync {
    /// The window holds a value for each of its frames.
    pub open spec fn wf(&self) -> bool {
        self@.local.len() == FRAME_WINDOW_SIZE && self@.remote.len() == FRAME_WINDOW_SIZE
    }

    /// A window in which every advantage is zero.
    pub fn new() -> (window: Self)
        ensures
            window.wf(),
            window@.local == Seq::new(FRAME_WINDOW_SIZE as nat, |i: int| 0i32),
            window@.remote == Seq::new(FRAME_WINDOW_SIZE as nat, |i: int| 0i32),
    {
        let mut local: Vec<i32> = Vec::new();
        let mut remote: Vec<i32> = Vec::new();
        let mut i: usize = 0;
        while i < FRAME_WINDOW_SIZE
            invariant
                i <= FRAME_WINDOW_SIZE,
                local@ == Seq::new(i as nat, |i: int| 0i32),
                remote@ == Seq::new(i as nat, |i: int| 0i32),
            decreases FRAME_WINDOW_SIZE - i,
        {
            local.push(0);
            remote.push(0);
            i += 1;
        }
        TimeSync { local, remote }
    }

    /// Records the advantages of `frame`.
    pub fn advance_frame(&mut self, frame: Frame, local_adv: i32, remote_adv: i32)
        requires
            old(self).wf(),
        ensures
            final(self).wf(),
            final(self)@ == old(self)@.advanced(frame, local_adv, remote_adv),
    {
        if frame >= 0 {
            let slot = frame as usize % FRAME_WINDOW_SIZE;
            self.local.set(slot, local_adv);
            self.remote.set(slot, remote_adv);
        }
    }

    /// How many frames this side should wait for the other, judged by the
    /// advantages of the last frames.
    pub fn average_frame_advantage(&self) -> (average: i32)
        requires
            self.wf(),
        ensures
            average == self@.average(),
    {
        let local_sum = sum_of(&self.local);
        let remote_sum = sum_of(&self.remote);
        proof {
            lemma_sum_bounds(self.local@);
            lemma_sum_bounds(self.remote@);
        }
        // thirty advantages on either side: the difference of the sums is
        // within thirty times the range of an advantage
        let diff = remote_sum - local_sum;
        let window = 2 * FRAME_WINDOW_SIZE as i64;
        assert(window == 2 * FRAME_WINDOW_SIZE);
        assert(diff == sum(self@.remote) - sum(self@.local));
        assert(30 * (i32::MIN - i32::MAX) <= diff <= 30 * (i32::MAX - i32::MIN));
        if diff >= 0 {
            (diff / window) as i32
        } else {
            (-((-diff) / window)) as i32
        }
    }
}

} // verus!
