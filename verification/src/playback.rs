//! The playback thread's decisions: decode frames ahead until a batch is
//! buffered, then hand the batch to the audio output as one run of samples.

use vstd::prelude::*;
use std::collections::VecDeque;

verus! {

/// Frames the playback thread decodes ahead before handing them on.
pub const DECODE_BATCH_FRAMES: usize = 10;

/// What the playback thread does next.
#[derive(Debug, Clone, Copy, PartialEq, Eq, Structural)]
pub enum DecodeAction {
    /// Decode one more frame into the buffer.
    DecodeFrame,
    /// Send a batch of buffered frames to the output and wait for it to ask
    /// for more.
    SendBatch,
}

/// What the audio output does when asked for samples.
#[derive(Debug, Clone, Copy, PartialEq, Eq, Structural)]
pub enum OutputStep {
    /// Enough samples are buffered: take them.
    Take,
    /// Too few are buffered: wake the playback thread and take a batch
    /// from it first, if one is ready.
    Refill,
}

/// The output's step when `requested` samples are asked for and `buffered`
/// are waiting.
pub fn output_step(buffered: usize, requested: usize) -> (s: OutputStep)
    ensures
        s == (if buffered < requested { OutputStep::Refill } else { OutputStep::Take }),
{
    if buffered < requested {
        OutputStep::Refill
    } else {
        OutputStep::Take
    }
}

/// The values of `frames`, one frame after another.
pub open spec fn joined<T>(frames: Seq<Seq<T>>) -> Seq<T>
    decreases frames.len(),
{
    if frames.len() == 0 {
        Seq::empty()
    } else {
        joined(frames.drop_last()) + frames.last()
    }
}

/// The next step of the playback thread with `buffered_frames` frames
/// decoded ahead: decode while fewer than a batch are buffered.
pub fn decode_step(buffered_frames: usize) -> (a: DecodeAction)
    ensures
        a == (if buffered_frames < DECODE_BATCH_FRAMES {
            DecodeAction::DecodeFrame
        } else {
            DecodeAction::SendBatch
        }),
{
    if buffered_frames < DECODE_BATCH_FRAMES {
        DecodeAction::DecodeFrame
    } else {
        DecodeAction::SendBatch
    }
}

/// Whether the playback thread goes on after a step: while playback is on.
pub fn decode_thread_continues(is_decoding: bool) -> (go_on: bool)
    ensures
        go_on == is_decoding,
{
    is_decoding
}

/// The views of the frames in `buffer`, in order.
pub open spec fn frame_views<T>(buffer: Seq<Vec<T>>) -> Seq<Seq<T>> {
    buffer.map_values(|f: Vec<T>| f@)
}

/// The playback thread's frames decoded ahead of the output, with the
/// frames it has decoded and the batches it has sent since it started.
pub struct DecodeFn<T> {
    decode_buffer: VecDeque<Vec<T>>,
    decoded: Ghost<Seq<Seq<T>>>,
    batches_sent: Ghost<nat>,
}

impl<T> DecodeFn<T> {
    /// The thread's invariant: at most a batch is held unsent, and what is
    /// held is what was decoded after the frames of the batches sent.
    pub closed spec fn wf(&self) -> bool {
        &&& self.decode_buffer@.len() <= DECODE_BATCH_FRAMES
        &&& self.decoded@.len() == DECODE_BATCH_FRAMES * self.batches_sent@ + self.decode_buffer@.len()
        &&& frame_views(self.decode_buffer@) == self.decoded@.skip(DECODE_BATCH_FRAMES * self.batches_sent@)
    }

    /// The frames decoded since the thread started, in order.
    pub closed spec fn frames_decoded(&self) -> Seq<Seq<T>> {
        self.decoded@
    }

    /// The number of batches sent since the thread started.
    pub closed spec fn sent(&self) -> nat {
        self.batches_sent@
    }

    /// A thread that has decoded and sent nothing.
    pub fn new() -> (d: Self)
        ensures
            d.wf(),
            d.frames_decoded() == Seq::<Seq<T>>::empty(),
            d.sent() == 0,
    {
        let d = DecodeFn { decode_buffer: VecDeque::new(), decoded: Ghost(Seq::empty()), batches_sent: Ghost(0) };
        assert(frame_views(d.decode_buffer@) =~= d.decoded@.skip(0));
        d
    }

    /// The number of frames held unsent: those decoded after the frames of
    /// the batches sent.
    pub fn buffered(&self) -> (n: usize)
        requires
            self.wf(),
        ensures
            n <= DECODE_BATCH_FRAMES,
            n == self.frames_decoded().len() - DECODE_BATCH_FRAMES * self.sent(),
    {
        self.decode_buffer.len()
    }

    /// The thread's next step: decode while fewer than a batch are held.
    pub fn next_action(&self) -> (a: DecodeAction)
        requires
            self.wf(),
        ensures
            a == (if self.frames_decoded().len() < DECODE_BATCH_FRAMES * (self.sent() + 1) {
                DecodeAction::DecodeFrame
            } else {
                DecodeAction::SendBatch
            }),
    {
        decode_step(self.decode_buffer.len())
    }

    /// Holds a newly decoded frame, after those held already.
    pub fn push_frame(&mut self, frame: Vec<T>)
        requires
            old(self).wf(),
            old(self).frames_decoded().len() < DECODE_BATCH_FRAMES * (old(self).sent() + 1),
        ensures
            final(self).wf(),
            final(self).frames_decoded() == old(self).frames_decoded().push(frame@),
            final(self).sent() == old(self).sent(),
    {
        let ghost fv = frame@;
        let ghost old_buffer = self.decode_buffer@;
        let ghost m = DECODE_BATCH_FRAMES * self.batches_sent@;
        self.decode_buffer.push_back(frame);
        self.decoded = Ghost(self.decoded@.push(fv));
        assert(frame_views(self.decode_buffer@) =~= frame_views(old_buffer).push(fv));
        assert(self.decoded@.skip(m as int) =~= old(self).decoded@.skip(m as int).push(fv));
    }

    /// Takes the batch held and returns its samples: batch `m`, counting
    /// from zero, is frames `10m` to `10m + 9` of those decoded, joined in
    /// order, so no frame is dropped, repeated or reordered.
    pub fn send_batch(&mut self) -> (batch: Vec<T>)
        requires
            old(self).wf(),
            old(self).frames_decoded().len() == DECODE_BATCH_FRAMES * (old(self).sent() + 1),
        ensures
            final(self).wf(),
            final(self).frames_decoded() == old(self).frames_decoded(),
            final(self).sent() == old(self).sent() + 1,
            batch@ == joined(
                old(self).frames_decoded().subrange(
                    DECODE_BATCH_FRAMES * old(self).sent(),
                    DECODE_BATCH_FRAMES * (old(self).sent() + 1),
                ),
            ),
    {
        let ghost m = DECODE_BATCH_FRAMES * self.batches_sent@;
        let ghost held = self.decode_buffer@;
        let batch = take_batch(&mut self.decode_buffer);
        assert(held.take(DECODE_BATCH_FRAMES as int) =~= held);
        assert(frame_views(held) =~= held.map_values(|f: Vec<T>| f@));
        assert(self.decoded@.subrange(m as int, m + DECODE_BATCH_FRAMES) =~= self.decoded@.skip(m as int));
        self.batches_sent = Ghost(self.batches_sent@ + 1);
        assert(self.decode_buffer@ =~= Seq::<Vec<T>>::empty());
        assert(frame_views(self.decode_buffer@) =~= self.decoded@.skip(DECODE_BATCH_FRAMES * self.batches_sent@));
        batch
    }
}

/// Takes the first batch of frames from the front of `decode_buffer` and
/// returns their samples in order.
pub fn take_batch<T>(decode_buffer: &mut VecDeque<Vec<T>>) -> (batch: Vec<T>)
    requires
        old(decode_buffer)@.len() >= DECODE_BATCH_FRAMES,
    ensures
        batch@ == joined(old(decode_buffer)@.take(DECODE_BATCH_FRAMES as int).map_values(|f: Vec<T>| f@)),
        final(decode_buffer)@ == old(decode_buffer)@.skip(DECODE_BATCH_FRAMES as int),
{
    let ghost start = decode_buffer@;
    let mut batch: Vec<T> = Vec::new();
    let mut i: usize = 0;
    while i < DECODE_BATCH_FRAMES
        invariant
            i <= DECODE_BATCH_FRAMES,
            start == old(decode_buffer)@,
            start.len() >= DECODE_BATCH_FRAMES,
            decode_buffer@ == start.skip(i as int),
            batch@ == joined(start.take(i as int).map_values(|f: Vec<T>| f@)),
        decreases DECODE_BATCH_FRAMES - i,
    {
        match decode_buffer.pop_front() {
            Some(frame) => {
                let mut frame = frame;
                let ghost fv = frame@;
                batch.append(&mut frame);
                let ghost next = start.take(i as int + 1).map_values(|f: Vec<T>| f@);
                assert(next.drop_last() =~= start.take(i as int).map_values(|f: Vec<T>| f@));
                assert(next.last() == fv);
            },
            None => {
                assert(false);
            },
        }
        assert(decode_buffer@ =~= start.skip(i as int + 1));
        i = i + 1;
    }
    batch
}

} // verus!
