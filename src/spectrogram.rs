use vstd::prelude::*;

use crate::stream::{frames, remainder, valid_framing};

verus! {

/// A sliding window over an open-ended stream of samples.
///
/// Samples are buffered in arrival order. A frame is the first `window_size`
/// buffered samples; advancing drops the first `step_size` samples for good.
pub struct StreamingSpectrogram<T> {
    window_size: usize,
    step_size: usize,
    buffer: Vec<T>,
}

impl<T: Copy> StreamingSpectrogram<T> {
    /// The samples currently buffered, oldest first.
    pub closed spec fn buffered(&self) -> Seq<T> {
        self.buffer@
    }

    /// The number of samples in a frame.
    pub closed spec fn window(&self) -> nat {
        self.window_size as nat
    }

    /// The number of samples dropped by one advance.
    pub closed spec fn step(&self) -> nat {
        self.step_size as nat
    }

    pub open spec fn wf(&self) -> bool {
        valid_framing(self.window(), self.step())
    }

    /// A spectrogram with an empty buffer; `None` unless
    /// `0 < step_size <= window_size`.
    pub fn new(window_size: usize, step_size: usize) -> (r: Option<Self>)
        ensures
            r.is_some() <==> valid_framing(window_size as nat, step_size as nat),
            r matches Some(sp) ==> {
                &&& sp.wf()
                &&& sp.window() == window_size
                &&& sp.step() == step_size
                &&& sp.buffered().len() == 0
            },
    {
        if 0 < step_size && step_size <= window_size {
            Some(StreamingSpectrogram { window_size, step_size, buffer: Vec::new() })
        } else {
            None
        }
    }

    pub fn window_size(&self) -> (r: usize)
        ensures
            r == self.window(),
    {
        self.window_size
    }

    pub fn step_size(&self) -> (r: usize)
        ensures
            r == self.step(),
    {
        self.step_size
    }

    /// The number of values in a spectrum column: the positive-frequency half
    /// of a transform of one frame, rounded down for an odd window.
    pub fn output_size(&self) -> (r: usize)
        ensures
            r == self.window() / 2,
    {
        self.window_size / 2
    }

    /// The number of samples buffered.
    pub fn len(&self) -> (r: usize)
        ensures
            r == self.buffered().len(),
    {
        self.buffer.len()
    }

    /// Once a fresh spectrogram has been handed exactly one window of samples,
    /// it holds a full frame, so a frame can be taken.
    pub proof fn lemma_full_after_one_window(&self, chunk: Seq<T>)
        requires
            self.wf(),
            self.buffered().len() == 0,
            chunk.len() == self.window(),
        ensures
            (self.buffered() + chunk).len() >= self.window(),
    {
    }

    /// Appends a chunk of samples, of any length, after those buffered.
    pub fn append_samples(&mut self, chunk: &[T])
        ensures
            final(self).buffered() == old(self).buffered() + chunk@,
            final(self).window() == old(self).window(),
            final(self).step() == old(self).step(),
    {
        let ghost start = self.buffer@;
        let mut i: usize = 0;
        while i < chunk.len()
            invariant
                i <= chunk@.len(),
                self.buffer@ == start + chunk@.subrange(0, i as int),
                self.window_size == old(self).window_size,
                self.step_size == old(self).step_size,
            decreases chunk@.len() - i,
        {
            self.buffer.push(chunk[i]);
            i = i + 1;
            assert(self.buffer@ =~= start + chunk@.subrange(0, i as int));
        }
        assert(chunk@.subrange(0, i as int) =~= chunk@);
    }

    /// Whether a whole frame is buffered.
    pub fn has_full_frame(&self) -> (r: bool)
        ensures
            r == (self.buffered().len() >= self.window()),
    {
        self.buffer.len() >= self.window_size
    }

    /// The frame at the front of the buffer, which stays buffered.
    pub fn current_frame(&self) -> (r: Vec<T>)
        requires
            self.buffered().len() >= self.window(),
        ensures
            r@ == self.buffered().subrange(0, self.window() as int),
    {
        let mut frame: Vec<T> = Vec::with_capacity(self.window_size);
        let mut i: usize = 0;
        while i < self.window_size
            invariant
                i <= self.window(),
                self.window() <= self.buffered().len(),
                frame@ == self.buffered().subrange(0, i as int),
            decreases self.window() - i,
        {
            frame.push(self.buffer[i]);
            i = i + 1;
            assert(frame@ =~= self.buffered().subrange(0, i as int));
        }
        frame
    }

    /// Drops the first `step_size` samples for good. Advancing without taking
    /// the current frame skips that frame.
    pub fn advance(&mut self)
        requires
            old(self).wf(),
            old(self).buffered().len() >= old(self).window(),
        ensures
            final(self).buffered() == old(self).buffered().subrange(
                old(self).step() as int,
                old(self).buffered().len() as int,
            ),
            final(self).window() == old(self).window(),
            final(self).step() == old(self).step(),
    {
        let n = self.buffer.len();
        let mut kept: Vec<T> = Vec::with_capacity(n - self.step_size);
        let mut i: usize = self.step_size;
        while i < n
            invariant
                self.step_size <= i <= n,
                n == self.buffer@.len(),
                kept@ == self.buffer@.subrange(self.step_size as int, i as int),
            decreases n - i,
        {
            kept.push(self.buffer[i]);
            i = i + 1;
            assert(kept@ =~= self.buffer@.subrange(self.step_size as int, i as int));
        }
        self.buffer = kept;
    }

    /// Appends a chunk, then takes every full frame in order, advancing after
    /// each one, until less than a frame is buffered.
    pub fn process_chunk(&mut self, chunk: &[T]) -> (r: Vec<Vec<T>>)
        requires
            old(self).wf(),
        ensures
            final(self).wf(),
            final(self).window() == old(self).window(),
            final(self).step() == old(self).step(),
            r@.map_values(|f: Vec<T>| f@) == frames(
                old(self).buffered() + chunk@,
                old(self).window(),
                old(self).step(),
            ),
            final(self).buffered() == remainder(
                old(self).buffered() + chunk@,
                old(self).window(),
                old(self).step(),
            ),
    {
        let ghost all = old(self).buffered() + chunk@;
        let ghost w = self.window();
        let ghost s = self.step();
        self.append_samples(chunk);
        let mut out: Vec<Vec<T>> = Vec::new();
        while self.has_full_frame()
            invariant
                self.wf(),
                self.window() == w,
                self.step() == s,
                out@.map_values(|f: Vec<T>| f@) + frames(self.buffered(), w, s) == frames(all, w, s),
                remainder(self.buffered(), w, s) == remainder(all, w, s),
            decreases self.buffered().len(),
        {
            let ghost before = self.buffered();
            let frame = self.current_frame();
            self.advance();
            let ghost old_out = out@.map_values(|f: Vec<T>| f@);
            out.push(frame);
            assert(out@.map_values(|f: Vec<T>| f@) =~= old_out.push(frame@));
            assert(frames(before, w, s) == seq![frame@] + frames(self.buffered(), w, s));
            assert(old_out.push(frame@) + frames(self.buffered(), w, s) =~= old_out + frames(before, w, s));
        }
        assert(frames(self.buffered(), w, s) =~= Seq::<Seq<T>>::empty());
        assert(out@.map_values(|f: Vec<T>| f@) + frames(self.buffered(), w, s) =~= out@.map_values(|f: Vec<T>| f@));
        out
    }
}

} // verus!
