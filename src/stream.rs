use vstd::prelude::*;

verus! {

/// A window of `w` samples advanced by `s` samples at a time: the step must
/// move forward and may not skip past the window.
pub open spec fn valid_framing(w: nat, s: nat) -> bool {
    0 < s <= w
}

/// The frames of a sample sequence: its first `w` samples, then the frames of
/// what is left after dropping the first `s` samples; none once fewer than `w`
/// samples remain.
pub open spec fn frames<T>(t: Seq<T>, w: nat, s: nat) -> Seq<Seq<T>>
    decreases t.len(),
{
    if valid_framing(w, s) && w <= t.len() {
        seq![t.subrange(0, w as int)] + frames(t.subrange(s as int, t.len() as int), w, s)
    } else {
        seq![]
    }
}

/// What is left of a sample sequence once all of its frames have been taken.
pub open spec fn remainder<T>(t: Seq<T>, w: nat, s: nat) -> Seq<T>
    decreases t.len(),
{
    if valid_framing(w, s) && w <= t.len() {
        remainder(t.subrange(s as int, t.len() as int), w, s)
    } else {
        t
    }
}

/// Frame `j` of `t` lies within `t`, starting `j * s` samples in.
pub open spec fn frame_at<T>(t: Seq<T>, w: nat, s: nat, j: int) -> bool {
    &&& j * s + w <= t.len()
    &&& frames(t, w, s)[j] == t.subrange(j * s, j * s + w)
}

/// The frames emitted by the driving loop when starting from the buffered
/// samples `buf` and handed `chunks` one after another: after each chunk
/// every full frame is taken before the next chunk arrives.
pub open spec fn streamed<T>(buf: Seq<T>, chunks: Seq<Seq<T>>, w: nat, s: nat) -> Seq<Seq<T>>
    decreases chunks.len(),
{
    if chunks.len() == 0 {
        seq![]
    } else {
        let t = buf + chunks[0];
        frames(t, w, s) + streamed(remainder(t, w, s), chunks.drop_first(), w, s)
    }
}

/// Fewer than a window's worth of samples is left once all frames are taken.
pub proof fn lemma_remainder_short<T>(t: Seq<T>, w: nat, s: nat)
    requires
        valid_framing(w, s),
    ensures
        remainder(t, w, s).len() < w,
    decreases t.len(),
{
    if w <= t.len() {
        lemma_remainder_short(t.subrange(s as int, t.len() as int), w, s);
    }
}

/// Frame `j` of a sequence is made of the samples from `j * s` up to
/// `j * s + w`, and there are as many frames as such ranges fit in it.
pub proof fn lemma_frame_positions<T>(t: Seq<T>, w: nat, s: nat)
    requires
        valid_framing(w, s),
    ensures
        frames(t, w, s).len() * s + w > t.len(),
        forall|j: int|
            0 <= j < frames(t, w, s).len() ==> frame_at(t, w, s, j),
    decreases t.len(),
{
    if w <= t.len() {
        let rest = t.subrange(s as int, t.len() as int);
        lemma_frame_positions(rest, w, s);
        let n = frames(rest, w, s).len();
        assert(frames(t, w, s) == seq![t.subrange(0, w as int)] + frames(rest, w, s));
        assert forall|j: int| 0 <= j < frames(t, w, s).len() implies frame_at(t, w, s, j) by {
            if j > 0 {
                let k = j - 1;
                assert(frame_at(rest, w, s, k));
                assert(j * s == k * s + s) by (nonlinear_arith)
                    requires
                        k == j - 1,
                ;
                assert(rest.subrange(k * s, k * s + w) =~= t.subrange(j * s, j * s + w));
            } else {
                assert(j * s == 0) by (nonlinear_arith)
                    requires
                        j == 0,
                ;
            }
        }
        assert((n + 1) * s == n * s + s) by (nonlinear_arith);
    } else {
        assert(frames(t, w, s).len() == 0);
        assert(frames(t, w, s).len() * s == 0) by (nonlinear_arith)
            requires
                frames(t, w, s).len() == 0,
        ;
    }
}

/// Taking the frames of `t` followed by `u` is taking the frames of `t`, and
/// then the frames of what `t` left over followed by `u`.
pub proof fn lemma_frames_split<T>(t: Seq<T>, u: Seq<T>, w: nat, s: nat)
    requires
        valid_framing(w, s),
    ensures
        frames(t + u, w, s) == frames(t, w, s) + frames(remainder(t, w, s) + u, w, s),
    decreases t.len(),
{
    if w <= t.len() {
        let rest = t.subrange(s as int, t.len() as int);
        lemma_frames_split(rest, u, w, s);
        assert((t + u).subrange(0, w as int) =~= t.subrange(0, w as int));
        assert((t + u).subrange(s as int, (t + u).len() as int) =~= rest + u);
        assert(frames(t + u, w, s) =~= frames(t, w, s) + frames(remainder(t, w, s) + u, w, s));
    } else {
        assert(frames(t, w, s) =~= Seq::<Seq<T>>::empty());
        assert(frames(t + u, w, s) =~= frames(t, w, s) + frames(remainder(t, w, s) + u, w, s));
    }
}

/// Starting from fewer than a window's worth of buffered samples, the driving
/// loop emits exactly the frames of the buffered samples followed by all the
/// chunks, whatever the chunks are.
pub proof fn lemma_streamed_frames<T>(buf: Seq<T>, chunks: Seq<Seq<T>>, w: nat, s: nat)
    requires
        valid_framing(w, s),
        buf.len() < w,
    ensures
        streamed(buf, chunks, w, s) == frames(buf + chunks.flatten(), w, s),
    decreases chunks.len(),
{
    if chunks.len() == 0 {
        assert(buf + chunks.flatten() =~= buf);
        assert(frames(buf, w, s) =~= Seq::<Seq<T>>::empty());
    } else {
        let t = buf + chunks[0];
        let rest = chunks.drop_first();
        lemma_remainder_short(t, w, s);
        lemma_streamed_frames(remainder(t, w, s), rest, w, s);
        lemma_frames_split(t, rest.flatten(), w, s);
        assert(chunks.flatten() =~= chunks[0] + rest.flatten());
        assert(buf + chunks.flatten() =~= t + rest.flatten());
    }
}

/// How a stream is cut into chunks does not change the frames emitted: two
/// chunkings of the same samples, fed to a fresh buffer, give the same frames
/// in the same order.
pub proof fn lemma_chunking_invariant<T>(a: Seq<Seq<T>>, b: Seq<Seq<T>>, w: nat, s: nat)
    requires
        valid_framing(w, s),
        a.flatten() == b.flatten(),
    ensures
        streamed(Seq::empty(), a, w, s) == streamed(Seq::empty(), b, w, s),
{
    lemma_streamed_frames(Seq::<T>::empty(), a, w, s);
    lemma_streamed_frames(Seq::<T>::empty(), b, w, s);
}

/// A stream cut into chunks of one sample each.
pub open spec fn single_samples<T>(x: Seq<T>) -> Seq<Seq<T>> {
    Seq::new(x.len(), |i: int| seq![x[i]])
}

proof fn lemma_single_samples_flatten<T>(x: Seq<T>)
    ensures
        single_samples(x).flatten() == x,
    decreases x.len(),
{
    if x.len() > 0 {
        lemma_single_samples_flatten(x.drop_first());
        assert(single_samples(x).drop_first() =~= single_samples(x.drop_first()));
        assert(single_samples(x).flatten() =~= seq![x[0]] + x.drop_first());
        assert(seq![x[0]] + x.drop_first() =~= x);
    } else {
        assert(single_samples(x).flatten() =~= x);
    }
}

/// Feeding a stream as one chunk or one sample at a time emits the same
/// frames in the same order.
pub proof fn lemma_one_chunk_matches_single_samples<T>(x: Seq<T>, w: nat, s: nat)
    requires
        valid_framing(w, s),
    ensures
        streamed(Seq::empty(), seq![x], w, s) == streamed(Seq::empty(), single_samples(x), w, s),
{
    lemma_single_samples_flatten(x);
    seq![x].lemma_flatten_one_element();
    lemma_chunking_invariant(seq![x], single_samples(x), w, s);
}

} // verus!
