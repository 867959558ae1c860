use vstd::prelude::*;

verus! {

/// The positive-frequency half of a transform of `num_samples` samples: its
/// first `num_samples / 2` bins, or all of them when fewer are given.
pub open spec fn positive_half_of<C>(spectrum: Seq<C>, num_samples: nat) -> Seq<C> {
    if spectrum.len() <= num_samples / 2 {
        spectrum
    } else {
        spectrum.subrange(0, (num_samples / 2) as int)
    }
}

/// Bin `i` holds a largest key, and no bin before it holds one as large.
pub open spec fn is_first_peak(keys: Seq<u32>, i: int) -> bool {
    &&& 0 <= i < keys.len()
    &&& forall|j: int| 0 <= j < keys.len() ==> keys[j] <= keys[i]
    &&& forall|j: int| 0 <= j < i ==> keys[j] < keys[i]
}

/// The peak of a spectrum, with its frequency in hertz as the exact ratio
/// `numerator / denominator`, that is `bin * sample_rate / num_samples`.
#[derive(Clone, Copy, Debug, PartialEq, Eq, Structural)]
pub struct Peak {
    pub bin: usize,
    pub numerator: u128,
    pub denominator: usize,
}

/// Keeps the positive-frequency half of a transform of `num_samples`
/// samples; a transform of real samples is symmetric, so the other half
/// carries nothing new.
pub fn positive_half<C: Copy>(spectrum: &[C], num_samples: usize) -> (r: Vec<C>)
    ensures
        r@ == positive_half_of(spectrum@, num_samples as nat),
{
    let half = num_samples / 2;
    let n = if spectrum.len() <= half {
        spectrum.len()
    } else {
        half
    };
    let mut out: Vec<C> = Vec::with_capacity(n);
    let mut i: usize = 0;
    while i < n
        invariant
            n <= spectrum@.len(),
            i <= n,
            out@ == spectrum@.subrange(0, i as int),
        decreases n - i,
    {
        out.push(spectrum[i]);
        i = i + 1;
        assert(out@ =~= spectrum@.subrange(0, i as int));
    }
    assert(spectrum@.subrange(0, n as int) =~= positive_half_of(spectrum@, num_samples as nat));
    out
}

/// The first bin with the largest key, `None` only for an empty sequence.
pub fn first_peak(keys: &[u32]) -> (r: Option<usize>)
    ensures
        r is None <==> keys@.len() == 0,
        r matches Some(i) ==> is_first_peak(keys@, i as int),
{
    if keys.len() == 0 {
        return None;
    }
    let mut best: usize = 0;
    let mut i: usize = 1;
    while i < keys.len()
        invariant
            1 <= i <= keys@.len(),
            is_first_peak(keys@.subrange(0, i as int), best as int),
        decreases keys@.len() - i,
    {
        if keys[i] > keys[best] {
            best = i;
        }
        i = i + 1;
        assert(is_first_peak(keys@.subrange(0, i as int), best as int));
    }
    assert(keys@.subrange(0, i as int) =~= keys@);
    Some(best)
}

/// Finds the peak of the positive-frequency half of a transform of
/// `num_samples` samples taken at `sample_rate` samples per second.
///
/// Bins are compared by `keys`, one per bin: each bin's magnitude truncated to
/// an integer. Among equal keys the lowest bin wins. `None` only when that
/// half holds no bin.
pub fn find_spectral_peak(keys: &[u32], sample_rate: u32, num_samples: usize) -> (r: Option<Peak>)
    ensures
        r is None <==> positive_half_of(keys@, num_samples as nat).len() == 0,
        r matches Some(p) ==> {
            &&& is_first_peak(positive_half_of(keys@, num_samples as nat), p.bin as int)
            &&& p.numerator == p.bin * sample_rate
            &&& p.denominator == num_samples
        },
{
    let half = positive_half(keys, num_samples);
    match first_peak(half.as_slice()) {
        None => None,
        Some(bin) => {
            assert(bin * sample_rate <= 0xffff_ffff_ffff_ffff * 0xffff_ffff) by (nonlinear_arith)
                requires
                    bin <= 0xffff_ffff_ffff_ffff,
                    sample_rate <= 0xffff_ffff,
            ;
            let numerator = (bin as u128) * (sample_rate as u128);
            Some(Peak { bin, numerator, denominator: num_samples })
        },
    }
}

/// A transform of one full window of `w` samples leaves a column of `w / 2`
/// bins once the negative-frequency half is dropped.
pub proof fn lemma_column_length<C>(spectrum: Seq<C>, w: nat)
    requires
        spectrum.len() == w,
    ensures
        positive_half_of(spectrum, w).len() == w / 2,
{
}

} // verus!
