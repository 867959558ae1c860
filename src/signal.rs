use vstd::prelude::*;

verus! {

/// The energy of a signal: the sum of the squares of its samples.
pub open spec fn energy_of(samples: Seq<i16>) -> int
    decreases samples.len(),
{
    if samples.len() == 0 {
        0
    } else {
        energy_of(samples.drop_last()) + samples.last() * samples.last()
    }
}

proof fn lemma_energy_bound(samples: Seq<i16>)
    ensures
        0 <= energy_of(samples) <= samples.len() * 0x4000_0000,
    decreases samples.len(),
{
    if samples.len() > 0 {
        let x = samples.last() as int;
        lemma_energy_bound(samples.drop_last());
        assert(0 <= x * x <= 0x4000_0000) by (nonlinear_arith)
            requires
                -0x8000 <= x < 0x8000,
        ;
    }
}

/// Energy of a block of 16-bit samples, exact: no sample is rounded and the
/// sum cannot overflow.
pub fn energy(samples: &[i16]) -> (r: u128)
    ensures
        r == energy_of(samples@),
{
    let mut total: u128 = 0;
    let mut i: usize = 0;
    while i < samples.len()
        invariant
            i <= samples@.len(),
            total == energy_of(samples@.subrange(0, i as int)),
        decreases samples@.len() - i,
    {
        let x = samples[i] as i32;
        proof {
            let prefix = samples@.subrange(0, i + 1);
            assert(prefix.drop_last() =~= samples@.subrange(0, i as int));
            lemma_energy_bound(samples@.subrange(0, i as int));
            assert(i < 0x1_0000_0000_0000_0000);
            assert(total <= 0x1_0000_0000_0000_0000 * 0x4000_0000);
            assert(0 <= x * x <= 0x4000_0000) by (nonlinear_arith)
                requires
                    -0x8000 <= x < 0x8000,
            ;
        }
        let square = (x * x) as u128;
        total = total + square;
        i = i + 1;
    }
    assert(samples@.subrange(0, i as int) =~= samples@);
    total
}

} // verus!
