use vstd::prelude::*;

verus! {

/// Below this frequency (in Hz) the low-frequency-effects channel passes a
/// bin at full gain.
pub const LFE_FULL_HZ: u64 = 20;

/// At and above this frequency (in Hz) the low-frequency-effects channel cuts
/// a bin entirely.
pub const LFE_START_HZ: u64 = 40;

/// Where a frequency bin falls on the low-pass curve of the
/// low-frequency-effects channel.
#[derive(Clone, Copy, Debug, PartialEq, Eq, Structural)]
pub enum LfeBand {
    /// Below the full cutoff: gain 1.
    Full,
    /// Between the full and start cutoffs. The bin lies the fraction
    /// `numerator / denominator` (in `[0, 1)`) of the way from one to the
    /// other; its gain is the cosine of that fraction of a quarter turn.
    Taper { numerator: u128, denominator: u128 },
    /// At or above the start cutoff: gain 0.
    Cut,
}

/// The band of bin `bin` of a transform of `window_size` samples at
/// `sample_rate` Hz. The bin's frequency is `sample_rate * bin / window_size`,
/// compared here without rounding.
pub open spec fn band_of(bin: nat, window_size: nat, sample_rate: nat) -> LfeBand {
    let scaled = sample_rate * bin;
    if scaled < LFE_FULL_HZ * window_size {
        LfeBand::Full
    } else if scaled < LFE_START_HZ * window_size {
        LfeBand::Taper {
            numerator: (scaled - LFE_FULL_HZ * window_size) as u128,
            denominator: ((LFE_START_HZ - LFE_FULL_HZ) * window_size) as u128,
        }
    } else {
        LfeBand::Cut
    }
}

/// The band of bin `bin`; see [`band_of`].
pub fn lfe_band(bin: usize, window_size: usize, sample_rate: usize) -> (r: LfeBand)
    requires
        window_size > 0,
    ensures
        r == band_of(bin as nat, window_size as nat, sample_rate as nat),
{
    let scaled: u128 = mul_wide(sample_rate, bin);
    let ws: u128 = window_size as u128;
    if scaled < (LFE_FULL_HZ as u128) * ws {
        LfeBand::Full
    } else if scaled < (LFE_START_HZ as u128) * ws {
        LfeBand::Taper {
            numerator: scaled - (LFE_FULL_HZ as u128) * ws,
            denominator: ((LFE_START_HZ - LFE_FULL_HZ) as u128) * ws,
        }
    } else {
        LfeBand::Cut
    }
}

fn mul_wide(a: usize, b: usize) -> (r: u128)
    ensures
        r == a * b,
{
    let a: u128 = a as u128;
    let b: u128 = b as u128;
    assert(a * b <= u128::MAX) by (nonlinear_arith)
        requires a <= usize::MAX, b <= usize::MAX, usize::MAX < 0x1_0000_0000_0000_0000;
    a * b
}

/// The entry at position `p` of the gain table of a window: the bins up to
/// the midpoint follow the curve by their own frequency, and each bin past
/// the midpoint takes the entry of its mirror image `window_size - p`.
pub open spec fn table_entry(window_size: nat, sample_rate: nat, p: nat) -> LfeBand {
    if p <= window_size / 2 {
        band_of(p, window_size, sample_rate)
    } else if p < window_size {
        band_of((window_size - p) as nat, window_size, sample_rate)
    } else {
        LfeBand::Cut
    }
}

/// The gain table of the low-frequency-effects channel, one entry per
/// position of a window.
pub fn lfe_table(window_size: usize, sample_rate: usize) -> (r: Vec<LfeBand>)
    requires
        window_size > 0,
    ensures
        r@.len() == window_size,
        forall|p: int|
            0 <= p < window_size ==> #[trigger] r@[p] == table_entry(
                window_size as nat,
                sample_rate as nat,
                p as nat,
            ),
{
    let midpoint = window_size / 2;
    let mut table: Vec<LfeBand> = Vec::with_capacity(window_size);
    let mut p: usize = 0;
    while p < window_size
        invariant
            p <= window_size,
            midpoint == window_size / 2,
            table@.len() == p,
            forall|q: int|
                0 <= q < p ==> #[trigger] table@[q] == table_entry(
                    window_size as nat,
                    sample_rate as nat,
                    q as nat,
                ),
        decreases window_size - p,
    {
        let entry = if p <= midpoint {
            lfe_band(p, window_size, sample_rate)
        } else {
            lfe_band(window_size - p, window_size, sample_rate)
        };
        table.push(entry);
        p = p + 1;
    }
    table
}

/// The gain table rolls off by frequency alone: the DC bin passes at full
/// gain; a bin up to the midpoint below the full cutoff passes at full gain,
/// one at or above the start cutoff is cut, and between two tapered bins
/// `i < j` the taper fraction grows strictly and stays in `[0, 1)`; each bin
/// past the midpoint has the entry of its mirror image.
pub proof fn lemma_lfe_table_rolloff(window_size: nat, sample_rate: nat, i: nat, j: nat)
    requires
        0 < window_size <= usize::MAX,
        sample_rate <= usize::MAX,
        i < j <= window_size / 2,
    ensures
        table_entry(window_size, sample_rate, 0) == LfeBand::Full,
        sample_rate * i < LFE_FULL_HZ * window_size ==> table_entry(window_size, sample_rate, i)
            == LfeBand::Full,
        sample_rate * i >= LFE_START_HZ * window_size ==> table_entry(window_size, sample_rate, i)
            == LfeBand::Cut,
        table_entry(window_size, sample_rate, j) == LfeBand::Full ==> table_entry(
            window_size,
            sample_rate,
            i,
        ) == LfeBand::Full,
        table_entry(window_size, sample_rate, i) == LfeBand::Cut ==> table_entry(
            window_size,
            sample_rate,
            j,
        ) == LfeBand::Cut,
        table_entry(window_size, sample_rate, i) matches LfeBand::Taper { numerator: n1, denominator: d1 }
            ==> n1 < d1 && (table_entry(window_size, sample_rate, j) matches LfeBand::Taper {
            numerator: n2,
            denominator: d2,
        } ==> d1 == d2 && n1 < n2),
        forall|p: nat|
            window_size / 2 < p < window_size ==> #[trigger] table_entry(window_size, sample_rate, p)
                == table_entry(window_size, sample_rate, (window_size - p) as nat),
{
    lemma_lfe_rolloff(window_size, sample_rate, i, j);
}

/// The low-pass curve rolls off: the DC bin passes at full gain; a bin above
/// a tapered or cut one is never at full gain, and one above a cut bin is
/// cut; across the taper the fraction grows strictly with the bin and stays
/// in `[0, 1)`; from the start cutoff on every bin is cut.
pub proof fn lemma_lfe_rolloff(window_size: nat, sample_rate: nat, b1: nat, b2: nat)
    requires
        0 < window_size <= usize::MAX,
        sample_rate <= usize::MAX,
        b1 < b2,
    ensures
        band_of(0, window_size, sample_rate) == LfeBand::Full,
        band_of(b2, window_size, sample_rate) == LfeBand::Full ==> band_of(b1, window_size, sample_rate)
            == LfeBand::Full,
        band_of(b1, window_size, sample_rate) == LfeBand::Cut ==> band_of(b2, window_size, sample_rate)
            == LfeBand::Cut,
        sample_rate * b1 >= LFE_START_HZ * window_size ==> band_of(b1, window_size, sample_rate)
            == LfeBand::Cut,
        band_of(b1, window_size, sample_rate) matches LfeBand::Taper { numerator, denominator } ==> (
        numerator < denominator),
        band_of(b1, window_size, sample_rate) matches LfeBand::Taper { numerator: n1, denominator: d1 }
            ==> (band_of(b2, window_size, sample_rate) matches LfeBand::Taper {
            numerator: n2,
            denominator: d2,
        } ==> d1 == d2 && n1 < n2),
{
    assert(sample_rate * 0 == 0) by (nonlinear_arith);
    assert(sample_rate * b1 <= sample_rate * b2) by (nonlinear_arith)
        requires b1 < b2;
    if sample_rate > 0 {
        assert(sample_rate * b1 < sample_rate * b2) by (nonlinear_arith)
            requires b1 < b2, sample_rate > 0;
    }
}

} // verus!
