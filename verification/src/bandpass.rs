use vstd::prelude::*;

use crate::error::Error;
use crate::view::SpectraView;

verus! {

/// The sum of channel `c` over the first `rows` time samples of a row-major
/// buffer with `channels` columns.
pub open spec fn channel_sum(data: Seq<u16>, channels: int, rows: int, c: int) -> int
    recommends
        channels > 0,
        0 <= c < channels,
        rows * channels <= data.len(),
    decreases rows,
{
    if rows <= 0 {
        0
    } else {
        channel_sum(data, channels, rows - 1, c) + data[(rows - 1) * channels + c]
    }
}

/// All channel sums of a buffer of `rows` time samples, as one sequence of
/// length `channels`.
pub open spec fn channel_sums(data: Seq<u16>, channels: int, rows: int) -> Seq<u128> {
    Seq::new(channels as nat, |c: int| channel_sum(data, channels, rows, c) as u128)
}

/// The per-channel power profile: the arithmetic mean of every frequency
/// channel across all time samples, kept exact. The mean of channel `c` is
/// the rational number `sums[c] / count`; holding the numerators and the
/// shared denominator instead of a quotient loses nothing and avoids any
/// rounding before the median and threshold steps.
pub struct Profile {
    /// Per-channel totals across the time axis.
    pub sums: Vec<u128>,
    /// Number of time samples each total was accumulated over.
    pub count: u64,
}

impl Profile {
    /// A profile of means of `u16` samples: a positive sample count, and no
    /// total larger than `count` samples of the maximal value could reach.
    pub open spec fn wf(&self) -> bool {
        &&& self.count > 0
        &&& forall|i: int|
            0 <= i < self.sums@.len() ==> #[trigger] self.sums@[i] <= (self.count as int) * 0xffff
    }

    /// Number of channels the profile covers.
    pub fn len(&self) -> (r: usize)
        ensures
            r == self.sums@.len(),
    {
        self.sums.len()
    }
}

/// The channel sum grows by at most the maximal sample per row.
pub proof fn lemma_channel_sum_bound(data: Seq<u16>, channels: int, rows: int, c: int)
    requires
        channels > 0,
        0 <= c < channels,
        rows >= 0,
    ensures
        0 <= channel_sum(data, channels, rows, c) <= rows * 0xffff,
    decreases rows,
{
    if rows > 0 {
        lemma_channel_sum_bound(data, channels, rows - 1, c);
    }
}

/// Computes the bandpass of the spectra: the mean power of each frequency
/// channel across the time axis, exact, as a [`Profile`]. Fails on a view
/// with zero time samples, where a mean is undefined, rather than yield NaN
/// or a zero fill. Because the buffer is sample-major, each channel is
/// accumulated with a strided walk down the time axis; that access pattern,
/// not the arithmetic, is the anticipated throughput bottleneck.
pub fn bandpass(spectra: &SpectraView) -> (r: Result<Profile, Error>)
    requires
        spectra.wf(),
    ensures
        match r {
            Ok(profile) => {
                &&& spectra.spec_samples() > 0
                &&& profile.wf()
                &&& profile.count == spectra.spec_samples()
                &&& profile.sums@ == channel_sums(
                    spectra.view_data(),
                    spectra.spec_channels(),
                    spectra.spec_samples(),
                )
                &&& profile.sums@.len() == spectra.spec_channels()
            },
            Err(e) => {
                &&& e == Error::EmptyInputError
                &&& spectra.spec_samples() == 0
            },
        },
{
    let samples = spectra.samples();
    let channels = spectra.channels();
    if samples == 0 {
        return Err(Error::EmptyInputError);
    }
    let mut sums: Vec<u128> = Vec::new();
    let mut c: usize = 0;
    while c < channels
        invariant
            spectra.wf(),
            samples == spectra.spec_samples(),
            channels == spectra.spec_channels(),
            samples > 0,
            c <= channels,
            sums@.len() == c,
            forall|j: int|
                0 <= j < c ==> #[trigger] sums@[j] == channel_sum(
                    spectra.view_data(),
                    channels as int,
                    samples as int,
                    j,
                ),
        decreases channels - c,
    {
        let mut total: u128 = 0;
        let mut s: usize = 0;
        while s < samples
            invariant
                spectra.wf(),
                samples == spectra.spec_samples(),
                channels == spectra.spec_channels(),
                c < channels,
                s <= samples,
                total == channel_sum(spectra.view_data(), channels as int, s as int, c as int),
                total <= (s as int) * 0xffff,
            decreases samples - s,
        {
            total = total + spectra.at(s, c) as u128;
            s = s + 1;
        }
        sums.push(total);
        c = c + 1;
    }
    proof {
        assert(sums@ =~= channel_sums(
            spectra.view_data(),
            spectra.spec_channels(),
            spectra.spec_samples(),
        ));
        assert forall|i: int| 0 <= i < sums@.len() implies #[trigger] sums@[i] <= (
        samples as int) * 0xffff by {
            lemma_channel_sum_bound(
                spectra.view_data(),
                spectra.spec_channels(),
                spectra.spec_samples(),
                i,
            );
        }
    }
    Ok(Profile { sums, count: samples as u64 })
}

/// One time sample's row: the `channels` consecutive elements of sample `s`.
pub open spec fn sample_row(data: Seq<u16>, channels: int, s: int) -> Seq<u16>
    recommends
        channels > 0,
        0 <= s,
        (s + 1) * channels <= data.len(),
{
    data.subrange(s * channels, (s + 1) * channels)
}

/// `p` rearranges the indices `0 .. n`: every entry is such an index, and no
/// two entries coincide.
pub open spec fn index_permutation(p: Seq<int>, n: int) -> bool {
    &&& p.len() == n
    &&& forall|i: int| 0 <= i < n ==> 0 <= #[trigger] p[i] < n
    &&& forall|i: int, j: int| 0 <= i < j < n ==> p[i] != p[j]
}

/// The sum of a sequence of integers.
spec fn seq_sum(q: Seq<int>) -> int
    decreases q.len(),
{
    if q.len() == 0 {
        0
    } else {
        seq_sum(q.drop_last()) + q.last()
    }
}

/// Channel `c` down the time axis, as the sequence of its samples.
spec fn channel_values(data: Seq<u16>, channels: int, rows: int, c: int) -> Seq<int> {
    Seq::new(rows as nat, |s: int| data[s * channels + c] as int)
}

/// Taking one element out of a sequence takes exactly its value out of the
/// sum.
proof fn lemma_seq_sum_remove(q: Seq<int>, k: int)
    requires
        0 <= k < q.len(),
    ensures
        seq_sum(q) == seq_sum(q.remove(k)) + q[k],
    decreases q.len(),
{
    q.remove_ensures(k);
    if k == q.len() - 1 {
        assert(q.remove(k) =~= q.drop_last());
    } else {
        let shorter = q.drop_last();
        lemma_seq_sum_remove(shorter, k);
        assert(q.remove(k).drop_last() =~= shorter.remove(k));
        assert(q.remove(k).last() == q.last());
    }
}

/// A sum is invariant under rearrangement: if `permuted[i] == q[p[i]]` for a
/// permutation `p`, both sequences add up to the same value.
proof fn lemma_seq_sum_permuted(q: Seq<int>, permuted: Seq<int>, p: Seq<int>)
    requires
        index_permutation(p, q.len() as int),
        permuted.len() == q.len(),
        forall|i: int| 0 <= i < permuted.len() ==> #[trigger] permuted[i] == q[p[i]],
    ensures
        seq_sum(permuted) == seq_sum(q),
    decreases q.len(),
{
    let n = q.len() as int;
    if n > 0 {
        let k = p[n - 1];
        let q_rest = q.remove(k);
        let permuted_rest = permuted.drop_last();
        let p_rest = Seq::new(
            (n - 1) as nat,
            |i: int|
                if p[i] < k {
                    p[i]
                } else {
                    p[i] - 1
                },
        );
        q.remove_ensures(k);
        assert(index_permutation(p_rest, n - 1)) by {
            assert forall|i: int| 0 <= i < n - 1 implies 0 <= #[trigger] p_rest[i] < n - 1 by {
                assert(p[i] != p[n - 1]);
            }
            assert forall|i: int, j: int| 0 <= i < j < n - 1 implies p_rest[i] != p_rest[j] by {
                assert(p[i] != p[j]);
            }
        }
        assert forall|i: int| 0 <= i < n - 1 implies #[trigger] permuted_rest[i] == q_rest[p_rest[i]] by {
            assert(permuted[i] == q[p[i]]);
            assert(p[i] != p[n - 1]);
        }
        lemma_seq_sum_permuted(q_rest, permuted_rest, p_rest);
        lemma_seq_sum_remove(q, k);
        assert(permuted.last() == q[k]);
    }
}

/// The recursive channel sum is the sum of that channel's sample sequence.
proof fn lemma_channel_sum_as_seq_sum(data: Seq<u16>, channels: int, rows: int, c: int)
    requires
        rows >= 0,
    ensures
        channel_sum(data, channels, rows, c) == seq_sum(channel_values(data, channels, rows, c)),
    decreases rows,
{
    if rows > 0 {
        lemma_channel_sum_as_seq_sum(data, channels, rows - 1, c);
        assert(channel_values(data, channels, rows, c).drop_last() =~= channel_values(
            data,
            channels,
            rows - 1,
            c,
        ));
    }
}

/// A whole row lies inside the buffer.
proof fn lemma_row_in_bounds(rows: int, channels: int, s: int)
    by (nonlinear_arith)
    requires
        channels > 0,
        0 <= s < rows,
    ensures
        0 <= s * channels,
        (s + 1) * channels == s * channels + channels,
        (s + 1) * channels <= rows * channels,
{
}

/// A one-sample view's bandpass is exactly its single row: each channel's
/// total is the lone sample, over a count of one, so each mean equals the
/// sample itself.
pub proof fn lemma_bandpass_single_sample(data: Seq<u16>, channels: int)
    requires
        channels > 0,
        data.len() == channels,
    ensures
        forall|c: int| 0 <= c < channels ==> channel_sum(data, channels, 1, c) == data[c],
{
    assert forall|c: int| 0 <= c < channels implies channel_sum(data, channels, 1, c) == data[c] by {
        assert(channel_sum(data, channels, 0, c) == 0);
    }
}

/// Shuffling the time samples does not change the bandpass: where the rows of
/// `shuffled` are the rows of `data` rearranged by a permutation, every
/// channel keeps its sum, and with an unchanged sample count its mean too.
pub proof fn lemma_bandpass_row_permutation(
    data: Seq<u16>,
    shuffled: Seq<u16>,
    channels: int,
    rows: int,
    p: Seq<int>,
)
    requires
        channels > 0,
        rows >= 0,
        data.len() == rows * channels,
        shuffled.len() == rows * channels,
        index_permutation(p, rows),
        forall|s: int|
            0 <= s < rows ==> #[trigger] sample_row(shuffled, channels, s) == sample_row(
                data,
                channels,
                p[s],
            ),
    ensures
        channel_sums(shuffled, channels, rows) == channel_sums(data, channels, rows),
{
    assert forall|c: int| 0 <= c < channels implies channel_sum(shuffled, channels, rows, c)
        == channel_sum(data, channels, rows, c) by {
        let original = channel_values(data, channels, rows, c);
        let permuted = channel_values(shuffled, channels, rows, c);
        assert forall|s: int| 0 <= s < rows implies #[trigger] permuted[s] == original[p[s]] by {
            lemma_row_in_bounds(rows, channels, s);
            lemma_row_in_bounds(rows, channels, p[s]);
            assert(sample_row(shuffled, channels, s)[c] == shuffled[s * channels + c]);
            assert(sample_row(data, channels, p[s])[c] == data[p[s] * channels + c]);
        }
        lemma_seq_sum_permuted(original, permuted, p);
        lemma_channel_sum_as_seq_sum(data, channels, rows, c);
        lemma_channel_sum_as_seq_sum(shuffled, channels, rows, c);
    }
    assert(channel_sums(shuffled, channels, rows) =~= channel_sums(data, channels, rows));
}

/// Shuffling the channels permutes the bandpass identically: where column `c`
/// of `shuffled` is column `p[c]` of `data` in every time sample, channel `c`
/// of the shuffled bandpass is channel `p[c]` of the original.
pub proof fn lemma_bandpass_column_permutation(
    data: Seq<u16>,
    shuffled: Seq<u16>,
    channels: int,
    rows: int,
    p: Seq<int>,
)
    requires
        channels > 0,
        rows >= 0,
        data.len() == rows * channels,
        shuffled.len() == rows * channels,
        index_permutation(p, channels),
        forall|s: int, c: int|
            0 <= s < rows && 0 <= c < channels ==> #[trigger] shuffled[s * channels + c] == data[s
                * channels + p[c]],
    ensures
        forall|c: int|
            0 <= c < channels ==> channel_sum(shuffled, channels, rows, c) == channel_sum(
                data,
                channels,
                rows,
                #[trigger] p[c],
            ),
{
    assert forall|c: int| 0 <= c < channels implies channel_sum(shuffled, channels, rows, c)
        == channel_sum(data, channels, rows, #[trigger] p[c]) by {
        lemma_column_sum_permuted(data, shuffled, channels, rows, rows, c, p[c]);
    }
}

/// Column-permutation helper: one channel of the shuffled buffer sums as the
/// matching channel of the original, row by row.
proof fn lemma_column_sum_permuted(
    data: Seq<u16>,
    shuffled: Seq<u16>,
    channels: int,
    rows: int,
    k: int,
    c: int,
    pc: int,
)
    requires
        0 <= k <= rows,
        forall|s: int|
            0 <= s < rows ==> #[trigger] shuffled[s * channels + c] == data[s * channels + pc],
    ensures
        channel_sum(shuffled, channels, k, c) == channel_sum(data, channels, k, pc),
    decreases k,
{
    if k > 0 {
        lemma_column_sum_permuted(data, shuffled, channels, rows, k - 1, c, pc);
    }
}

} // verus!
