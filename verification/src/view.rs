use vstd::prelude::*;

use crate::error::Error;

verus! {

/// A non-owning, read-only two-dimensional view over a contiguous buffer of
/// samples: `samples` rows of time samples, each row holding `channels`
/// consecutive frequency channels (row-major, sample-major outer and
/// channel-minor inner). The view never copies nor mutates the buffer; it is
/// a reinterpretation only, valid while the buffer outlives it.
pub struct SpectraView<'a> {
    data: &'a [u16],
    channels: usize,
    samples: usize,
}

impl<'a> SpectraView<'a> {
    /// The backing buffer, as a sequence.
    pub closed spec fn view_data(&self) -> Seq<u16> {
        self.data@
    }

    /// Number of frequency channels (columns).
    pub closed spec fn spec_channels(&self) -> int {
        self.channels as int
    }

    /// Number of time samples (rows).
    pub closed spec fn spec_samples(&self) -> int {
        self.samples as int
    }

    /// Shape consistency: a positive channel count, and a buffer that holds
    /// exactly `samples * channels` elements.
    pub open spec fn wf(&self) -> bool {
        &&& self.spec_channels() > 0
        &&& self.view_data().len() == self.spec_samples() * self.spec_channels()
    }

    /// The element at time sample `s`, frequency channel `c`.
    pub open spec fn spec_at(&self, s: int, c: int) -> u16
        recommends
            0 <= s < self.spec_samples(),
            0 <= c < self.spec_channels(),
    {
        self.view_data()[s * self.spec_channels() + c]
    }

    pub fn channels(&self) -> (r: usize)
        ensures
            r == self.spec_channels(),
    {
        self.channels
    }

    pub fn samples(&self) -> (r: usize)
        ensures
            r == self.spec_samples(),
    {
        self.samples
    }

    /// Read one element. The buffer is addressed row-major, so walking one
    /// channel down the time axis is a strided access.
    pub fn at(&self, s: usize, c: usize) -> (r: u16)
        requires
            self.wf(),
            s < self.spec_samples(),
            c < self.spec_channels(),
        ensures
            r == self.spec_at(s as int, c as int),
    {
        let len = self.data.len();
        proof {
            lemma_row_major_in_bounds(
                self.spec_samples(),
                self.spec_channels(),
                s as int,
                c as int,
            );
            assert(s * self.spec_channels() + c < len);
        }
        self.data[s * self.channels + c]
    }
}

/// A row-major index stays inside the buffer.
proof fn lemma_row_major_in_bounds(samples: int, channels: int, s: int, c: int)
    by (nonlinear_arith)
    requires
        0 <= s < samples,
        0 <= c < channels,
    ensures
        0 <= s * channels + c < samples * channels,
{
}

/// Reinterprets a caller-owned buffer of raw measurements as a
/// two-dimensional view of `length / channels` time samples by `channels`
/// frequency channels, without copying. A length that `channels` does not
/// divide evenly is rejected outright rather than truncated, as is a zero
/// channel count.
pub fn to_spectra<'a>(raw_spectra: &'a [u16], channels: usize) -> (r: Result<
    SpectraView<'a>,
    Error,
>)
    ensures
        match r {
            Ok(view) => {
                &&& channels > 0
                &&& raw_spectra@.len() as int % (channels as int) == 0
                &&& view.wf()
                &&& view.spec_channels() == channels
                &&& view.spec_samples() == raw_spectra@.len() as int / (channels as int)
                &&& view.view_data() == raw_spectra@
            },
            Err(e) => {
                &&& e == Error::ShapeError
                &&& (channels == 0 || raw_spectra@.len() as int % (channels as int) != 0)
            },
        },
{
    if channels == 0 {
        return Err(Error::ShapeError);
    }
    let len = raw_spectra.len();
    if len % channels != 0 {
        return Err(Error::ShapeError);
    }
    let samples = len / channels;
    proof {
        assert(samples * channels == len as int) by (nonlinear_arith)
            requires
                channels > 0,
                len as int % channels as int == 0,
                samples == len as int / channels as int,
        ;
    }
    Ok(SpectraView { data: raw_spectra, channels, samples })
}

} // verus!
