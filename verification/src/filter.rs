use vstd::prelude::*;

use crate::bandpass::bandpass;
use crate::bandpass::channel_sum;
use crate::bandpass::channel_sums;
use crate::bandpass::lemma_channel_sum_bound;
use crate::bandpass::Profile;
use crate::error::Error;
use crate::stats::median;
use crate::stats::median_num;
use crate::stats::rat_lt;
use crate::view::SpectraView;

verus! {

/// What fraction of the median bandpass power a channel must reach to be
/// kept, as an exact rational `num / den`. A value in `(0, 1]` clips
/// channels whose power falls below that fraction of the median.
#[derive(Clone, Copy, Debug, PartialEq, Eq, Structural)]
pub struct Tolerance {
    pub num: u32,
    pub den: u32,
}

impl Tolerance {
    pub open spec fn wf(&self) -> bool {
        self.den > 0
    }
}

/// The capability a filter offers: given a view of spectral data, produce a
/// boolean mask, one decision per frequency channel, where `true` means the
/// channel should be excluded downstream. The mask convention here is
/// one-dimensional — a single decision per channel, not a grid broadcast
/// over the time axis; callers that gate per-sample data apply `flags[c]` to
/// every sample of channel `c`. A filter never mutates its input, and its
/// result is a function of the view's contents and the filter's own
/// configuration alone, so repeated invocation returns the same mask.
pub trait Filter {
    /// Configuration the filter needs to be meaningful (for instance, a
    /// tolerance with a nonzero denominator).
    spec fn wf(&self) -> bool;

    fn mask(&self, spectra: &SpectraView) -> (r: Result<Vec<bool>, Error>)
        requires
            self.wf(),
            spectra.wf(),
        ensures
            (r matches Ok(flags) ==> flags@.len() == spectra.spec_channels()),
    ;
}

/// The per-channel decision of the system-temperature filter: flag channel
/// `c` exactly when its mean power `sum / count` lies strictly below
/// `tolerance * median`, where the median is the rational
/// `med_num / med_den`. The strict "less than" direction is deliberate:
/// anomalously cold channels (attenuated receivers, bandpass edges) are
/// flagged, not hot interference spikes.
pub open spec fn tsys_flag(tol: Tolerance, sum: int, count: int, med_num: int, med_den: int) -> bool
    recommends
        tol.wf(),
        count > 0,
        med_den > 0,
{
    rat_lt(sum, count, tol.num * med_num, tol.den * med_den)
}

/// A filter that clips channels whose system-temperature proxy — the mean
/// bandpass power — falls below `tolerance` times the median of all channel
/// means. Immutable once constructed; holds no other state.
pub struct Tsys {
    pub tolerance: Tolerance,
}

/// The integer comparison the implementation runs is the rational comparison
/// the contract speaks of, and neither side overflows.
proof fn lemma_flag_compare(sum: int, count: int, tn: int, td: int, mnum: int)
    by (nonlinear_arith)
    requires
        0 < count <= 0xffff_ffff_ffff_ffff,
        0 <= sum <= count * 0xffff,
        0 < td <= 0xffff_ffff,
        0 <= tn <= 0xffff_ffff,
        0 <= mnum <= 2 * count * 0xffff,
    ensures
        0 <= sum * td * 2 < u128::MAX,
        0 <= tn * mnum < u128::MAX,
        (sum * td * 2 < tn * mnum) <==> rat_lt(sum, count, tn * mnum, td * (2 * count)),
{
}

impl Tsys {
    /// The per-channel decisions for an already-computed power profile:
    /// `flags[c]` is `true` exactly when the mean of channel `c` lies
    /// strictly below `tolerance` times the median of the profile's means.
    /// An empty profile has no median and is rejected.
    pub fn profile_flags(&self, profile: &Profile) -> (r: Result<Vec<bool>, Error>)
        requires
            self.tolerance.wf(),
            profile.wf(),
        ensures
            match r {
                Ok(flags) => {
                    &&& profile.sums@.len() > 0
                    &&& flags@.len() == profile.sums@.len()
                    &&& forall|c: int|
                        0 <= c < flags@.len() ==> #[trigger] flags@[c] == tsys_flag(
                            self.tolerance,
                            profile.sums@[c] as int,
                            profile.count as int,
                            median_num(profile.sums@),
                            2 * (profile.count as int),
                        )
                },
                Err(e) => {
                    &&& e == Error::EmptyInputError
                    &&& profile.sums@.len() == 0
                },
            },
    {
        let med = match median(profile) {
            Ok(m) => m,
            Err(e) => {
                return Err(e);
            },
        };
        let n = profile.sums.len();
        let tn = self.tolerance.num as u128;
        let td = self.tolerance.den as u128;
        let mut flags: Vec<bool> = Vec::new();
        let mut c: usize = 0;
        while c < n
            invariant
                n == profile.sums@.len(),
                profile.wf(),
                self.tolerance.wf(),
                tn == self.tolerance.num,
                td == self.tolerance.den,
                med.num == median_num(profile.sums@),
                med.num <= 2 * (profile.count as int) * 0xffff,
                c <= n,
                flags@.len() == c,
                forall|j: int|
                    0 <= j < c ==> #[trigger] flags@[j] == tsys_flag(
                        self.tolerance,
                        profile.sums@[j] as int,
                        profile.count as int,
                        median_num(profile.sums@),
                        2 * (profile.count as int),
                    ),
            decreases n - c,
        {
            proof {
                lemma_flag_compare(
                    profile.sums@[c as int] as int,
                    profile.count as int,
                    tn as int,
                    td as int,
                    med.num as int,
                );
            }
            let flag = profile.sums[c] * td * 2 < tn * med.num;
            flags.push(flag);
            c = c + 1;
        }
        Ok(flags)
    }
}

impl Filter for Tsys {
    open spec fn wf(&self) -> bool {
        self.tolerance.wf()
    }

    /// Flags every frequency channel whose mean power across the time axis
    /// falls strictly below `tolerance` times the median of all channel
    /// means. Propagates the reduction's failure on a view with zero time
    /// samples; the median itself cannot fail here, since a well-formed view
    /// has at least one channel.
    fn mask(&self, spectra: &SpectraView) -> (r: Result<Vec<bool>, Error>)
        ensures
            match r {
                Ok(flags) => {
                    &&& spectra.spec_samples() > 0
                    &&& flags@.len() == spectra.spec_channels()
                    &&& forall|c: int|
                        0 <= c < flags@.len() ==> #[trigger] flags@[c] == tsys_flag(
                            self.tolerance,
                            channel_sum(
                                spectra.view_data(),
                                spectra.spec_channels(),
                                spectra.spec_samples(),
                                c,
                            ),
                            spectra.spec_samples(),
                            median_num(
                                channel_sums(
                                    spectra.view_data(),
                                    spectra.spec_channels(),
                                    spectra.spec_samples(),
                                ),
                            ),
                            2 * spectra.spec_samples(),
                        )
                },
                Err(e) => {
                    &&& e == Error::EmptyInputError
                    &&& spectra.spec_samples() == 0
                },
            },
    {
        let profile = match bandpass(spectra) {
            Ok(p) => p,
            Err(e) => {
                return Err(e);
            },
        };
        let r = self.profile_flags(&profile);
        proof {
            if r is Ok {
                let flags = r->Ok_0;
                assert forall|c: int| 0 <= c < flags@.len() implies #[trigger] flags@[c]
                    == tsys_flag(
                    self.tolerance,
                    channel_sum(
                        spectra.view_data(),
                        spectra.spec_channels(),
                        spectra.spec_samples(),
                        c,
                    ),
                    spectra.spec_samples(),
                    median_num(
                        channel_sums(
                            spectra.view_data(),
                            spectra.spec_channels(),
                            spectra.spec_samples(),
                        ),
                    ),
                    2 * spectra.spec_samples(),
                ) by {
                    lemma_channel_sum_bound(
                        spectra.view_data(),
                        spectra.spec_channels(),
                        spectra.spec_samples(),
                        c,
                    );
                    assert(profile.sums@[c] as int == channel_sum(
                        spectra.view_data(),
                        spectra.spec_channels(),
                        spectra.spec_samples(),
                        c,
                    ));
                }
            }
        }
        r
    }
}

} // verus!
