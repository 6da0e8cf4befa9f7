use vstd::prelude::*;

use vstd::relations::sorted_by;
use vstd::relations::total_ordering;
use vstd::seq_lib::lemma_sorted_unique;

use crate::bandpass::Profile;
use crate::error::Error;

verus! {

/// `an / ad < bn / bd`, for rationals with positive denominators.
pub open spec fn rat_lt(an: int, ad: int, bn: int, bd: int) -> bool
    recommends
        ad > 0,
        bd > 0,
{
    an * bd < bn * ad
}

/// `an / ad == bn / bd`, for rationals with positive denominators.
pub open spec fn rat_eq(an: int, ad: int, bn: int, bd: int) -> bool
    recommends
        ad > 0,
        bd > 0,
{
    an * bd == bn * ad
}

/// An exact non-negative rational scalar, `num / den`. Robust statistics of
/// integer-valued profiles are half-integers at worst, so an exact quotient
/// representation keeps the result bit-for-bit reproducible where a float
/// would round.
#[derive(Clone, Copy, Debug, PartialEq, Eq, Structural)]
pub struct Ratio {
    pub num: u128,
    pub den: u128,
}

impl Ratio {
    pub open spec fn wf(&self) -> bool {
        self.den > 0
    }
}

/// The total order the profile totals are ranked by.
pub open spec fn sums_leq() -> spec_fn(u128, u128) -> bool {
    |x: u128, y: u128| x <= y
}

/// The profile totals in ascending order.
pub open spec fn sorted_sums(s: Seq<u128>) -> Seq<u128> {
    s.sort_by(sums_leq())
}

/// `<=` on `u128` is a total ordering.
proof fn lemma_sums_leq_total()
    ensures
        total_ordering(sums_leq()),
{
}

/// What the ascending rearrangement guarantees: same length, same elements
/// with the same multiplicities, ascending order, and every element drawn
/// from the original sequence.
pub proof fn lemma_sorted_sums_ensures(s: Seq<u128>)
    ensures
        sorted_sums(s).len() == s.len(),
        sorted_sums(s).to_multiset() == s.to_multiset(),
        sorted_by(sorted_sums(s), sums_leq()),
        forall|i: int, j: int|
            0 <= i <= j < s.len() ==> #[trigger] sorted_sums(s)[i] <= #[trigger] sorted_sums(s)[j],
        forall|i: int| 0 <= i < s.len() ==> s.contains(#[trigger] sorted_sums(s)[i]),
{
    broadcast use vstd::seq_lib::group_to_multiset_ensures;

    lemma_sums_leq_total();
    s.lemma_sort_by_ensures(sums_leq());
    let t = sorted_sums(s);
    assert(t.to_multiset() == s.to_multiset());
    assert(t.len() == t.to_multiset().len());
    assert(s.len() == s.to_multiset().len());
    assert forall|i: int, j: int| 0 <= i <= j < s.len() implies #[trigger] t[i] <= #[trigger] t[j] by {
        if i < j {
            assert(sums_leq()(t[i], t[j]));
        }
    }
    assert forall|i: int| 0 <= i < s.len() implies s.contains(#[trigger] sorted_sums(s)[i]) by {
        assert(t.contains(t[i]));
        assert(t.to_multiset().count(t[i]) > 0);
        assert(s.to_multiset().count(t[i]) > 0);
        assert(s.contains(t[i]));
    }
}

/// Inserting an element anywhere in a sequence inserts it once into the
/// sequence's multiset.
proof fn lemma_insert_to_multiset(s: Seq<u128>, i: int, a: u128)
    requires
        0 <= i <= s.len(),
    ensures
        s.insert(i, a).to_multiset() == s.to_multiset().insert(a),
{
    broadcast use vstd::seq_lib::group_to_multiset_ensures;
    broadcast use vstd::multiset::group_multiset_axioms;

    let t = s.insert(i, a);
    s.insert_ensures(i, a);
    assert(t.remove(i) =~= s);
    assert(t.remove(i).to_multiset() == t.to_multiset().remove(t[i]));
    assert(t.contains(a));
    assert(t.to_multiset().count(a) > 0);
    assert(t.to_multiset() =~= s.to_multiset().insert(a)) by {
        assert forall|x: u128| t.to_multiset().count(x) == s.to_multiset().insert(a).count(
            x,
        ) by {
            assert(s.to_multiset() == t.to_multiset().remove(a));
        }
    }
}

/// Ranks the values in ascending order. Insertion sort: the profiles this
/// library ranks are one value per frequency channel, short enough that the
/// quadratic worst case is immaterial next to the reduction that feeds it.
fn sort_values(values: &Vec<u128>) -> (out: Vec<u128>)
    ensures
        out@ == sorted_sums(values@),
{
    let mut out: Vec<u128> = Vec::new();
    let mut i: usize = 0;
    proof {
        assert(out@ =~= values@.subrange(0, 0));
    }
    while i < values.len()
        invariant
            i <= values@.len(),
            forall|p: int, q: int| 0 <= p < q < out@.len() ==> #[trigger] out@[p] <= #[trigger] out@[q],
            out@.to_multiset() == values@.subrange(0, i as int).to_multiset(),
            out@.len() == i,
        decreases values@.len() - i,
    {
        let x = values[i];
        let mut pos: usize = 0;
        while pos < out.len() && out[pos] <= x
            invariant
                pos <= out@.len(),
                forall|k: int| 0 <= k < pos ==> #[trigger] out@[k] <= x,
            decreases out@.len() - pos,
        {
            pos = pos + 1;
        }
        let ghost prev = out@;
        out.insert(pos, x);
        proof {
            broadcast use vstd::seq_lib::group_to_multiset_ensures;

            prev.insert_ensures(pos as int, x);
            lemma_insert_to_multiset(prev, pos as int, x);
            assert(values@.subrange(0, i + 1) =~= values@.subrange(0, i as int).push(
                values@[i as int],
            ));
            assert(values@.subrange(0, i + 1).to_multiset() == values@.subrange(
                0,
                i as int,
            ).to_multiset().insert(x));
            let pi = pos as int;
            assert forall|p: int, q: int|
                0 <= p < q < out@.len() implies #[trigger] out@[p] <= #[trigger] out@[q] by {
                if q < pi {
                    assert(out@[p] == prev[p] && out@[q] == prev[q]);
                } else if q == pi {
                    assert(out@[q] == x && out@[p] == prev[p] && prev[p] <= x);
                } else if p == pi {
                    assert(out@[p] == x && out@[q] == prev[q - 1]);
                    assert(pi < prev.len() && x < prev[pi]);
                    assert(prev[pi] <= prev[q - 1]);
                } else if p < pi {
                    assert(out@[p] == prev[p] && out@[q] == prev[q - 1]);
                    assert(prev[p] <= x);
                    assert(pi < prev.len() && x < prev[pi]);
                    assert(prev[pi] <= prev[q - 1]);
                } else {
                    assert(out@[p] == prev[p - 1] && out@[q] == prev[q - 1]);
                }
            }
        }
        i = i + 1;
    }
    proof {
        assert(values@.subrange(0, values@.len() as int) =~= values@);
        lemma_sums_leq_total();
        values@.lemma_sort_by_ensures(sums_leq());
        assert(sorted_by(out@, sums_leq())) by {
            assert forall|p: int, q: int| 0 <= p < q < out@.len() implies sums_leq()(
                out@[p],
                out@[q],
            ) by {
                assert(out@[p] <= out@[q]);
            }
        }
        lemma_sorted_unique(out@, sorted_sums(values@), sums_leq());
    }
    out
}

/// The numerator of the median of a profile's totals over the shared
/// denominator `2 * count`: the sum of the two central order statistics
/// (which coincide for an odd length).
pub open spec fn median_num(s: Seq<u128>) -> int {
    sorted_sums(s)[(s.len() - 1) as int / 2] + sorted_sums(s)[s.len() as int / 2]
}

/// The median of the per-channel means of a profile, exact.
///
/// The means are ranked (their order is the order of the totals, since all
/// share the denominator `count`); an odd-length profile yields the exact
/// central value, an even-length one the arithmetic mean of the two central
/// values — midpoint interpolation. Both cases are the one formula
/// `(low_central + high_central) / (2 * count)`. An empty profile has no
/// median and is rejected; the original order of the profile is untouched.
pub fn median(profile: &Profile) -> (r: Result<Ratio, Error>)
    requires
        profile.wf(),
    ensures
        match r {
            Ok(m) => {
                &&& profile.sums@.len() > 0
                &&& m.wf()
                &&& m.den == 2 * profile.count
                &&& m.num == median_num(profile.sums@)
                &&& m.num <= 2 * (profile.count as int) * 0xffff
            },
            Err(e) => {
                &&& e == Error::EmptyInputError
                &&& profile.sums@.len() == 0
            },
        },
{
    let n = profile.sums.len();
    if n == 0 {
        return Err(Error::EmptyInputError);
    }
    let ranked = sort_values(&profile.sums);
    proof {
        lemma_sorted_sums_ensures(profile.sums@);
        assert forall|i: int| 0 <= i < ranked@.len() implies #[trigger] ranked@[i] <= (
        profile.count as int) * 0xffff by {
            let j = choose|j: int| 0 <= j < profile.sums@.len() && profile.sums@[j] == ranked@[i];
            assert(profile.sums@[j] <= (profile.count as int) * 0xffff);
        }
    }
    let low = ranked[(n - 1) / 2];
    let high = ranked[n / 2];
    Ok(Ratio { num: low + high, den: 2 * (profile.count as u128) })
}

/// For an odd number of channels the midpoint rule degenerates: the two
/// central order statistics coincide, so the median is the exact middle
/// sorted mean, `sorted_sums(sums)[len / 2] / count`, with no interpolation.
pub proof fn lemma_median_odd_is_middle(sums: Seq<u128>, count: u64, m: Ratio)
    requires
        count > 0,
        sums.len() % 2 == 1,
        m.den == 2 * count,
        m.num == median_num(sums),
    ensures
        m.num == 2 * sorted_sums(sums)[sums.len() as int / 2],
        rat_eq(
            m.num as int,
            m.den as int,
            sorted_sums(sums)[sums.len() as int / 2] as int,
            count as int,
        ),
{
    assert((sums.len() - 1) as int / 2 == sums.len() as int / 2);
    let mid = sorted_sums(sums)[sums.len() as int / 2] as int;
    assert((2 * mid) * (count as int) == mid * (2 * (count as int))) by (nonlinear_arith);
}

} // verus!
