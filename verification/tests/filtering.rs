use spectral_mask::bandpass;
use spectral_mask::median;
use spectral_mask::to_spectra;
use spectral_mask::Error;
use spectral_mask::Filter;
use spectral_mask::Profile;
use spectral_mask::Ratio;
use spectral_mask::Tolerance;
use spectral_mask::Tsys;

#[test]
fn median_odd_is_middle_value() {
    let profile = Profile { sums: vec![9, 1, 5], count: 1 };
    let m = median(&profile).unwrap();
    assert_eq!(m, Ratio { num: 10, den: 2 });
    assert_eq!(m.num as f64 / m.den as f64, 5.0);
}

#[test]
fn median_even_uses_midpoint() {
    let profile = Profile { sums: vec![1, 2, 3, 4], count: 1 };
    let m = median(&profile).unwrap();
    assert_eq!(m, Ratio { num: 5, den: 2 });
    assert_eq!(m.num as f64 / m.den as f64, 2.5);
}

#[test]
fn median_rejects_empty_profile() {
    let profile = Profile { sums: Vec::new(), count: 1 };
    assert!(matches!(median(&profile), Err(Error::EmptyInputError)));
}

#[test]
fn tsys_compares_against_exact_median() {
    // profile [1, 2, 3, 4], tolerance 1/2: the exact median is 2.5, the
    // threshold 1.25, and only the mean 1 lies strictly below it — a
    // truncating integer median (2, threshold 1) would keep every channel
    let profile = Profile { sums: vec![1, 2, 3, 4], count: 1 };
    let filter = Tsys { tolerance: Tolerance { num: 1, den: 2 } };
    let m = median(&profile).unwrap();
    assert_eq!(m, Ratio { num: 5, den: 2 });
    let flags = filter.profile_flags(&profile).unwrap();
    assert_eq!(flags, vec![true, false, false, false]);
}

#[test]
fn tsys_flags_channel_below_threshold() {
    // means [0.5, 2, 3, 4] held as totals over two samples; median 2.5,
    // threshold 1.25, and only the first mean lies below it
    let profile = Profile { sums: vec![1, 4, 6, 8], count: 2 };
    let filter = Tsys { tolerance: Tolerance { num: 1, den: 2 } };
    let m = median(&profile).unwrap();
    assert_eq!(m.num as f64 / m.den as f64, 2.5);
    let flags = filter.profile_flags(&profile).unwrap();
    assert_eq!(flags, vec![true, false, false, false]);
}

#[test]
fn tsys_threshold_is_strict() {
    // tolerance 2/5 of median 2.5 is exactly 1.0: the mean equal to the
    // threshold is kept, only a strictly lower one would be flagged
    let profile = Profile { sums: vec![1, 2, 3, 4], count: 1 };
    let filter = Tsys { tolerance: Tolerance { num: 2, den: 5 } };
    let flags = filter.profile_flags(&profile).unwrap();
    assert_eq!(flags, vec![false, false, false, false]);
}

#[test]
fn tsys_rejects_empty_profile() {
    let profile = Profile { sums: Vec::new(), count: 1 };
    let filter = Tsys { tolerance: Tolerance { num: 1, den: 2 } };
    assert!(matches!(filter.profile_flags(&profile), Err(Error::EmptyInputError)));
}

#[test]
fn mask_flags_cold_channel_across_pipeline() {
    // means [0, 20, 30, 40], median 25, threshold 12.5: channel 0 is cold
    let raw: Vec<u16> = vec![0, 20, 30, 40, 0, 20, 30, 40];
    let view = to_spectra(&raw, 4).unwrap();
    let filter = Tsys { tolerance: Tolerance { num: 1, den: 2 } };
    let flags = filter.mask(&view).unwrap();
    assert_eq!(flags, vec![true, false, false, false]);
}

#[test]
fn mask_is_repeatable() {
    let raw: Vec<u16> = vec![0, 20, 30, 40, 0, 20, 30, 40];
    let view = to_spectra(&raw, 4).unwrap();
    let filter = Tsys { tolerance: Tolerance { num: 1, den: 2 } };
    let first = filter.mask(&view).unwrap();
    let second = filter.mask(&view).unwrap();
    assert_eq!(first, second);
}

#[test]
fn mask_propagates_empty_input() {
    let raw: Vec<u16> = Vec::new();
    let view = to_spectra(&raw, 3).unwrap();
    let filter = Tsys { tolerance: Tolerance { num: 1, den: 2 } };
    assert!(matches!(filter.mask(&view), Err(Error::EmptyInputError)));
}

#[test]
fn bandpass_handles_maximal_samples() {
    let raw: Vec<u16> = vec![65535; 8];
    let bp = bandpass(&to_spectra(&raw, 4).unwrap()).unwrap();
    assert_eq!(bp.sums, vec![131070u128; 4]);
    let filter = Tsys { tolerance: Tolerance { num: 1, den: 1 } };
    let flags = filter.profile_flags(&bp).unwrap();
    assert_eq!(flags, vec![false; 4]);
}
