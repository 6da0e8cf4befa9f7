use spectral_mask::bandpass;
use spectral_mask::to_spectra;
use spectral_mask::Error;

#[test]
fn test_to_spectra() {
    let spectra = vec![0u16; 2048 * 16384];
    let view = to_spectra(&spectra, 2048).unwrap();
    assert_eq!(view.channels(), 2048);
    assert_eq!(view.samples(), 16384);
}

#[test]
fn test_bandpass() {
    let raw: Vec<u16> = vec![1, 2, 3, 4, 1, 2, 3, 4, 1, 2, 3, 4];
    let spectra = to_spectra(&raw, 4).unwrap();
    let bp = bandpass(&spectra).unwrap();
    // the means are exactly [1, 2, 3, 4]
    assert_eq!(bp.len(), 4);
    assert_eq!(bp.count, 3);
    assert_eq!(bp.sums, vec![3u128, 6, 9, 12]);
    for (c, expected) in [1u128, 2, 3, 4].iter().enumerate() {
        assert_eq!(bp.sums[c], expected * bp.count as u128);
    }
}

#[test]
fn reshape_round_trips_any_divisor() {
    let buffer: Vec<u16> = (0u16..12).collect();
    for channels in [1usize, 2, 3, 4, 6, 12] {
        let view = to_spectra(&buffer, channels).unwrap();
        assert_eq!(view.channels(), channels);
        assert_eq!(view.samples(), 12 / channels);
        for s in 0..view.samples() {
            for c in 0..channels {
                assert_eq!(view.at(s, c), buffer[s * channels + c]);
            }
        }
    }
}

#[test]
fn to_spectra_rejects_indivisible_length() {
    let raw: Vec<u16> = vec![0; 5];
    assert!(matches!(to_spectra(&raw, 4), Err(Error::ShapeError)));
    assert!(matches!(to_spectra(&raw, 0), Err(Error::ShapeError)));
}

#[test]
fn bandpass_single_sample_is_row() {
    let raw: Vec<u16> = vec![7, 0, 65535, 3];
    let view = to_spectra(&raw, 4).unwrap();
    let bp = bandpass(&view).unwrap();
    assert_eq!(bp.count, 1);
    assert_eq!(bp.sums, vec![7u128, 0, 65535, 3]);
}

#[test]
fn bandpass_row_shuffle_invariant() {
    let original: Vec<u16> = vec![1, 2, 9, 8, 5, 5];
    let shuffled: Vec<u16> = vec![5, 5, 1, 2, 9, 8];
    let bp_original = bandpass(&to_spectra(&original, 2).unwrap()).unwrap();
    let bp_shuffled = bandpass(&to_spectra(&shuffled, 2).unwrap()).unwrap();
    assert_eq!(bp_original.sums, bp_shuffled.sums);
    assert_eq!(bp_original.count, bp_shuffled.count);
}

#[test]
fn bandpass_column_shuffle_permutes_profile() {
    let original: Vec<u16> = vec![1, 2, 3, 4, 5, 6];
    // column c of the shuffled buffer is column [2, 0, 1][c] of the original
    let shuffled: Vec<u16> = vec![3, 1, 2, 6, 4, 5];
    let bp_original = bandpass(&to_spectra(&original, 3).unwrap()).unwrap();
    let bp_shuffled = bandpass(&to_spectra(&shuffled, 3).unwrap()).unwrap();
    let expected = vec![bp_original.sums[2], bp_original.sums[0], bp_original.sums[1]];
    assert_eq!(bp_shuffled.sums, expected);
}

#[test]
fn bandpass_rejects_zero_samples() {
    let raw: Vec<u16> = Vec::new();
    let view = to_spectra(&raw, 4).unwrap();
    assert_eq!(view.samples(), 0);
    assert!(matches!(bandpass(&view), Err(Error::EmptyInputError)));
}

#[test]
fn error_descriptions() {
    assert_eq!(
        Error::ShapeError.describe(),
        "buffer length is incompatible with the channel count"
    );
    assert_eq!(Error::EmptyInputError.describe(), "input holds no elements");
}
