use lowpass_filter::{
    apply_lpf_i16_dp, apply_lpf_i16_sp, apply_lpf_i32, apply_lpf_i32_dp, apply_lpf_i32_sp, Alpha,
    Filter, LowpassFilter, Precision,
};

/// Two seconds of a full-scale sine tone, as 16-bit samples.
fn sine_wave_samples(fr: f64, sampling_rate: f64) -> Vec<i16> {
    (0..(2 * sampling_rate as usize))
        .map(|x| x as f64 / sampling_rate)
        .map(|t| (2.0 * std::f64::consts::PI * fr * t).sin())
        .map(|v| (v * i16::MAX as f64) as i16)
        .collect()
}

/// Sum of the squared samples, normalised to `[-1, 1]`.
fn calculate_power(samples: &[i16]) -> f64 {
    samples
        .iter()
        .map(|x| *x as f64 / i16::MAX as f64)
        .map(|x| x * x)
        .sum()
}

/// `alpha * x` rounded toward zero, from the factor's exact fraction.
fn scaled(alpha: &Alpha, x: i128) -> i128 {
    x * alpha.numerator() as i128 / alpha.denominator() as i128
}

#[test]
fn test_fo_lw_filter_generic_types_compile() {
    let samples_i32 = [2, -2, 2, -2, 4, -4, 6, -6];
    let samples_f32 = [2.0_f32, -2.0, 2.0, -2.0, 4.0, -4.0, 6.0, -6.0];
    let samples_f64 = [2.0_f64, -2.0, 2.0, -2.0, 4.0, -4.0, 6.0, -6.0];
    let from_f32: Vec<i32> = samples_f32.iter().map(|x| *x as i32).collect();
    let from_f64: Vec<i32> = samples_f64.iter().map(|x| *x as i32).collect();
    let single = Filter { precision: Precision::Single };
    let double = Filter { precision: Precision::Double };
    // the running value is not rounded to whole samples between steps
    let expected = vec![0, 1, 1, 1, 1, 1, 1, 1];
    assert_eq!(single.apply(&from_f64, 44100, 120), expected);
    assert_eq!(single.apply(&samples_i32, 44100, 120), expected);
    assert_eq!(double.apply(&from_f32, 44100, 120), expected);
    assert_eq!(double.apply(&samples_i32, 44100_u16, 120_u8 as u16), expected);
    // the input is left as it was
    assert_eq!(samples_i32, [2, -2, 2, -2, 4, -4, 6, -6]);
}

#[test]
fn i16_high_tone_loses_more_power_than_low_tone() {
    let samples_l_orig = sine_wave_samples(120.0, 44100.0);
    let samples_h_orig = sine_wave_samples(350.0, 44100.0);

    let mut samples_l_lowpassed = samples_l_orig.clone();
    let mut samples_h_lowpassed = samples_h_orig.clone();

    let power_l_orig = calculate_power(&samples_l_orig);
    let power_h_orig = calculate_power(&samples_h_orig);

    apply_lpf_i16_dp(&mut samples_l_lowpassed, 44100, 90);
    apply_lpf_i16_dp(&mut samples_h_lowpassed, 44100, 90);

    let power_l_lowpassed = calculate_power(&samples_l_lowpassed);
    let power_h_lowpassed = calculate_power(&samples_h_lowpassed);

    assert!(power_h_lowpassed < power_h_orig);
    assert!(power_l_lowpassed < power_l_orig);

    assert!(power_h_lowpassed <= 3.0 * power_h_lowpassed);
    assert!(
        power_h_lowpassed * 3.0 <= power_l_lowpassed,
        "LPF must actively remove frequencies above threshold"
    );
}

#[test]
fn i16_single_and_double_pi_give_close_power() {
    let samples_h_orig = sine_wave_samples(350.0, 44100.0);
    let mut lowpassed_sp = samples_h_orig.clone();
    let mut lowpassed_dp = samples_h_orig.clone();

    apply_lpf_i16_sp(&mut lowpassed_sp, 44100, 90);
    apply_lpf_i16_dp(&mut lowpassed_dp, 44100, 90);

    let power_sp = calculate_power(&lowpassed_sp);
    let power_dp = calculate_power(&lowpassed_dp);

    assert!((power_sp - power_dp).abs() <= 0.00024);
}

#[test]
fn tone_far_below_cutoff_keeps_most_power() {
    let orig = sine_wave_samples(20.0, 44100.0);
    let mut lowpassed = orig.clone();
    apply_lpf_i16_dp(&mut lowpassed, 44100, 2000);
    let before = calculate_power(&orig);
    let after = calculate_power(&lowpassed);
    assert!(after < before);
    assert!(after > 0.9 * before);
}

#[test]
fn six_samples_at_120_hz_cutoff() {
    let mut filter = LowpassFilter::new(Precision::Double, 44100, 120);
    let out: Vec<i32> = [0, 1, -5, 1551, 141, 24].iter().map(|x| filter.run(*x)).collect();
    assert_eq!(out, vec![0, 0, 0, 26, 27, 26]);
}

#[test]
fn alpha_is_exact_fraction_of_rates() {
    let double = Alpha::of_rates(Precision::Double, 44100, 120);
    assert_eq!(double.numerator(), 212227132560853200);
    assert_eq!(double.denominator(), 12625273605500782800);
    let single = Alpha::of_rates(Precision::Single, 44100, 120);
    assert_eq!(single.numerator(), 3162430800);
    assert_eq!(single.denominator(), 188131237200);
    let zero_cutoff = Alpha::of_rates(Precision::Double, 44100, 0);
    assert_eq!(zero_cutoff.numerator(), 0);
}

#[test]
fn pi_constants_match_float_values() {
    let (n, d) = Precision::Double.pi();
    assert_eq!(n as f64 / d as f64, std::f64::consts::PI);
    let (n, d) = Precision::Single.pi();
    assert_eq!((n as f64 / d as f64) as f32, std::f32::consts::PI);
}

#[test]
fn first_output_scales_and_second_blends_raw_input() {
    let mut filter = LowpassFilter::new(Precision::Double, 8000, 1000);
    let alpha = filter.alpha();
    let first_expected = scaled(alpha, 1000) as i32;
    // prev + alpha * (x - prev) with prev = 1000, the raw first input
    let second_expected = (1000 + scaled(alpha, 2000 - 1000)) as i32;
    assert_eq!(first_expected, 439);
    assert_eq!(filter.run(1000), first_expected);
    assert_eq!(filter.run(2000), second_expected);
    assert_eq!(second_expected, 1439);
}

#[test]
fn reset_matches_fresh_filter() {
    let input = [1000, 2000, -3000, 32767, -32768, 0];
    let mut used = LowpassFilter::new(Precision::Double, 8000, 1000);
    for x in [5, -7, 900, 12] {
        used.run(x);
    }
    used.reset();
    used.reset();
    let mut fresh = LowpassFilter::new(Precision::Double, 8000, 1000);
    let a: Vec<i32> = input.iter().map(|x| used.run(*x)).collect();
    let b: Vec<i32> = input.iter().map(|x| fresh.run(*x)).collect();
    assert_eq!(a, b);
    assert_eq!(a, vec![439, 1439, -513, 14126, -6502, -3641]);
}

#[test]
fn outputs_stay_within_unit_range() {
    let input = [1, -1, 1, 1, -1, 0, -1, 1, 1, 1];
    let mut filter = LowpassFilter::new(Precision::Single, 8000, 4000);
    for x in input {
        let y = filter.run(x);
        assert!((-1..=1).contains(&y));
    }
}

#[test]
fn outputs_stay_within_i16_range_at_nyquist() {
    let mut data = [32767, -32768, 32767, -32768];
    apply_lpf_i16_dp(&mut data, 8000, 4000);
    assert_eq!(data, [24855, -16944, 20764, -19842]);
}

#[test]
fn empty_buffer_is_left_alone() {
    let mut empty_i16: [i16; 0] = [];
    apply_lpf_i16_dp(&mut empty_i16, 44100, 120);
    apply_lpf_i16_sp(&mut empty_i16, 44100, 120);
    let mut empty_i32: [i32; 0] = [];
    apply_lpf_i32_dp(&mut empty_i32, 44100, 120);
    apply_lpf_i32_sp(&mut empty_i32, 44100, 120);
    assert!(Filter { precision: Precision::Double }.apply(&empty_i32, 44100, 120).is_empty());
}

#[test]
fn i32_buffers_at_both_precisions() {
    let input = [i32::MAX, i32::MIN, i32::MAX, 0, -5];
    let mut dp = input;
    apply_lpf_i32_dp(&mut dp, 44100, 120);
    assert_eq!(dp, [36098567, 2075286511, 2076500123, 2041594767, 2007276159]);
    let mut sp = input;
    apply_lpf_i32_sp(&mut sp, 44100, 120);
    assert_eq!(sp, [36098568, 2075286509, 2076500121, 2041594764, 2007276156]);
    let mut generic = input;
    apply_lpf_i32(&mut generic, 44100, 120, Precision::Double);
    assert_eq!(generic, dp);
}

#[test]
fn batch_equals_sample_by_sample() {
    let input = [1000, 2000, -3000, 32767, -32768, 0];
    let mut filter = LowpassFilter::new(Precision::Double, 8000, 1000);
    let one_by_one: Vec<i32> = input.iter().map(|x| filter.run(*x)).collect();
    let mut batch = input;
    apply_lpf_i32_dp(&mut batch, 8000, 1000);
    assert_eq!(batch.to_vec(), one_by_one);
}

#[test]
fn batch_copy_keeps_fractions_between_steps() {
    let filter = Filter { precision: Precision::Double };
    let input = [2, -2, 2, -2];
    let mut stepwise = input;
    apply_lpf_i32_dp(&mut stepwise, 44100, 120);
    assert_eq!(stepwise, [0, 1, 1, 0]);
    assert_eq!(filter.apply(&input, 44100, 120), vec![0, 1, 1, 1]);
    let wide = [i32::MAX, i32::MIN, i32::MAX, 0, -5];
    assert_eq!(
        filter.apply(&wide, 44100, 120),
        vec![36098567, 2075286511, 2076500123, 2041594767, 2007276160]
    );
    let same = [1000, 2000, -3000, 32767, -32768, 0];
    assert_eq!(filter.apply(&same, 8000, 1000), vec![439, 1439, -513, 14126, -6502, -3641]);
}
