use heard_it::resampler::Resampler;

fn ramp(n: usize) -> Vec<i16> {
    (0..n).map(|i| (i % 30000) as i16).collect()
}

fn run_all_at_once(in_rate: u32, out_rate: u32, input: &[i16]) -> Vec<i16> {
    let mut r = Resampler::new(in_rate, out_rate);
    r.push(&input.to_vec())
}

fn run_one_at_a_time(in_rate: u32, out_rate: u32, input: &[i16]) -> Vec<i16> {
    let mut r = Resampler::new(in_rate, out_rate);
    let mut out = Vec::new();
    for &s in input {
        out.extend(r.push(&vec![s]));
    }
    out
}

fn run_chunks(in_rate: u32, out_rate: u32, input: &[i16], chunk: usize) -> Vec<i16> {
    let mut r = Resampler::new(in_rate, out_rate);
    let mut out = Vec::new();
    for c in input.chunks(chunk) {
        out.extend(r.push(&c.to_vec()));
    }
    out
}

#[test]
fn chunk_boundary_invariance_downsampling() {
    let input = ramp(2000);
    let whole = run_all_at_once(48000, 16000, &input);
    let single = run_one_at_a_time(48000, 16000, &input);
    assert_eq!(whole, single);
    let sevens = run_chunks(48000, 16000, &input, 7);
    assert_eq!(whole, sevens);
}

#[test]
fn chunk_boundary_invariance_odd_ratio() {
    let input = ramp(1777);
    let whole = run_all_at_once(44100, 16000, &input);
    let single = run_one_at_a_time(44100, 16000, &input);
    assert_eq!(whole, single);
    let chunks = run_chunks(44100, 16000, &input, 13);
    assert_eq!(whole, chunks);
}

#[test]
fn chunk_boundary_invariance_upsampling() {
    let input = ramp(500);
    let whole = run_all_at_once(8000, 16000, &input);
    let single = run_one_at_a_time(8000, 16000, &input);
    assert_eq!(whole, single);
}

#[test]
fn equal_rates_is_identity() {
    let mut r = Resampler::new(16000, 16000);
    let a = vec![5i16, -7, 0, 32767, -32768];
    assert_eq!(r.push(&a), a);
    let b = vec![9i16, 9, 9];
    assert_eq!(r.push(&b), b);
}

#[test]
fn exact_two_to_one() {
    // step 2: output samples sit exactly on inputs 0, 2, 4
    let out = run_all_at_once(32000, 16000, &[0, 10, 20, 30, 40, 50]);
    assert_eq!(out, vec![0, 20, 40]);
}

#[test]
fn exact_interpolated_midpoint() {
    // step 1.5: the second output interpolates halfway between 30 and 60
    let out = run_all_at_once(24000, 16000, &[0, 30, 60, 90]);
    assert_eq!(out, vec![0, 45]);
}

#[test]
fn rounds_half_away_from_zero() {
    // upsampling by 2: odd positions land halfway between neighbours
    let out = run_all_at_once(8000, 16000, &[0, 1]);
    assert_eq!(out, vec![0, 1]);
    let out_neg = run_all_at_once(8000, 16000, &[0, -1]);
    assert_eq!(out_neg, vec![0, -1]);
}

#[test]
fn output_keeps_pace_with_input() {
    // over a long stream, output count approaches len * out_rate / in_rate
    let input = ramp(48000);
    let out = run_chunks(48000, 16000, &input, 480);
    let expected = ((input.len() as u64 - 1) * 16000 + 47999) / 48000;
    assert_eq!(out.len() as u64, expected);
}
