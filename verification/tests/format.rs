use heard_it::format::downmix_first_channel;
use heard_it::format::normalize_f32_bits;
use heard_it::format::normalize_u16;
use heard_it::format::normalize_u16_frame;

fn norm_f32(x: f32) -> i16 {
    normalize_f32_bits(x.to_bits())
}

#[test]
fn unsigned_midpoint_maps_to_zero() {
    assert_eq!(normalize_u16(0), -32768);
    assert_eq!(normalize_u16(65535), 32767);
    assert_eq!(normalize_u16(32768), 0);
    assert_eq!(normalize_u16(32767), -1);
}

#[test]
fn unsigned_frame_normalizes_elementwise() {
    let out = normalize_u16_frame(&vec![0, 32768, 65535]);
    assert_eq!(out, vec![-32768, 0, 32767]);
}

#[test]
fn float_endpoints() {
    assert_eq!(norm_f32(1.0), 32767);
    assert_eq!(norm_f32(-1.0), -32767);
    assert_eq!(norm_f32(0.0), 0);
    assert_eq!(norm_f32(-0.0), 0);
}

#[test]
fn float_truncates_toward_zero() {
    // 0.5 * 32767 = 16383.5, truncated
    assert_eq!(norm_f32(0.5), 16383);
    assert_eq!(norm_f32(-0.5), -16383);
    assert_eq!(norm_f32(0.25), 8191);
}

#[test]
fn float_out_of_range_saturates() {
    assert_eq!(norm_f32(2.0), 32767);
    assert_eq!(norm_f32(-2.0), -32768);
    assert_eq!(norm_f32(f32::INFINITY), 32767);
    assert_eq!(norm_f32(f32::NEG_INFINITY), -32768);
    assert_eq!(norm_f32(1.0000001), 32767);
}

#[test]
fn float_oddballs_are_silence() {
    assert_eq!(norm_f32(f32::NAN), 0);
    assert_eq!(norm_f32(1.0e-40), 0); // subnormal
    assert_eq!(norm_f32(1.0e-5), 0); // rounds below one
}

#[test]
fn float_matches_rust_cast_semantics() {
    for &x in &[0.9999f32, 0.1, -0.7, 0.333, -0.0001, 1.5, -1.5] {
        let expected = (x as f64 * 32767.0) as i16; // exact product, then truncate+saturate
        assert_eq!(norm_f32(x), expected, "at {x}");
    }
}

#[test]
fn downmix_takes_first_channel() {
    assert_eq!(downmix_first_channel(&vec![1, 2, 3, 4, 5, 6], 2), vec![1, 3, 5]);
    assert_eq!(downmix_first_channel(&vec![1, 2, 3], 1), vec![1, 2, 3]);
    assert_eq!(downmix_first_channel(&vec![9, 8, 7], 2), vec![9]);
    assert_eq!(downmix_first_channel(&Vec::new(), 4), Vec::<i16>::new());
}
