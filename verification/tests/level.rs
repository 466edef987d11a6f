use heard_it::level::isqrt_u64;
use heard_it::level::rms_level;

#[test]
fn integer_square_roots() {
    assert_eq!(isqrt_u64(0), 0);
    assert_eq!(isqrt_u64(1), 1);
    assert_eq!(isqrt_u64(3), 1);
    assert_eq!(isqrt_u64(4), 2);
    assert_eq!(isqrt_u64(12), 3);
    assert_eq!(isqrt_u64(1_073_676_289), 32767);
    assert_eq!(isqrt_u64(u64::MAX), 0xFFFF_FFFF);
}

#[test]
fn silence_has_level_zero() {
    assert_eq!(rms_level(&Vec::new()), 0);
    assert_eq!(rms_level(&vec![0i16; 100]), 0);
}

#[test]
fn constant_signal_has_its_own_level() {
    assert_eq!(rms_level(&vec![100i16; 64]), 100);
    assert_eq!(rms_level(&vec![-100i16; 64]), 100);
    assert_eq!(rms_level(&vec![32767i16; 10]), 32767);
    assert_eq!(rms_level(&vec![-32768i16; 10]), 32768);
}

#[test]
fn mixed_signal_level() {
    // mean of squares of [3, 4] is 12 (integer mean), root 3
    assert_eq!(rms_level(&vec![3i16, 4]), 3);
    // [0, 100]: mean 5000, isqrt 70
    assert_eq!(rms_level(&vec![0i16, 100]), 70);
}

#[test]
fn normalized_level_stays_in_unit_range() {
    // what the shell reports: level / 32767, clamped — never above 1
    for frame in [vec![32767i16; 5], vec![-32768i16; 5], vec![1i16]] {
        let level = rms_level(&frame) as f32 / 32767.0;
        let clamped = level.clamp(0.0, 1.0);
        assert!((0.0..=1.0).contains(&clamped));
    }
}
