use heard_it::batcher::Batcher;
use heard_it::batcher::compute_threshold;

#[test]
fn threshold_is_a_quarter_second() {
    assert_eq!(compute_threshold(16000), 4000);
    assert_eq!(compute_threshold(48000), 12000);
}

#[test]
fn threshold_has_a_floor() {
    assert_eq!(compute_threshold(800), 800);
    assert_eq!(compute_threshold(2000), 800);
    assert_eq!(compute_threshold(3200), 800);
    assert_eq!(compute_threshold(3204), 801);
}

#[test]
fn steady_small_pushes_release_exact_chunks() {
    let mut b = Batcher::new(16000);
    let mut pushed_total = 0usize;
    let mut released_total = 0usize;
    for round in 0..50 {
        let frame: Vec<i16> = (0..100).map(|i| (round * 100 + i) as i16).collect();
        pushed_total += frame.len();
        let batches = b.push(&frame);
        for batch in &batches {
            assert_eq!(batch.len(), 4000);
            released_total += batch.len();
        }
        // conservation at every point: nothing dropped, nothing duplicated
        assert!(pushed_total - released_total < 4000);
    }
    assert_eq!(pushed_total, 5000);
    assert_eq!(released_total, 4000);
}

#[test]
fn samples_come_out_in_order_unchanged() {
    let mut b = Batcher::new(16000);
    let frame: Vec<i16> = (0..9000).map(|i| (i % 20000) as i16).collect();
    let batches = b.push(&frame);
    assert_eq!(batches.len(), 2);
    let flat: Vec<i16> = batches.into_iter().flatten().collect();
    assert_eq!(&flat[..], &frame[..8000]);
}

#[test]
fn three_frame_scenario() {
    // 4,800 + 4,800 + 800 samples at 16 kHz with a 4,000-sample threshold:
    // two full batches are released and 2,400 samples stay buffered,
    // conserving the total of 10,400.
    let mut b = Batcher::new(16000);
    let f1: Vec<i16> = vec![1; 4800];
    let f2: Vec<i16> = vec![2; 4800];
    let f3: Vec<i16> = vec![3; 800];

    let b1 = b.push(&f1);
    assert_eq!(b1.len(), 1);
    assert_eq!(b1[0].len(), 4000);

    let b2 = b.push(&f2);
    assert_eq!(b2.len(), 1);
    assert_eq!(b2[0].len(), 4000);

    let b3 = b.push(&f3);
    assert_eq!(b3.len(), 0);

    // released 8,000 of the 10,400 pushed; the 2,400 remainder is held
    let released: usize = b1.iter().chain(&b2).chain(&b3).map(|c| c.len()).sum();
    assert_eq!(released, 8000);
    assert_eq!(4800 + 4800 + 800 - released, 2400);
}

#[test]
fn remainder_flushes_once_enough_arrives() {
    let mut b = Batcher::new(16000);
    assert_eq!(b.push(&vec![7i16; 3999]).len(), 0);
    let batches = b.push(&vec![8i16; 1]);
    assert_eq!(batches.len(), 1);
    assert_eq!(batches[0][3998], 7);
    assert_eq!(batches[0][3999], 8);
}
