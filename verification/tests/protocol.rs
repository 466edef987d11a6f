use heard_it::protocol::decode_frame;
use heard_it::protocol::decode_handshake;
use heard_it::protocol::encode_frame;
use heard_it::protocol::encode_handshake;
use heard_it::protocol::encode_pcm;
use heard_it::protocol::FrameParse;

#[test]
fn handshake_bytes_exact() {
    let h = encode_handshake(16000);
    assert_eq!(h, vec![0x53, 0x52, 0x41, 0x54, 0x80, 0x3e, 0x00, 0x00]);
}

#[test]
fn frame_bytes_exact() {
    let f = encode_frame(&vec![1i16, -1, 32767, -32768, 0]);
    assert_eq!(
        f,
        vec![
            5, 0, 0, 0, // count
            0x01, 0x00, // 1
            0xff, 0xff, // -1
            0xff, 0x7f, // 32767
            0x00, 0x80, // -32768
            0x00, 0x00, // 0
        ]
    );
}

#[test]
fn round_trip_handshake_and_frame() {
    // the full stream: 8 handshake bytes + 4 length bytes + 10 sample bytes
    let samples = vec![1i16, -1, 32767, -32768, 0];
    let mut stream = encode_handshake(16000);
    stream.extend(encode_frame(&samples));
    assert_eq!(stream.len(), 22);

    let h = decode_handshake(&stream).expect("handshake present");
    assert!(h.magic_ok);
    assert_eq!(h.rate, 16000);

    match decode_frame(&stream, 8) {
        FrameParse::Frame(decoded, next) => {
            assert_eq!(decoded, samples);
            assert_eq!(next, 22);
        }
        FrameParse::NeedMore => panic!("frame should be complete"),
    }
}

#[test]
fn back_to_back_frames_decode_independently() {
    let a = vec![10i16, 20];
    let b = vec![-5i16];
    let mut stream = encode_frame(&a);
    stream.extend(encode_frame(&b));
    match decode_frame(&stream, 0) {
        FrameParse::Frame(d, next) => {
            assert_eq!(d, a);
            match decode_frame(&stream, next) {
                FrameParse::Frame(d2, next2) => {
                    assert_eq!(d2, b);
                    assert_eq!(next2, stream.len());
                }
                FrameParse::NeedMore => panic!("second frame complete"),
            }
        }
        FrameParse::NeedMore => panic!("first frame complete"),
    }
}

#[test]
fn short_reads_ask_for_more() {
    let full = encode_frame(&vec![1i16, 2, 3]);
    for cut in 0..full.len() {
        let partial = full[..cut].to_vec();
        match decode_frame(&partial, 0) {
            FrameParse::NeedMore => {}
            FrameParse::Frame(..) => panic!("incomplete frame at {cut} bytes decoded"),
        }
    }
}

#[test]
fn short_handshake_is_rejected() {
    assert!(decode_handshake(&vec![0x53, 0x52, 0x41, 0x54, 0x80, 0x3e, 0x00]).is_none());
    assert!(decode_handshake(&Vec::new()).is_none());
}

#[test]
fn wrong_magic_is_noted_but_rate_still_read() {
    let mut h = encode_handshake(44100);
    h[0] = b'X';
    let parsed = decode_handshake(&h).expect("eight bytes present");
    assert!(!parsed.magic_ok);
    assert_eq!(parsed.rate, 44100);
}

#[test]
fn empty_frame_encodes_to_header_only() {
    let f = encode_frame(&Vec::new());
    assert_eq!(f, vec![0, 0, 0, 0]);
    match decode_frame(&f, 0) {
        FrameParse::Frame(d, next) => {
            assert!(d.is_empty());
            assert_eq!(next, 4);
        }
        FrameParse::NeedMore => panic!("empty frame is complete"),
    }
}

#[test]
fn pcm_encoding_is_little_endian_per_sample() {
    assert_eq!(encode_pcm(&vec![0x1234i16]), vec![0x34, 0x12]);
    assert_eq!(encode_pcm(&vec![-2i16]), vec![0xfe, 0xff]);
}
