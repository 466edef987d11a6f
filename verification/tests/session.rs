use heard_it::protocol::encode_handshake;
use heard_it::session::effective_send_rate;
use heard_it::session::fallback_rate;
use heard_it::session::listen_url;
use heard_it::session::worker_effective_rate;
use heard_it::session::worker_start_decision;
use heard_it::session::AudioPipeline;
use heard_it::session::CaptureController;
use heard_it::session::CaptureMode;
use heard_it::session::CaptureSource;
use heard_it::session::InboundAction;
use heard_it::session::InboundEvent;
use heard_it::session::SessionState;
use heard_it::session::StreamState;
use heard_it::session::StreamingSession;

#[test]
fn send_rate_is_the_service_rate() {
    assert_eq!(effective_send_rate(44100), 16000);
    assert_eq!(effective_send_rate(48000), 16000);
    assert_eq!(effective_send_rate(16000), 16000);
    assert_eq!(effective_send_rate(8000), 16000);
}

#[test]
fn worker_rate_zero_falls_back_to_default() {
    assert_eq!(worker_effective_rate(0), 16000);
    assert_eq!(worker_effective_rate(48000), 48000);
    assert_eq!(fallback_rate(Some(44100)), 44100);
    assert_eq!(fallback_rate(None), 16000);
}

#[test]
fn worker_mode_needs_spawn_and_handshake() {
    let header = encode_handshake(48000);
    match worker_start_decision(true, &header) {
        CaptureMode::Worker { rate, magic_ok } => {
            assert_eq!(rate, 48000);
            assert!(magic_ok);
        }
        CaptureMode::InProcess => panic!("worker mode expected"),
    }
    assert!(matches!(worker_start_decision(false, &header), CaptureMode::InProcess));
    assert!(matches!(worker_start_decision(true, &header[..5].to_vec()), CaptureMode::InProcess));
}

#[test]
fn worker_bad_magic_is_non_fatal() {
    let mut header = encode_handshake(0);
    header[1] = b'?';
    match worker_start_decision(true, &header) {
        CaptureMode::Worker { rate, magic_ok } => {
            assert_eq!(rate, 16000); // reported zero falls back to the default
            assert!(!magic_ok);
        }
        CaptureMode::InProcess => panic!("frames are still read after a bad magic"),
    }
}

#[test]
fn single_owner_across_two_starts() {
    let mut c = CaptureController::new();
    assert!(c.stop().is_none()); // stop when idle is a no-op

    assert!(c.begin_start().is_none());
    c.activate(CaptureSource::Worker { rate: 48000 });
    assert!(matches!(c.state, SessionState::Active));

    // a second start while active first hands the old source back
    let torn_down = c.begin_start();
    assert!(matches!(torn_down, Some(CaptureSource::Worker { rate: 48000 })));
    c.activate(CaptureSource::InProcess { rate: 44100 });
    assert!(matches!(c.state, SessionState::Active));
    assert!(matches!(c.source, Some(CaptureSource::InProcess { rate: 44100 })));

    let stopped = c.stop();
    assert!(matches!(stopped, Some(CaptureSource::InProcess { rate: 44100 })));
    assert!(matches!(c.state, SessionState::Idle));
    assert!(c.source.is_none());
}

#[test]
fn failed_negotiation_returns_to_idle() {
    let mut c = CaptureController::new();
    c.begin_start();
    c.fail_start();
    assert!(matches!(c.state, SessionState::Idle));
    assert!(c.source.is_none());
}

#[test]
fn streaming_session_lifecycle() {
    let mut s = StreamingSession::new();
    assert!(matches!(s.state, StreamState::Connecting));
    s.on_connected();
    assert!(matches!(s.state, StreamState::Streaming));

    let json = r#"{"results":{"channels":[{"alternatives":[{"transcript":"hello"}]}]}}"#;
    match s.on_inbound(InboundEvent::Text(json.to_string())) {
        InboundAction::EmitTranscript(t) => assert_eq!(t, "hello"),
        _ => panic!("transcript expected"),
    }
    assert!(matches!(s.on_inbound(InboundEvent::Other), InboundAction::Ignore));
    assert!(matches!(
        s.on_inbound(InboundEvent::Text("not json".to_string())),
        InboundAction::Ignore
    ));
    assert!(matches!(s.on_inbound(InboundEvent::TransportError), InboundAction::Shutdown));
    assert!(matches!(s.state, StreamState::Closed));
}

#[test]
fn closed_connection_ends_the_session() {
    let mut s = StreamingSession::new();
    s.on_connected();
    assert!(matches!(s.on_inbound(InboundEvent::ConnectionClosed), InboundAction::Shutdown));
    assert!(matches!(s.state, StreamState::Closed));
}

#[test]
fn connect_failure_closes_before_streaming() {
    let mut s = StreamingSession::new();
    s.on_connect_failed();
    assert!(matches!(s.state, StreamState::Closed));
}

#[test]
fn pipeline_passthrough_batches_and_encodes() {
    // device already at the service rate: frames pass straight to batching
    let mut p = AudioPipeline::new(16000);
    let f1: Vec<i16> = (0..4800).map(|i| i as i16).collect();
    let m1 = p.on_audio(&f1);
    assert_eq!(m1.len(), 1);
    assert_eq!(m1[0].len(), 8000); // 4,000 samples, two bytes each
    assert_eq!(&m1[0][..4], &[0, 0, 1, 0]); // little-endian 0, 1, ...

    let f2: Vec<i16> = (0..4800).map(|i| i as i16).collect();
    let m2 = p.on_audio(&f2);
    assert_eq!(m2.len(), 1);

    let m3 = p.on_audio(&vec![0i16; 800]);
    assert_eq!(m3.len(), 0); // 2,400 samples held for the next push
}

#[test]
fn pipeline_resamples_to_the_service_rate() {
    let mut p = AudioPipeline::new(48000);
    let frame: Vec<i16> = (0..24000).map(|i| (i % 1000) as i16).collect();
    let msgs = p.on_audio(&frame);
    // 24,000 device samples become ~8,000 service samples: one full batch
    assert_eq!(msgs.len(), 2);
    assert!(msgs.iter().all(|m| m.len() == 8000));
}

#[test]
fn sent_bytes_are_a_gapless_prefix_of_the_resampled_stream() {
    // whatever the batching does, the concatenated outbound messages are
    // exactly the little-endian encoding of a prefix of the resampled stream
    let mut p = AudioPipeline::new(48000);
    let mut sent: Vec<u8> = Vec::new();
    let input: Vec<i16> = (0..20000).map(|i| (i % 12345) as i16).collect();
    for chunk in input.chunks(777) {
        for msg in p.on_audio(&chunk.to_vec()) {
            sent.extend(msg);
        }
    }
    let mut reference = heard_it::resampler::Resampler::new(48000, 16000);
    let converted = reference.push(&input);
    let expected: Vec<u8> = heard_it::protocol::encode_pcm(&converted);
    assert!(sent.len() <= expected.len());
    assert_eq!(&sent[..], &expected[..sent.len()]);
    assert_eq!(sent.len() % 8000, 0); // whole 4,000-sample chunks only
}

#[test]
fn listen_url_declares_rate_and_encoding() {
    assert_eq!(
        listen_url(16000),
        "wss://api.deepgram.com/v1/listen?encoding=linear16&sample_rate=16000&punctuate=true"
    );
    assert_eq!(
        listen_url(8000),
        "wss://api.deepgram.com/v1/listen?encoding=linear16&sample_rate=8000&punctuate=true"
    );
}
