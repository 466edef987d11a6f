//! Capture Session and Transcription Streaming Session: the state machines
//! that own the single active capture source, decide between worker-process
//! and in-process capture, and drive the outbound streaming connection.
//!
//! The unverified shell performs the spawns, stream builds and socket I/O;
//! every decision about what to do next is made here.

use crate::batcher::Batcher;
use crate::protocol::parse_handshake_spec;
use crate::protocol::pcm_bytes;
use crate::protocol::decode_handshake;
use crate::protocol::encode_pcm;
use crate::resampler::resampled;
use crate::resampler::Resampler;
use crate::text::dec_digits;
use crate::text::u32_to_decimal;
use crate::transcript::live_transcript_event;
use crate::transcript::transcript_of;
use crate::text::is_blank;
use vstd::prelude::*;
use vstd::string::*;

verus! {

/// The sample rate the transcription service is sent, whatever the device
/// produces: anything but the service rate is resampled to it.
pub fn effective_send_rate(device_rate: u32) -> (r: u32)
    ensures
        r == (if device_rate != 16000 {
            16000u32
        } else {
            device_rate
        }),
{
    if device_rate != 16000 {
        16000
    } else {
        device_rate
    }
}

/// The rate a worker handshake establishes: a reported rate of zero falls
/// back to the service default.
pub fn worker_effective_rate(raw: u32) -> (r: u32)
    ensures
        r == (if raw == 0 {
            16000u32
        } else {
            raw
        }),
        r >= 1,
{
    if raw == 0 {
        16000
    } else {
        raw
    }
}

/// The rate an in-process stream start reports to the caller: the bounded
/// wait for the audio thread either yields the negotiated rate or times
/// out, in which case the service default is assumed.
pub fn fallback_rate(reported: Option<u32>) -> (r: u32)
    ensures
        reported is Some ==> r == reported->0,
        reported is None ==> r == 16000,
{
    match reported {
        Some(v) => v,
        None => 16000,
    }
}

/// How capture will run after the worker-spawn attempt.
pub enum CaptureMode {
    /// The worker spawned and its handshake was read: frames arrive over
    /// the pipe at this rate. A wrong magic token is noted but non-fatal.
    Worker { rate: u32, magic_ok: bool },
    /// The worker could not be spawned or its handshake could not be read:
    /// capture falls back to an in-process hardware stream.
    InProcess,
}

/// Decide the capture mode from the worker-spawn outcome and the bytes of
/// the handshake read (fewer than 8 bytes means the read failed).
pub fn worker_start_decision(spawn_ok: bool, header: &Vec<u8>) -> (r: CaptureMode)
    ensures
        match r {
            CaptureMode::Worker { rate, magic_ok } => {
                let parsed = parse_handshake_spec(header@)->0;
                &&& spawn_ok
                &&& parse_handshake_spec(header@) is Some
                &&& magic_ok == parsed.0
                &&& rate == (if parsed.1 == 0 {
                    16000u32
                } else {
                    parsed.1
                })
                &&& rate >= 1
            },
            CaptureMode::InProcess => !spawn_ok || parse_handshake_spec(header@) is None,
        },
{
    if !spawn_ok {
        return CaptureMode::InProcess;
    }
    match decode_handshake(header) {
        Some(h) => CaptureMode::Worker {
            rate: worker_effective_rate(h.rate),
            magic_ok: h.magic_ok,
        },
        None => CaptureMode::InProcess,
    }
}

/// The lifecycle phase of the capture session.
pub enum SessionState {
    Idle,
    Starting,
    Active,
    Stopping,
}

/// The one capture source a session may own.
pub enum CaptureSource {
    /// An isolated worker process forwarding frames over its pipe.
    Worker { rate: u32 },
    /// An in-process hardware stream.
    InProcess { rate: u32 },
}

/// Owner of the at-most-one active capture source.
pub struct CaptureController {
    pub state: SessionState,
    pub source: Option<CaptureSource>,
}

/// How many capture sources a controller holds: zero or one by
/// construction; well-formedness ties it to the lifecycle phase.
pub open spec fn active_count(c: CaptureController) -> int {
    if c.source is Some {
        1
    } else {
        0
    }
}

/// What beginning a start does: whatever source is currently held must be
/// torn down first, and the controller is left Starting with no source.
pub open spec fn begin_start_spec(c: CaptureController) -> (CaptureController, Option<
    CaptureSource,
>) {
    (CaptureController { state: SessionState::Starting, source: None }, c.source)
}

/// What a successful negotiation does: the new source, and only it, is
/// installed and the session becomes Active.
pub open spec fn activate_spec(c: CaptureController, src: CaptureSource) -> CaptureController {
    CaptureController { state: SessionState::Active, source: Some(src) }
}

/// What a failed negotiation does: the session returns to Idle, holding
/// nothing.
pub open spec fn fail_start_spec(c: CaptureController) -> CaptureController {
    CaptureController { state: SessionState::Idle, source: None }
}

/// What stopping does: whatever is held is handed back for teardown and
/// the session is Idle. Stopping an idle session is a no-op.
pub open spec fn stop_spec(c: CaptureController) -> (CaptureController, Option<CaptureSource>) {
    (CaptureController { state: SessionState::Idle, source: None }, c.source)
}

impl CaptureController {
    /// A source is held exactly while the session is Active.
    pub open spec fn wf(self) -> bool {
        (self.state is Active) <==> (self.source is Some)
    }

    /// A fresh, idle controller owning nothing.
    pub fn new() -> (r: CaptureController)
        ensures
            r.wf(),
            r.state is Idle,
            active_count(r) == 0,
    {
        CaptureController { state: SessionState::Idle, source: None }
    }

    /// Begin a start: returns the source that must be fully torn down
    /// before the new one is brought up — never proceed while it lives.
    pub fn begin_start(&mut self) -> (teardown: Option<CaptureSource>)
        requires
            old(self).wf(),
        ensures
            (*final(self), teardown) == begin_start_spec(*old(self)),
            final(self).wf(),
            active_count(*final(self)) == 0,
            old(self).state is Active ==> teardown is Some,
    {
        let teardown = self.source.take();
        self.state = SessionState::Starting;
        teardown
    }

    /// Install the newly negotiated source.
    pub fn activate(&mut self, src: CaptureSource)
        requires
            old(self).state is Starting,
            old(self).source is None,
        ensures
            *final(self) == activate_spec(*old(self), src),
            final(self).wf(),
            active_count(*final(self)) == 1,
    {
        self.source = Some(src);
        self.state = SessionState::Active;
    }

    /// Every candidate failed: report the error and remain Idle.
    pub fn fail_start(&mut self)
        requires
            old(self).state is Starting,
            old(self).source is None,
        ensures
            *final(self) == fail_start_spec(*old(self)),
            final(self).wf(),
            active_count(*final(self)) == 0,
    {
        self.state = SessionState::Idle;
    }

    /// Stop: hand back whatever is held for teardown. Idempotent.
    pub fn stop(&mut self) -> (teardown: Option<CaptureSource>)
        ensures
            (*final(self), teardown) == stop_spec(*old(self)),
            final(self).wf(),
            active_count(*final(self)) == 0,
            old(self).source is None ==> teardown is None,
    {
        let teardown = self.source.take();
        self.state = SessionState::Idle;
        teardown
    }
}

/// Single-owner invariant: starting a new session while one is active
/// first hands the old source back for teardown, and once the new source
/// is activated exactly one is held — never zero, never two. In
/// particular, two starts in a row leave exactly the second source active.
pub proof fn lemma_single_owner(c: CaptureController, s1: CaptureSource, s2: CaptureSource)
    requires
        c.wf(),
    ensures
        ({
            let (c1, t1) = begin_start_spec(c);
            let c2 = activate_spec(c1, s1);
            let (c3, t2) = begin_start_spec(c2);
            let c4 = activate_spec(c3, s2);
            &&& active_count(c2) == 1
            &&& t2 == Some(s1)
            &&& active_count(c4) == 1
            &&& c4.source == Some(s2)
            &&& c.state is Active ==> t1 == Some(c.source->0)
        }),
{
}

/// The phase of the outbound streaming connection.
pub enum StreamState {
    Connecting,
    Streaming,
    Closing,
    Closed,
}

/// What an inbound socket event leads to.
pub enum InboundAction {
    /// Raise a transcript event with this payload.
    EmitTranscript(String),
    /// Nothing: non-text traffic, unparseable text, or a blank transcript.
    Ignore,
    /// The connection is over; the session ends and is surfaced once.
    Shutdown,
}

/// An inbound socket event, as the shell observed it.
pub enum InboundEvent {
    /// A text message with this payload.
    Text(String),
    /// Any non-text message.
    Other,
    /// A transport error: fatal, no reconnection.
    TransportError,
    /// The peer closed the connection.
    ConnectionClosed,
}

/// The outbound streaming session's state machine.
pub struct StreamingSession {
    pub state: StreamState,
}

impl StreamingSession {
    /// A session about to connect.
    pub fn new() -> (r: StreamingSession)
        ensures
            r.state is Connecting,
    {
        StreamingSession { state: StreamState::Connecting }
    }

    /// The handshake succeeded.
    pub fn on_connected(&mut self)
        requires
            old(self).state is Connecting,
        ensures
            final(self).state is Streaming,
    {
        self.state = StreamState::Streaming;
    }

    /// The handshake failed: the session is over before it began.
    pub fn on_connect_failed(&mut self)
        requires
            old(self).state is Connecting,
        ensures
            final(self).state is Closed,
    {
        self.state = StreamState::Closed;
    }

    /// Decide what an inbound event means. Text that parses to a
    /// non-blank transcript raises an event; all other text and all
    /// non-text messages are silently ignored; an error or a close ends
    /// the session — no reconnection is attempted.
    pub fn on_inbound(&mut self, ev: InboundEvent) -> (r: InboundAction)
        requires
            old(self).state is Streaming,
        ensures
            match ev {
                InboundEvent::Text(text) => {
                    &&& final(self).state is Streaming
                    &&& match r {
                        InboundAction::EmitTranscript(t) => transcript_of(text@) == Some(t@)
                            && !is_blank(t@),
                        InboundAction::Ignore => transcript_of(text@) is None || is_blank(
                            transcript_of(text@)->0,
                        ),
                        InboundAction::Shutdown => false,
                    }
                },
                InboundEvent::Other => final(self).state is Streaming && r is Ignore,
                InboundEvent::TransportError => final(self).state is Closed && r is Shutdown,
                InboundEvent::ConnectionClosed => final(self).state is Closed && r is Shutdown,
            },
    {
        match ev {
            InboundEvent::Text(text) => {
                match live_transcript_event(text.as_str()) {
                    Some(t) => InboundAction::EmitTranscript(t),
                    None => InboundAction::Ignore,
                }
            },
            InboundEvent::Other => InboundAction::Ignore,
            InboundEvent::TransportError => {
                self.state = StreamState::Closed;
                InboundAction::Shutdown
            },
            InboundEvent::ConnectionClosed => {
                self.state = StreamState::Closed;
                InboundAction::Shutdown
            },
        }
    }

    /// An explicit stop begins a graceful shutdown: the audio channel is
    /// dropped and the session closes once the send side drains.
    pub fn on_shutdown(&mut self)
        ensures
            final(self).state is Closing,
    {
        self.state = StreamState::Closing;
    }
}

/// The audio side of the streaming session: device-rate canonical PCM in,
/// service-rate binary messages out. Resampling and batching state lives
/// here, owned by the single session task.
pub struct AudioPipeline {
    resampler: Resampler,
    batcher: Batcher,
}

impl AudioPipeline {
    /// The device rate this pipeline was built for.
    pub closed spec fn device_rate(self) -> u32 {
        self.resampler.in_rate()
    }

    /// The rate actually sent to the service.
    pub closed spec fn send_rate(self) -> u32 {
        self.resampler.out_rate()
    }

    /// Every canonical sample captured so far, in order.
    pub closed spec fn captured(self) -> Seq<i16> {
        self.resampler.inputs()
    }

    /// Every sample sent so far: the concatenation of all outbound
    /// messages, two bytes each.
    pub closed spec fn sent(self) -> Seq<i16> {
        self.batcher.released()
    }

    /// The chunk size of outbound messages, in samples.
    pub closed spec fn chunk_size(self) -> int {
        self.batcher.threshold()
    }

    /// The resampled stream so far: what the service should eventually
    /// receive.
    pub open spec fn converted(self) -> Seq<i16> {
        resampled(self.device_rate() as int, self.send_rate() as int, self.captured())
    }

    /// Everything resampled has been handed to the batcher; nothing else.
    pub closed spec fn wf(self) -> bool {
        &&& self.resampler.wf()
        &&& self.batcher.wf()
        &&& self.batcher.pushed() == self.resampler.outputs()
        &&& self.batcher.threshold() == crate::batcher::batch_threshold(self.send_rate())
        &&& self.send_rate() == (if self.device_rate() != 16000 {
            16000u32
        } else {
            self.device_rate()
        })
    }

    /// A pipeline for a device rate: conversion to the service rate and
    /// quarter-second batching.
    pub fn new(device_rate: u32) -> (r: AudioPipeline)
        requires
            device_rate >= 1,
        ensures
            r.wf(),
            r.device_rate() == device_rate,
            r.captured() == Seq::<i16>::empty(),
            r.sent() == Seq::<i16>::empty(),
    {
        let send_rate = effective_send_rate(device_rate);
        let r = AudioPipeline { resampler: Resampler::new(device_rate, send_rate), batcher: Batcher::new(send_rate) };
        r
    }

    /// Feed one captured frame; get back the binary messages now due, in
    /// order: each is exactly one chunk of the resampled stream, two
    /// little-endian bytes per sample, with no gap and no duplication.
    pub fn on_audio(&mut self, frame: &Vec<i16>) -> (msgs: Vec<Vec<u8>>)
        requires
            old(self).wf(),
            frame@.len() <= 0x2_0000,
        ensures
            final(self).wf(),
            final(self).device_rate() == old(self).device_rate(),
            final(self).send_rate() == old(self).send_rate(),
            final(self).chunk_size() == old(self).chunk_size(),
            final(self).captured() == old(self).captured() + frame@,
            final(self).sent().len() == old(self).sent().len() + msgs@.len() * old(
                self,
            ).chunk_size(),
            forall|i: int|
                0 <= i < msgs@.len() ==> (#[trigger] msgs@[i])@ == pcm_bytes(
                    final(self).sent().subrange(
                        old(self).sent().len() + i * old(self).chunk_size(),
                        old(self).sent().len() + (i + 1) * old(self).chunk_size(),
                    ),
                ),
    {
        let converted = self.resampler.push(frame);
        proof {
            let ghost sr = old(self).send_rate() as int;
            assert(sr == 16000);
            assert(converted@.len() <= 0x2_0000 * 16000 + 1) by (nonlinear_arith)
                requires
                    converted@.len() <= frame@.len() * sr + 1,
                    frame@.len() <= 0x2_0000,
                    sr == 16000,
            ;
        }
        proof {
            crate::batcher::lemma_batcher_conservation(self.batcher);
            assert(self.batcher.buffered().len() < self.batcher.threshold());
        }
        let batches = self.batcher.push(&converted);
        let ghost released_flat = batches.deep_view().flatten();
        let ghost t = self.batcher.threshold();
        let mut msgs: Vec<Vec<u8>> = Vec::new();
        let mut i: usize = 0;
        proof {
            crate::batcher::lemma_batcher_conservation(self.batcher);
        }
        while i < batches.len()
            invariant
                i <= batches@.len(),
                1 <= t <= 0x4000_0000,
                forall|j: int| 0 <= j < batches@.len() ==> (#[trigger] batches@[j])@.len() == t,
                msgs@.len() == i,
                forall|j: int|
                    0 <= j < i ==> (#[trigger] msgs@[j])@ == pcm_bytes(batches@[j]@),
            decreases batches@.len() - i,
        {
            proof {
                assert(batches@[i as int]@.len() * 2 <= usize::MAX) by {
                    assert(batches@[i as int]@.len() == t);
                }
            }
            let encoded = encode_pcm(&batches[i]);
            msgs.push(encoded);
            i += 1;
        }
        proof {
            // each message covers exactly its chunk of the sent stream
            let old_len = old(self).sent().len() as int;
            lemma_flatten_uniform_len(batches.deep_view(), t);
            assert(self.sent() == old(self).sent() + released_flat);
            assert forall|j: int| 0 <= j < msgs@.len() implies (#[trigger] msgs@[j])@
                == pcm_bytes(self.sent().subrange(old_len + j * t, old_len + (j + 1) * t)) by {
                assert(msgs@[j]@ == pcm_bytes(batches@[j]@));
                assert(batches.deep_view()[j] == batches@[j]@);
                lemma_flatten_chunk(batches.deep_view(), t, j);
                assert(0 <= j * t && j * t + t <= batches@.len() * t) by (nonlinear_arith)
                    requires
                        0 <= j,
                        j + 1 <= batches@.len(),
                        t >= 1,
                ;
                assert((j + 1) * t == j * t + t) by (nonlinear_arith);
                assert(self.sent().subrange(old_len + j * t, old_len + (j + 1) * t)
                    =~= released_flat.subrange(j * t, (j + 1) * t));
            }
            assert(self.sent().len() == old(self).sent().len() + msgs@.len() * t);
        }
        msgs
    }
}

/// The length of a concatenation of uniform chunks.
proof fn lemma_flatten_uniform_len(v: Seq<Seq<i16>>, t: int)
    requires
        t >= 0,
        forall|j: int| 0 <= j < v.len() ==> (#[trigger] v[j]).len() == t,
    ensures
        v.flatten().len() == v.len() * t,
    decreases v.len(),
{
    if v.len() == 0 {
        assert(v.flatten().len() == 0);
    } else {
        let rest = v.drop_first();
        lemma_flatten_uniform_len(rest, t);
        assert(v.flatten() == v.first() + rest.flatten());
        assert(t + (v.len() - 1) * t == v.len() * t) by (nonlinear_arith);
    }
}

/// One chunk of a concatenation of uniform chunks is the matching element.
proof fn lemma_flatten_chunk(v: Seq<Seq<i16>>, t: int, j: int)
    requires
        t >= 0,
        forall|p: int| 0 <= p < v.len() ==> (#[trigger] v[p]).len() == t,
        0 <= j < v.len(),
    ensures
        v.flatten().subrange(j * t, (j + 1) * t) == v[j],
    decreases j,
{
    lemma_flatten_uniform_len(v, t);
    if j == 0 {
        let rest = v.drop_first();
        lemma_flatten_uniform_len(rest, t);
        assert(v.flatten() == v.first() + rest.flatten());
        assert(v.flatten().subrange(0, t) =~= v[0]);
    } else {
        let rest = v.drop_first();
        lemma_flatten_uniform_len(rest, t);
        assert(v.flatten() == v.first() + rest.flatten());
        lemma_flatten_chunk(rest, t, j - 1);
        assert((j - 1) * t == j * t - t) by (nonlinear_arith);
        assert(j * t - t >= 0) by (nonlinear_arith)
            requires
                j >= 1,
                t >= 0,
        ;
        assert(((j - 1) + 1) * t == j * t) by (nonlinear_arith);
        assert(v.flatten().subrange(j * t, (j + 1) * t) =~= rest.flatten().subrange(
            (j - 1) * t,
            j * t,
        )) by {
            assert((j + 1) * t == j * t + t) by (nonlinear_arith);
            assert((j + 1) * t <= v.len() * t) by (nonlinear_arith)
                requires
                    j + 1 <= v.len(),
                    t >= 0,
            ;
        }
        assert(rest.flatten().subrange((j - 1) * t, ((j - 1) + 1) * t) == rest[j - 1]);
    }
}

/// Every byte sent reflects a prefix of the resampled stream: no gap, no
/// duplication, whatever the batching did.
pub proof fn lemma_sent_is_prefix(p: AudioPipeline)
    requires
        p.wf(),
    ensures
        p.sent().len() <= p.converted().len(),
        p.sent() == p.converted().subrange(0, p.sent().len() as int),
{
    crate::batcher::lemma_batcher_conservation(p.batcher);
    assert(p.sent() + p.batcher.buffered() == p.converted());
    assert(p.sent() =~= p.converted().subrange(0, p.sent().len() as int));
}

/// The streaming endpoint's query string: declares the encoding and the
/// rate that will actually be sent.
pub fn listen_url(send_rate: u32) -> (r: String)
    ensures
        r@ == "wss://api.deepgram.com/v1/listen?encoding=linear16&sample_rate="@ + dec_digits(
            send_rate as int,
        ) + "&punctuate=true"@,
{
    let mut s = String::from_str("wss://api.deepgram.com/v1/listen?encoding=linear16&sample_rate=");
    let digits = u32_to_decimal(send_rate);
    s.append(digits.as_str());
    s.append("&punctuate=true");
    s
}

} // verus!
