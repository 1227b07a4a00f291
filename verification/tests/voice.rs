//! Voice framing, jitter, microphone gating and playback.

use std::collections::VecDeque;

use zz_client::game::Session;
use zz_client::platform::Target;
use zz_client::scalar::F32;
use zz_client::voice::{
    enqueue_chunk, gain_zone, i16_to_pcm_bytes, is_heard, pcm_bytes_to_i16,
    voice_on_session_change, CaptureSource, FakeCapture, FrameAssembler, GainZone, JitterBuffer,
    LiveCapture, MicStep, Speakers, VoiceState, FADE_START_BITS, FRAMES_PER_POLL, FRAME_BYTES,
    FRAME_SAMPLES, GAIN_FLOOR_BITS, JITTER_CAP, JITTER_START, QUIET_BITS, RAW_CHUNKS,
    VOICE_FRAME_MS, VOICE_SAMPLE_RATE,
};

fn key(v: f32) -> F32 {
    F32::from_bits(v.to_bits())
}

#[test]
fn playout_counts_up_however_frames_arrive() {
    let mut jb = JitterBuffer::new(4, 2);
    let mut state = 7u32;
    let mut played: Vec<i16> = Vec::new();
    for step in 0..400u64 {
        state = state.wrapping_mul(1664525).wrapping_add(1013904223);
        let seq = 5 + step / 3 + (state >> 30) as u64;
        jb.push(seq, vec![seq as i16]);
        if state & 0x8000 != 0 {
            if let Some(frame) = jb.pop() {
                played.extend(frame);
            }
        }
    }
    assert!(!played.is_empty());
    assert!(played.windows(2).all(|w| w[1] == w[0] + 1), "{played:?}");
}

#[test]
fn a_threshold_beyond_the_capacity_never_plays() {
    let mut jb = JitterBuffer::new(2, 3);
    for seq in 0..20 {
        jb.push(seq, vec![1]);
        assert!(jb.pop().is_none());
    }
}

#[test]
fn zones_fall_with_distance() {
    let loud = |d: f32| match gain_zone(key(d), key(25.0)) {
        GainZone::Silent => 0,
        GainZone::Fading => 1,
        GainZone::Full => 2,
    };
    let steps = [0.0, 5.0, 10.0, 10.1, 24.9, 25.0, 100.0, f32::INFINITY];
    assert_eq!(steps.map(loud), [2, 2, 2, 1, 1, 0, 0, 0]);
}

#[test]
fn jitter_ordered_from_ooo() {
    let mut jb = JitterBuffer::new(4, 2);
    jb.push(1, vec![1]);
    assert!(jb.pop().is_none(), "need 2 frames to start");
    jb.push(0, vec![0]);
    jb.push(2, vec![2]);
    assert_eq!(jb.pop(), Some(vec![0]));
    assert_eq!(jb.pop(), Some(vec![1]));
    assert_eq!(jb.pop(), Some(vec![2]));
    assert!(jb.pop().is_none(), "starvation means silence");
}

#[test]
fn jitter_overflow_drops_oldest() {
    let mut jb = JitterBuffer::new(2, 2);
    jb.push(0, vec![0]);
    jb.push(1, vec![1]);
    jb.push(2, vec![2]); // drops oldest (0)
    assert_eq!(jb.pop(), Some(vec![1]));
    assert_eq!(jb.pop(), Some(vec![2]));
    assert!(jb.pop().is_none());
}

#[test]
fn jitter_starvation_silence() {
    let mut jb = JitterBuffer::new(4, 2);
    jb.push(0, vec![10]);
    jb.push(1, vec![11]);
    assert_eq!(jb.pop(), Some(vec![10]));
    assert_eq!(jb.pop(), Some(vec![11]));
    assert!(jb.pop().is_none());
    assert!(jb.pop().is_none());
    jb.push(2, vec![12]);
    assert_eq!(jb.pop(), Some(vec![12]));
}

#[test]
fn jitter_drops_frames_that_come_too_late() {
    let mut jb = JitterBuffer::with_defaults();
    assert!(jb.is_empty());
    jb.push(5, vec![5]);
    jb.push(6, vec![6]);
    assert_eq!(jb.pop(), Some(vec![5]));
    jb.push(5, vec![99]);
    assert_eq!(jb.pop(), Some(vec![6]));
    assert!(jb.is_empty());
    assert_eq!(JITTER_START, 2);
    assert_eq!(JITTER_CAP, 4);
}

#[test]
fn jitter_keeps_the_first_of_two_frames_with_one_number() {
    let mut jb = JitterBuffer::new(4, 2);
    jb.push(0, vec![1]);
    jb.push(0, vec![2]);
    jb.push(1, vec![3]);
    assert_eq!(jb.pop(), Some(vec![1]));
    assert_eq!(jb.pop(), Some(vec![3]));
}

fn tone() -> Vec<i16> {
    let mut samples = Vec::with_capacity(FRAME_SAMPLES);
    for i in 0..FRAME_SAMPLES {
        let t = i as f32 / VOICE_SAMPLE_RATE as f32;
        let s = (t * 440.0 * std::f32::consts::TAU).sin() * 0.5;
        samples.push(if s < 0.0 { (s * 32768.0) as i16 } else { (s * 32767.0) as i16 });
    }
    samples
}

#[test]
fn captured_tone_survives_the_jitter_buffer() {
    let samples = tone();
    let pcm = i16_to_pcm_bytes(&samples);
    assert_eq!(pcm.len(), FRAME_BYTES);

    let mut fake = FakeCapture::new();
    fake.ensure_started();
    fake.set_enabled(true);
    fake.push_frame(pcm.clone());
    assert!(fake.is_ready());

    let drained = fake.drain_frames();
    assert_eq!(drained.len(), 1);
    assert_eq!(drained[0], pcm);

    let mono = pcm_bytes_to_i16(&drained[0]);
    assert_eq!(mono, samples);
    let mut jb = JitterBuffer::with_defaults();
    jb.push(0, mono.clone());
    jb.push(1, mono.clone()); // second frame so jitter starts
    assert_eq!(jb.pop().expect("playout"), mono);
}

#[test]
fn disabled_capture_yields_nothing() {
    let mut fake = FakeCapture::new();
    fake.ensure_started();
    fake.push_frame(vec![1, 2]);
    assert!(fake.drain_frames().is_empty());
}

#[test]
fn frame_assembler_emits_120ms_at_16k() {
    let mut fa = FrameAssembler::new(VOICE_SAMPLE_RATE);
    let input = vec![0i16; FRAME_SAMPLES];
    let frames = fa.push_i16(&input);
    assert_eq!(frames.len(), 1);
    assert_eq!(frames[0].len(), FRAME_BYTES);
    assert_eq!(FRAME_SAMPLES as u32 * 1000 / VOICE_SAMPLE_RATE, VOICE_FRAME_MS);
}

#[test]
fn frame_assembler_keeps_the_rest() {
    let mut fa = FrameAssembler::new(0);
    assert_eq!(fa.in_rate, 1);
    let input: Vec<i16> = (0..(FRAME_SAMPLES as i16 + 5)).collect();
    let frames = fa.push_i16(&input);
    assert_eq!(frames.len(), 1);
    assert_eq!(pcm_bytes_to_i16(&frames[0]), input[..FRAME_SAMPLES].to_vec());
    assert_eq!(fa.accum, input[FRAME_SAMPLES..].to_vec());
    let more = fa.push_i16(&vec![7; FRAME_SAMPLES - 5]);
    assert_eq!(more.len(), 1);
    assert_eq!(&pcm_bytes_to_i16(&more[0])[..5], &input[FRAME_SAMPLES..]);
    fa.push_i16(&vec![1]);
    fa.reset();
    assert!(fa.accum.is_empty());
}

#[test]
fn a_poll_hands_on_the_newest_frames() {
    let mut fa = FrameAssembler::new(VOICE_SAMPLE_RATE);
    let chunks: Vec<Vec<i16>> = (0..6).map(|k| vec![k as i16; FRAME_SAMPLES]).collect();
    let frames = fa.drain_frames(&chunks);
    assert_eq!(frames.len(), FRAMES_PER_POLL);
    assert_eq!(pcm_bytes_to_i16(&frames[0])[0], 2);
    assert_eq!(pcm_bytes_to_i16(&frames[3])[0], 5);
}

#[test]
fn capture_queue_is_bounded() {
    let mut q: VecDeque<Vec<i16>> = VecDeque::new();
    for k in 0..50i16 {
        enqueue_chunk(&mut q, vec![k]);
    }
    assert_eq!(q.len(), RAW_CHUNKS + 1);
    assert_eq!(q[RAW_CHUNKS], vec![49]);
    assert_eq!(q[0], vec![17]);
}

#[test]
fn pcm_is_little_endian_and_drops_a_lone_byte() {
    assert_eq!(i16_to_pcm_bytes(&[0x0102, -2]), vec![0x02, 0x01, 0xfe, 0xff]);
    assert_eq!(pcm_bytes_to_i16(&[0x02, 0x01, 0xfe, 0xff, 0x7f]), vec![0x0102, -2]);
    assert!(pcm_bytes_to_i16(&[1]).is_empty());
}

#[test]
fn live_capture_is_gated() {
    let mut live = LiveCapture::new();
    assert!(live.drain_frames(vec![vec![1]]).is_empty());
    live.set_enabled(true);
    assert_eq!(live.drain_frames(vec![vec![1]]), vec![vec![1]]);
    assert!(!live.is_ready(Target::Native, true));
    assert!(live.is_ready(Target::Wasm, true));
    live.started_native(false);
    assert!(!live.ready);
    live.started_native(true);
    assert!(live.is_ready(Target::Native, false));
    live.started_web(false);
    assert!(!live.ready);
}

#[test]
fn muted_client_never_touches_the_microphone() {
    let playing = Session::Playing { my_slot: 1 };
    let mut v = VoiceState::default();
    assert!(v.muted);
    assert_eq!(v.voice_capture_send(playing, Target::Native, false, false), MicStep::Idle);
    assert_eq!(v.voice_mute_toggle(false), MicStep::Idle);
    assert_eq!(v.voice_mute_toggle(true), MicStep::Start);
    assert!(!v.muted);
    assert_eq!(v.unmute_started(Target::Native, true, true), MicStep::Idle);
    assert!(v.mic_ready && !v.mic_denied);
    assert_eq!(
        v.voice_capture_send(playing, Target::Native, false, false),
        MicStep::Drain { enable: false }
    );
    v.frames_drained(2);
    assert!(v.self_live);
    assert_eq!(v.voice_capture_send(Session::Menu, Target::Native, true, false), MicStep::Idle);
    assert!(!v.self_live);
    assert_eq!(v.voice_mute_toggle(true), MicStep::Disable);
    assert!(v.muted);
}

#[test]
fn browser_refusal_mutes_again() {
    let playing = Session::Playing { my_slot: 0 };
    let mut v = VoiceState::default();
    v.voice_mute_toggle(true);
    assert_eq!(v.unmute_started(Target::Wasm, false, true), MicStep::Disable);
    assert!(v.muted && v.mic_denied);

    let mut w = VoiceState::default();
    w.voice_mute_toggle(true);
    assert_eq!(w.voice_capture_send(playing, Target::Wasm, false, false), MicStep::Start);
    assert_eq!(w.capture_started(true, false), MicStep::Drain { enable: true });
    assert_eq!(w.capture_started(false, true), MicStep::Disable);
    assert!(w.muted && w.mic_denied && !w.self_live);

    let mut x = VoiceState::default();
    assert_eq!(x.voice_capture_send(playing, Target::Wasm, true, true), MicStep::Idle);
    assert!(x.mic_ready && x.mic_denied);
}

#[test]
fn own_voice_is_never_played() {
    let mut sp = Speakers::new();
    let pcm = i16_to_pcm_bytes(&[1, 2, 3]);
    let mut rx: VecDeque<(u8, Vec<u8>)> = VecDeque::new();
    rx.push_back((2, pcm.clone()));
    rx.push_back((3, pcm.clone()));
    rx.push_back((3, vec![9]));
    rx.push_back((3, pcm.clone()));
    assert_eq!(sp.ingest(rx, 2), vec![3, 3]);
    assert!(sp.next_frame(2).is_none());
    assert_eq!(sp.next_frame(3), Some(vec![1, 2, 3]));
    assert_eq!(sp.next_frame(3), Some(vec![1, 2, 3]));
    assert!(sp.next_frame(3).is_none());
}

#[test]
fn quiet_speakers_are_forgotten() {
    let mut sp = Speakers::new();
    let pcm = i16_to_pcm_bytes(&[1]);
    sp.ingest(VecDeque::from(vec![(4, pcm.clone()), (4, pcm)]), 0);
    assert!(!sp.retire(4, key(2.0)), "frames are waiting");
    sp.next_frame(4);
    sp.next_frame(4);
    assert!(!sp.retire(4, key(1.0)), "not quiet for long enough");
    assert!(sp.retire(4, key(1.01)));
    assert!(!sp.retire(4, key(5.0)), "already gone");
}

#[test]
fn leaving_the_match_silences_everything() {
    let mut state = VoiceState { muted: false, mic_ready: true, mic_denied: false, self_live: true };
    let mut speakers = Speakers::new();
    let pcm = i16_to_pcm_bytes(&[1]);
    speakers.ingest(VecDeque::from(vec![(4, pcm.clone())]), 0);
    let mut rx: VecDeque<(u8, Vec<u8>)> = VecDeque::from(vec![(5, pcm)]);
    let playing = Session::Playing { my_slot: 0 };
    assert!(!voice_on_session_change(playing, true, &mut state, &mut speakers, &mut rx));
    assert!(!voice_on_session_change(Session::Menu, false, &mut state, &mut speakers, &mut rx));
    assert!(state.self_live && rx.len() == 1);
    assert!(voice_on_session_change(Session::Menu, true, &mut state, &mut speakers, &mut rx));
    assert!(state.muted && !state.self_live && state.mic_ready);
    assert!(rx.is_empty() && speakers.by_slot.is_empty());
}

#[test]
fn distance_zones() {
    let radius = key(25.0);
    assert_eq!(gain_zone(key(0.0), radius), GainZone::Full);
    assert_eq!(gain_zone(key(10.0), radius), GainZone::Full);
    assert_eq!(gain_zone(key(10.1), radius), GainZone::Fading);
    assert_eq!(gain_zone(key(24.9), radius), GainZone::Fading);
    assert_eq!(gain_zone(key(25.0), radius), GainZone::Silent);
    assert_eq!(gain_zone(key(100.0), radius), GainZone::Silent);
    assert_eq!(gain_zone(key(-1.0), radius), GainZone::Silent);
    assert_eq!(gain_zone(key(f32::NAN), radius), GainZone::Silent);
    assert_eq!(gain_zone(key(f32::INFINITY), key(f32::INFINITY)), GainZone::Silent);
    assert!(is_heard(key(0.01)));
    assert!(!is_heard(key(0.0099)));
}

#[test]
fn voice_constants_are_the_numbers_they_name() {
    assert_eq!(f32::from_bits(FADE_START_BITS), 10.0);
    assert_eq!(f32::from_bits(QUIET_BITS), 1.0);
    assert_eq!(f32::from_bits(GAIN_FLOOR_BITS), 0.01);
}
