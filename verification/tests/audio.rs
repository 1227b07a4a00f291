//! Sound priorities, the voice pool, noise and phrases.

use std::collections::VecDeque;

use zz_client::audio::{
    drain_sfx_queue, kill_phrase, samples_for_ms, sfx_priority, team_wipe_phrase, Clip, ClipCursor,
    Gain, XorShift32, MAX_CONCURRENT, MAX_GROWLS, SAMPLE_RATE,
};
use zz_client::scalar::F32;
use zz_client::seams::Sfx;

#[test]
fn xorshift_not_all_zero() {
    let mut rng = XorShift32::new(1);
    let mut any_nonzero = false;
    for _ in 0..32 {
        if rng.next_u32() != 0 {
            any_nonzero = true;
            break;
        }
    }
    assert!(any_nonzero);
}

#[test]
fn xorshift_first_values() {
    let mut rng = XorShift32::new(1);
    assert_eq!(rng.next_u32(), 270369);
    assert_eq!(rng.next_u32(), 67634689);
    assert_eq!(XorShift32::new(0).state, 0xA5A5_5A5A);
}

#[test]
fn samples_for_ms_roundtrip() {
    assert_eq!(samples_for_ms(1000), SAMPLE_RATE as u64);
    assert_eq!(samples_for_ms(0), 0);
}

#[test]
fn samples_round_to_the_nearest() {
    for ms in [1u32, 7, 20, 33, 70, 160, 999] {
        let exact = (SAMPLE_RATE as f32 * ms as f32 / 1000.0).round() as u64;
        assert_eq!(samples_for_ms(ms), exact);
    }
}

#[test]
fn priority_remote_shoot_lowest() {
    assert!(
        sfx_priority(&Sfx::Shoot { from_me: false }) < sfx_priority(&Sfx::Shoot { from_me: true })
    );
    assert!(sfx_priority(&Sfx::Shoot { from_me: false }) < sfx_priority(&Sfx::Hurt));
    assert!(sfx_priority(&Sfx::TeamWipe) > sfx_priority(&Sfx::Click));
}

#[test]
fn full_pool_drops_what_matters_least() {
    let mut q: VecDeque<Sfx> = VecDeque::new();
    q.push_back(Sfx::Shoot { from_me: false });
    q.push_back(Sfx::TeamWipe);
    let played = drain_sfx_queue(&mut q, MAX_CONCURRENT, 0);
    assert!(q.is_empty());
    assert!(played.iter().all(|v| v.clip != Clip::Shoot));
}

#[test]
fn growls_have_their_own_limit() {
    let growl = Sfx::Growl { volume: F32::from_bits(0.5f32.to_bits()) };
    let mut q: VecDeque<Sfx> = VecDeque::from(vec![growl; 10]);
    let played = drain_sfx_queue(&mut q, 0, 0);
    assert!(played.len() <= MAX_GROWLS);
    assert!(played.iter().all(|v| v.growl && v.clip == Clip::Growl));
}

#[test]
fn remote_shots_are_quieter() {
    let mut q: VecDeque<Sfx> =
        VecDeque::from(vec![Sfx::Shoot { from_me: true }, Sfx::Shoot { from_me: false }]);
    let played = drain_sfx_queue(&mut q, 0, 0);
    assert_eq!(played.len(), 2);
    assert_eq!(played[0].gain, Gain::Percent(100));
    assert_eq!(played[1].gain, Gain::Percent(40));
}

#[test]
fn phrases_fill_their_length() {
    let kill = kill_phrase();
    assert_eq!(kill.len(), 2 * samples_for_ms(70) + samples_for_ms(20));
    assert_eq!(kill.start(1), samples_for_ms(70) + samples_for_ms(20));
    let wipe = team_wipe_phrase();
    assert_eq!(wipe.len(), 3 * samples_for_ms(160) + 2 * samples_for_ms(40));
    assert_eq!(wipe.start(0), 0);
    assert_eq!(wipe.start(2) + wipe.note, wipe.len());
}

#[test]
fn a_clip_plays_once_through() {
    let mut c = ClipCursor::new(2);
    assert_eq!(c.remaining(), 2);
    assert_eq!(c.next_index(), Some(0));
    assert_eq!(c.next_index(), Some(1));
    assert_eq!(c.next_index(), None);
    assert_eq!(c.next_index(), None);
    assert_eq!(c.remaining(), 0);
}
