//! Number order, decimals and what passes between modules.

use zz_client::scalar::{F32, F64};
use zz_client::seams::{LobbyView, QueuedBootAction, Sfx};
use zz_client::text::push_decimal;

fn key(v: f32) -> F32 {
    F32::from_bits(v.to_bits())
}

#[test]
fn keys_order_like_the_numbers() {
    let values = [
        f32::NEG_INFINITY,
        -3.5,
        -1.0e-40,
        -0.0,
        0.0,
        1.0e-40,
        0.35,
        2.0,
        f32::MAX,
        f32::INFINITY,
        f32::NAN,
    ];
    for a in values {
        assert_eq!(key(a).abs(), key(a.abs()), "{a}");
        for b in values {
            assert_eq!(key(a).lt(key(b)), a < b, "{a} < {b}");
            assert_eq!(key(a).le(key(b)), a <= b, "{a} <= {b}");
            let (da, db) = (F64::from_bits((a as f64).to_bits()), F64::from_bits((b as f64).to_bits()));
            assert_eq!(da.lt(db), a < b);
            assert_eq!(da.le(db), a <= b);
        }
        assert_eq!(key(a).is_nan(), a.is_nan());
        assert_eq!(f32::from_bits(key(a).neg().bits).to_bits(), (-a).to_bits());
    }
    assert!(key(-1.0).order_rank() < key(0.5).order_rank());
    assert_eq!(key(0.0).order_rank(), key(-0.0).order_rank());
}

#[test]
fn decimals_read_like_the_standard_ones() {
    for n in [0u64, 7, 10, 42, 999, 1000, 65535, u64::MAX] {
        let mut s = String::from("x");
        push_decimal(&mut s, n);
        assert_eq!(s, format!("x{n}"));
    }
}

#[test]
fn sfx_growl_is_constructible() {
    let g = Sfx::Growl { volume: key(0.5) };
    match g {
        Sfx::Growl { volume } => assert!((f32::from_bits(volume.bits) - 0.5).abs() < 1e-6),
        _ => panic!("expected Growl"),
    }
}

#[test]
fn a_blank_lobby_knows_only_the_name() {
    let v = LobbyView::for_name("Ann".to_string());
    assert_eq!(v.name, "Ann");
    assert!(v.code.is_empty() && v.players.is_empty() && !v.is_host && v.env.is_none());
    assert_eq!(LobbyView::default().name, "");
    assert_ne!(QueuedBootAction::Host, QueuedBootAction::Join("A".to_string()));
}
