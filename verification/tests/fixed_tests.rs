use raycaster::fixed::{fx_div, fx_floor, fx_mul, fx_trunc, isqrt};
use raycaster::sprite::Sprite;
use raycaster::ui::{GameMode, UiState};

#[test]
fn multiplication_truncates_toward_zero() {
    assert_eq!(fx_mul(65536, 65536), 65536);
    assert_eq!(fx_mul(32768, 32768), 16384);
    assert_eq!(fx_mul(-32768, 32768), -16384);
    assert_eq!(fx_mul(-32768, -32768), 16384);
    assert_eq!(fx_mul(1, 1), 0);
    assert_eq!(fx_mul(-1, 1), 0);
}

#[test]
fn division_truncates_toward_zero() {
    assert_eq!(fx_div(65536, 65536), 65536);
    assert_eq!(fx_div(65536, 131072), 32768);
    assert_eq!(fx_div(-65536, 131072), -32768);
    assert_eq!(fx_div(1, 65536), 1);
    assert_eq!(fx_div(-1, 65536), -1);
}

#[test]
fn floor_and_trunc_differ_on_negatives() {
    assert_eq!(fx_floor(98304), 1);
    assert_eq!(fx_trunc(98304), 1);
    assert_eq!(fx_floor(-1), -1);
    assert_eq!(fx_trunc(-1), 0);
    assert_eq!(fx_floor(-65536), -1);
    assert_eq!(fx_trunc(-65536), -1);
    assert_eq!(fx_floor(-65537), -2);
    assert_eq!(fx_trunc(-65537), -1);
    assert_eq!(fx_floor(0), 0);
}

#[test]
fn integer_square_roots() {
    assert_eq!(isqrt(0), 0);
    assert_eq!(isqrt(1), 1);
    assert_eq!(isqrt(3), 1);
    assert_eq!(isqrt(4), 2);
    assert_eq!(isqrt(65536 * 65536), 65536);
    assert_eq!(isqrt(2 * 65536 * 65536), 92681);
    assert_eq!(isqrt(u64::MAX), 4294967295);
}

#[test]
fn ui_starts_on_welcome() {
    let ui = UiState::default();
    assert!(matches!(ui.mode, GameMode::Welcome));
    assert_eq!(ui.fps, 0);
}

#[test]
fn sprite_blinks_with_its_period() {
    let mut s = Sprite::new(65536, 131072);
    let a = s.color();
    s.update(s.period + 1);
    let b = s.color();
    assert_eq!(a, s.color_a);
    assert_eq!(b, s.color_b);
    // Adding a full cycle leaves the phase where it was.
    s.update(s.period * 2);
    assert_eq!(s.color(), s.color_b);
    s.update(s.period);
    assert_eq!(s.color(), s.color_a);
}
