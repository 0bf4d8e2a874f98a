use terrain_mesh::deposit::{cos_turn_fx, sin_turn_fx};
use terrain_mesh::fixed::{fx_mul, isqrt, scale_div, FX_ONE};
use terrain_mesh::rng::{Lcg, RandomSource, ScriptedSource};

#[test]
fn fx_mul_exact_products() {
    assert_eq!(fx_mul(3 * FX_ONE, 2 * FX_ONE), 6 * FX_ONE);
    assert_eq!(fx_mul(-3 * FX_ONE, 2 * FX_ONE), -6 * FX_ONE);
    assert_eq!(fx_mul(3 * FX_ONE, -2 * FX_ONE), -6 * FX_ONE);
    assert_eq!(fx_mul(-3 * FX_ONE, -2 * FX_ONE), 6 * FX_ONE);
    assert_eq!(fx_mul(FX_ONE / 2, FX_ONE / 2), FX_ONE / 4);
    assert_eq!(fx_mul(0, 12345), 0);
    // Truncation is toward zero on both signs.
    assert_eq!(fx_mul(1, 1), 0);
    assert_eq!(fx_mul(-1, 1), 0);
}

#[test]
fn isqrt_exact_values() {
    assert_eq!(isqrt(0), 0);
    assert_eq!(isqrt(1), 1);
    assert_eq!(isqrt(3), 1);
    assert_eq!(isqrt(4), 2);
    assert_eq!(isqrt(15), 3);
    assert_eq!(isqrt(16), 4);
    assert_eq!(isqrt(1 << 40), 1 << 20);
    assert_eq!(isqrt((1 << 40) - 1), (1 << 20) - 1);
    let big: u128 = (1u128 << 126) - 1;
    let r = isqrt(big) as u128;
    assert!(r * r <= big && (r + 1) * (r + 1) > big);
}

#[test]
fn scale_div_unit_results() {
    assert_eq!(scale_div(5, 5), 65536);
    assert_eq!(scale_div(-5, 5), -65536);
    assert_eq!(scale_div(1, 2), 32768);
    assert_eq!(scale_div(0, 7), 0);
}

#[test]
fn sine_cardinal_points() {
    assert_eq!(sin_turn_fx(0), 0);
    assert_eq!(sin_turn_fx(0x4000_0000), FX_ONE);
    assert_eq!(sin_turn_fx(0x8000_0000), 0);
    assert_eq!(sin_turn_fx(0xC000_0000), -FX_ONE);
    assert_eq!(cos_turn_fx(0), FX_ONE);
    assert_eq!(cos_turn_fx(0x4000_0000), 0);
    assert_eq!(cos_turn_fx(0x8000_0000), -FX_ONE);
    assert_eq!(cos_turn_fx(0xC000_0000), 0);
}

#[test]
fn sine_eighth_turn_close() {
    // sin(pi/4) ~ 0.70711; the rational approximation gives ~0.70588.
    let s = sin_turn_fx(0x2000_0000);
    let expect = (0.70710678 * 65536.0) as i64;
    assert!((s - expect).abs() < 150, "sin(1/8 turn) = {s}");
    let c = cos_turn_fx(0x2000_0000);
    assert!((c - expect).abs() < 150, "cos(1/8 turn) = {c}");
}

#[test]
fn sine_stays_in_unit_range() {
    let mut t: u64 = 0;
    while t < 0x1_0000_0000 {
        let s = sin_turn_fx(t as u32);
        let c = cos_turn_fx(t as u32);
        assert!(-FX_ONE <= s && s <= FX_ONE);
        assert!(-FX_ONE <= c && c <= FX_ONE);
        t += 0x0100_0000;
    }
}

#[test]
fn lcg_same_seed_same_stream() {
    let mut a = Lcg::new(42);
    let mut b = Lcg::new(42);
    for _ in 0..100 {
        assert_eq!(a.next_fraction(), b.next_fraction());
    }
    let mut c = Lcg::new(43);
    let mut d = Lcg::new(42);
    let mut differs = false;
    for _ in 0..100 {
        if c.next_fraction() != d.next_fraction() {
            differs = true;
        }
    }
    assert!(differs);
}

#[test]
fn scripted_source_cycles() {
    let mut s = ScriptedSource::new(vec![1, 2, 3]);
    assert_eq!(s.next_fraction(), 1);
    assert_eq!(s.next_fraction(), 2);
    assert_eq!(s.next_fraction(), 3);
    assert_eq!(s.next_fraction(), 1);
    let mut e = ScriptedSource::new(vec![]);
    assert_eq!(e.next_fraction(), 0);
    assert_eq!(e.next_fraction(), 0);
}
