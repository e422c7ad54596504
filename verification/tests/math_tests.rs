use lightqos::numeric::{binomial, factorial};
use lightqos::octave::{octave_difference, OctaveCycle, OctavePosition};
use lightqos::spaces::{Fiber, NormType, RiggedHilbertSpace};
use lightqos::text::{decimal_string, hex_string, hex_string_padded};

#[test]
fn test_factorial() {
    assert_eq!(factorial(0), 1);
    assert_eq!(factorial(1), 1);
    assert_eq!(factorial(5), 120);
    assert_eq!(factorial(10), 3628800);
}

#[test]
fn test_binomial() {
    assert_eq!(binomial(5, 2), 10);
    assert_eq!(binomial(10, 3), 120);
    assert_eq!(binomial(5, 0), 1);
    assert_eq!(binomial(5, 5), 1);
}

#[test]
fn factorial_largest_supported() {
    assert_eq!(factorial(20), 2432902008176640000);
    assert_eq!(factorial(11), 39916800);
}

#[test]
fn binomial_out_of_range_and_symmetry() {
    assert_eq!(binomial(4, 7), 0);
    assert_eq!(binomial(20, 10), 184756);
    assert_eq!(binomial(12, 5), binomial(12, 7));
}

#[test]
fn test_octave_positions() {
    assert_eq!(OctavePosition::Generation4Plus.as_index(), 4);
    assert_eq!(OctavePosition::Inertia0.as_index(), 0);
    assert_eq!(OctavePosition::Radiation4Minus.as_index(), -4);
}

#[test]
fn octave_index_roundtrip_and_bounds() {
    for i in -4i8..=4 {
        let p = OctavePosition::from_index(i).unwrap();
        assert_eq!(p.as_index(), i);
    }
    assert_eq!(OctavePosition::from_index(5), None);
    assert_eq!(OctavePosition::from_index(-5), None);
}

#[test]
fn octave_phases() {
    assert!(OctavePosition::Generation2Plus.is_generation());
    assert!(OctavePosition::Radiation1Minus.is_radiation());
    assert!(OctavePosition::Inertia0.is_inertia());
    assert!(!OctavePosition::Inertia0.is_generation());
    assert!(!OctavePosition::Inertia0.is_radiation());
}

#[test]
fn octave_next_previous() {
    assert_eq!(OctavePosition::Generation4Plus.next(), Some(OctavePosition::Generation3Plus));
    assert_eq!(OctavePosition::Radiation4Minus.next(), Some(OctavePosition::Generation4Plus));
    assert_eq!(OctavePosition::Generation4Plus.previous(), None);
    assert_eq!(OctavePosition::Inertia0.previous(), Some(OctavePosition::Generation1Plus));
}

#[test]
fn octave_cycle_returns_after_nine_steps() {
    let start = OctavePosition::Generation2Plus;
    let mut pos = start;
    for step in 1..=9 {
        pos = pos.next().unwrap();
        if step < 9 {
            assert_ne!(pos, start);
        }
    }
    assert_eq!(pos, start);
}

#[test]
fn octave_cycle_positions_and_difference() {
    let cycle = OctaveCycle::new();
    let all = cycle.all_positions();
    assert_eq!(all.len(), 9);
    assert_eq!(all[0], OctavePosition::Generation4Plus);
    assert_eq!(all[8], OctavePosition::Radiation4Minus);
    assert_eq!(octave_difference(OctavePosition::Inertia0, OctavePosition::Generation4Plus), 4);
    assert_eq!(octave_difference(OctavePosition::Generation4Plus, OctavePosition::Radiation4Minus), -8);
    assert_eq!(OctavePosition::Inertia0.to_string(), "0=");
    assert_eq!(OctavePosition::Radiation3Minus.to_string(), "3-");
}

#[test]
fn fiber_bases() {
    let q = Fiber::qubit();
    assert_eq!(q.hilbert_dim, 2);
    assert_eq!(q.basis, vec!["0".to_string(), "1".to_string()]);
    let d = Fiber::high_dimensional(12);
    assert_eq!(d.hilbert_dim, 12);
    assert_eq!(d.basis[11], "11");
}

#[test]
fn rigged_spaces() {
    let h = RiggedHilbertSpace::new(8);
    assert_eq!(h.dimension, 8);
    assert_eq!(h.norm_type, NormType::L2);
    let s = RiggedHilbertSpace::schwartz(4, 3);
    assert_eq!(s.regularity_index, 3);
    assert_eq!(s.norm_type, NormType::Sobolev(3));
}

#[test]
fn number_rendering() {
    assert_eq!(decimal_string(0), "0");
    assert_eq!(decimal_string(3628800), "3628800");
    assert_eq!(hex_string(255), "ff");
    assert_eq!(hex_string_padded(0xab, 8), "000000ab");
}

#[test]
fn octave_cycle_walk_is_stopped_by_its_guard() {
    // Walking the cycle from 4+: `next` restarts at 4- and never answers None,
    // so the walk only ends at its guard, after 11 transitions.
    let mut pos = OctavePosition::Generation4Plus;
    let mut count = 0;
    while let Some(next_pos) = pos.next() {
        count += 1;
        pos = next_pos;
        if count > 10 {
            break;
        }
    }
    assert_eq!(count, 11);
}

#[test]
fn binomial_beyond_factorial_range_when_k_exceeds_n() {
    assert_eq!(binomial(30, 31), 0);
    assert_eq!(binomial(u64::MAX - 1, u64::MAX), 0);
}

#[test]
fn binomial_follows_pascal_rule() {
    for n in 2..=20u64 {
        for k in 1..n {
            assert_eq!(binomial(n, k), binomial(n - 1, k - 1) + binomial(n - 1, k));
        }
    }
}
