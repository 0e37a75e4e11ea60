use kana_trainer::utils::bounded_bit_vec::BoundedBitVec;
use kana_trainer::utils::ToPercent;

struct Setup {
    empty: BoundedBitVec,
    full: BoundedBitVec,
    /// A non symmetric BoundedBitVec.
    bounded_bit_vec: BoundedBitVec,
}

fn setup() -> Setup {
    Setup {
        empty: 0b00000000.into(),
        full: 0b11111111.into(),
        bounded_bit_vec: 0b10110110.into(),
    }
}

#[test]
fn to_p() {
    let Setup {
        empty,
        full,
        bounded_bit_vec,
    } = setup();

    assert_eq!(0f64, empty.to_p() as f64 / 255f64);
    assert_eq!(1f64, full.to_p() as f64 / 255f64);
    assert_eq!(0.42745098039215684f64, bounded_bit_vec.to_p() as f64 / 255f64);
}

#[test]
fn get() {
    let Setup {
        empty,
        full,
        bounded_bit_vec,
    } = setup();

    for index in 0..8 {
        assert_eq!(false, empty.get(index));
    }

    for index in 0..8 {
        assert_eq!(true, full.get(index));
    }

    assert_eq!(false, bounded_bit_vec.get(0));
    assert_eq!(true, bounded_bit_vec.get(1));
    assert_eq!(true, bounded_bit_vec.get(2));
    assert_eq!(false, bounded_bit_vec.get(3));
    assert_eq!(true, bounded_bit_vec.get(4));
    assert_eq!(true, bounded_bit_vec.get(5));
    assert_eq!(false, bounded_bit_vec.get(6));
    assert_eq!(true, bounded_bit_vec.get(7));
}

#[test]
fn push() {
    let mut bounded_bit_vec = BoundedBitVec::new();

    assert_eq!(0b00000000, u8::from(bounded_bit_vec.clone()));

    bounded_bit_vec.push(true);

    assert_eq!(0b00000001, u8::from(bounded_bit_vec.clone()));

    bounded_bit_vec.push(true);

    assert_eq!(0b00000011, u8::from(bounded_bit_vec.clone()));

    bounded_bit_vec.push(false);

    assert_eq!(0b00000110, u8::from(bounded_bit_vec.clone()));
}

#[test]
fn display() {
    let Setup {
        empty,
        full,
        bounded_bit_vec,
    } = setup();

    assert_eq!(
        "[false, false, false, false, false, false, false, false]",
        empty.to_string()
    );

    assert_eq!(
        "[true, true, true, true, true, true, true, true]",
        full.to_string()
    );

    // bounded_bit_vec: 0b10110110
    assert_eq!(
        "[false, true, true, false, true, true, false, true]",
        bounded_bit_vec.to_string()
    );
}

fn pushed_all(outcomes: &[bool]) -> BoundedBitVec {
    let mut h = BoundedBitVec::new();
    for &o in outcomes {
        h.push(o);
    }
    h
}

#[test]
fn all_true_history_has_full_mastery() {
    let h = pushed_all(&[true; 8]);
    assert_eq!(255, h.to_p());
    assert_eq!(1f64, h.to_p() as f64 / 255f64);
    assert_eq!(8, h.to_p_unweighted());
    assert_eq!(100, h.to_percent());
}

#[test]
fn all_false_history_has_no_mastery() {
    let h = pushed_all(&[false; 8]);
    assert_eq!(0, h.to_p());
    assert_eq!(0, h.to_p_unweighted());
    assert_eq!(0, h.to_percent());
    assert!(!h.is_empty());
}

#[test]
fn regression_pattern_masteries() {
    let h = pushed_all(&[true, false, true, true, false, true, true, false]);
    assert_eq!(0b10110110, u8::from(h));
    assert_eq!(109, h.to_p());
    assert!((h.to_p() as f64 / 255f64 - 0.4275).abs() < 0.0001);
    assert_eq!(5, h.to_p_unweighted());
    assert_eq!(0.625, h.to_p_unweighted() as f64 / 8f64);
    assert_eq!(42, h.to_percent());
}

#[test]
fn most_recent_outcome_weighs_most() {
    let h = pushed_all(&[true]);
    assert_eq!(128, h.to_p());
    let h = pushed_all(&[true, false]);
    assert_eq!(64, h.to_p());
    assert_eq!(1, h.to_p_unweighted());
}

#[test]
fn only_the_newest_eight_outcomes_count() {
    let recent = [false, true, true, false, true, false, false, true];
    let mut a: Vec<bool> = vec![true; 5];
    a.extend_from_slice(&recent);
    let mut b: Vec<bool> = vec![false; 11];
    b.extend_from_slice(&recent);
    let ha = pushed_all(&a);
    let hb = pushed_all(&b);
    assert_eq!(u8::from(ha), u8::from(hb));
    assert_eq!(ha.to_p(), hb.to_p());
    assert_eq!(ha.to_p(), pushed_all(&recent).to_p());
    assert_eq!(ha.to_bools(), hb.to_bools());
}

#[test]
fn empty_history_is_empty() {
    let h = BoundedBitVec::new();
    assert!(h.is_empty());
    assert_eq!(0, h.to_p());
    assert_eq!([false; 8], h.to_bools());
    let mut h = h;
    h.push(false);
    assert!(!h.is_empty());
    assert_eq!(
        "[false, false, false, false, false, false, false, false]",
        h.to_string()
    );
}

#[test]
fn to_bools_lists_most_recent_first() {
    let h = pushed_all(&[true, false, false]);
    assert_eq!([false, false, true, false, false, false, false, false], h.to_bools());
    assert_eq!(
        "[false, false, true, false, false, false, false, false]",
        h.to_string()
    );
}
