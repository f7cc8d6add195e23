use timecore::word::{iWord, uLong, uWord};

#[test]
fn unsigned_word_checked_increment_fails_at_max() {
    let w = uWord::max();
    assert!(w.increment().is_none());
    assert_eq!(uWord::lit(5).increment().unwrap().value(), 6);
}

#[test]
fn signed_word_checked_increment_fails_at_max() {
    let w = iWord::try_new(31).unwrap();
    assert!(w.increment().is_none());
    assert_eq!(iWord::try_new(-32).unwrap().increment().unwrap().value(), -31);
}

#[test]
fn pc_advance_wraps_instead_of_failing() {
    let top = uLong::try_new(4095).unwrap();
    assert_eq!(top.wrapping_add(1).value(), 0);
    assert_eq!(uLong::zero().wrapping_add(-1).value(), 4095);
}

#[test]
fn cast_is_bit_reinterpretation() {
    assert_eq!(uWord::lit(63).as_iword().value(), -1);
    assert_eq!(iWord::try_new(-1).unwrap().as_uword().value(), 63);
    assert_eq!(uWord::lit(31).as_iword().value(), 31);
}
