use kibitz::score::Score;

#[test]
fn mating_side_reports_who_delivers() {
    assert_eq!(Score::Cp(500).mating_side(), None);
    assert_eq!(Score::Mate(3).mating_side(), Some(true));
    assert_eq!(Score::Mate(-3).mating_side(), Some(false));
    assert_eq!(Score::Mate(0).mating_side(), Some(false));
}

#[test]
fn negate_flips_point_of_view() {
    assert_eq!(Score::Cp(120).negate(), Score::Cp(-120));
    assert_eq!(Score::Cp(0).negate(), Score::Cp(0));
    assert_eq!(Score::Mate(3).negate(), Score::Mate(-3));
    assert_eq!(Score::Mate(-3).negate(), Score::Mate(3));
}

#[test]
fn negate_is_an_involution_except_for_mate_zero() {
    for s in [Score::Cp(0), Score::Cp(-42), Score::Mate(2), Score::Mate(-2)] {
        assert_eq!(s.negate().negate(), s);
    }
}

#[test]
fn negate_of_mate_zero_is_mate_in_one() {
    assert_eq!(Score::Mate(0).negate(), Score::Mate(1));
    assert_eq!(Score::Mate(0).negate().mating_side(), Some(true));
}

#[test]
fn is_mate_tells_the_kinds_apart() {
    assert!(Score::Mate(-1).is_mate());
    assert!(!Score::Cp(900).is_mate());
}
