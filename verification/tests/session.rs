use kibitz::session::id_text;

#[test]
fn ids_are_twenty_six_crockford_characters() {
    let id = id_text(1_700_000_000_000, 0xdead_beef, 0x0123_4567_89ab_cdef);
    assert_eq!(id.len(), 26, "{id}");
    assert!(id.bytes().all(|b| b.is_ascii_alphanumeric()), "{id}");
    assert!(!id.contains('I') && !id.contains('L') && !id.contains('O') && !id.contains('U'), "{id}");
    assert_eq!(id_text(0, 0, 0), "00000000000000000000000000");
    assert_eq!(id_text(1, 0, 0), "00000000010000000000000000");
    assert_eq!(id_text(0, 0, 31), "0000000000000000000000000Z");
}

#[test]
fn ids_sort_by_time_first() {
    let first = id_text(1_700_000_000_000, u64::MAX, u64::MAX);
    let second = id_text(1_700_000_000_001, 0, 0);
    assert!(first < second, "{first} !< {second}");
}

#[test]
fn ids_sort_by_time_up_to_the_last_millisecond_they_hold() {
    let first = id_text(0xffff_ffff_fffe, u64::MAX, u64::MAX);
    let second = id_text(0xffff_ffff_ffff, 0, 0);
    assert!(first < second, "{first} !< {second}");
    assert!(id_text(31, 0, 0) < id_text(32, 0, 0));
}
