use tua_lexer::syntax_pos::DUMMY_RESERVE;
use tua_lexer::BytePos;

#[test]
fn dummy_position_is_zero() {
    assert_eq!(BytePos::dummy(), BytePos(0));
    assert!(BytePos::dummy().is_dummy());
    assert!(BytePos(0).is_dummy());
    assert!(!BytePos(1).is_dummy());
    assert!(!BytePos(u32::MAX).is_dummy());
}

#[test]
fn reserved_range_starts_two_to_the_sixteenth_below_the_top() {
    assert_eq!(DUMMY_RESERVE, u32::MAX - 65536);
    assert!(!BytePos(0).is_reserved_for_comments());
    assert!(!BytePos(DUMMY_RESERVE - 1).is_reserved_for_comments());
    assert!(BytePos(DUMMY_RESERVE).is_reserved_for_comments());
    assert!(BytePos(DUMMY_RESERVE + 1).is_reserved_for_comments());
    assert!(BytePos(u32::MAX - 1).is_reserved_for_comments());
    assert!(!BytePos(u32::MAX).is_reserved_for_comments());
}

#[test]
fn positions_are_ordered_by_offset() {
    assert!(BytePos(1) < BytePos(2));
    assert_eq!(BytePos(7), BytePos(7));
    assert_eq!(BytePos(7).0, 7);
}
