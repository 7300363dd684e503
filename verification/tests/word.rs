use deet::word::{align_addr_to_word, splice_byte};

#[test]
fn align_rounds_down_to_eight() {
    assert_eq!(align_addr_to_word(0), 0);
    assert_eq!(align_addr_to_word(7), 0);
    assert_eq!(align_addr_to_word(8), 8);
    assert_eq!(align_addr_to_word(0x40_1a3d), 0x40_1a38);
}

#[test]
fn splice_replaces_one_byte() {
    let (word, old) = splice_byte(0x1122_3344_5566_7788, 2, 0xcc);
    assert_eq!(word, 0x1122_3344_55cc_7788);
    assert_eq!(old, 0x66);
}
