use deet::word::{byte_offset, patch_word, word_base, TRAP_BYTE, WORD_SIZE};

#[test]
fn patch_replaces_one_byte_of_the_word() {
    let (patched, original) = patch_word(0x1122_3344_5566_7788, 3, 0xcc);
    assert_eq!(patched, 0x1122_3344_cc66_7788);
    assert_eq!(original, 0x55);
}

#[test]
fn base_and_offset_split_an_address() {
    assert_eq!(word_base(0x40_1136), 0x40_1130);
    assert_eq!(byte_offset(0x40_1136), 6);
    assert_eq!(word_base(0x40_1130), 0x40_1130);
    assert_eq!(byte_offset(0x40_1130), 0);
    assert_eq!(word_base(usize::MAX), usize::MAX - 7);
    assert_eq!(byte_offset(usize::MAX), 7);
    assert_eq!(word_base(0), 0);
    assert_eq!(WORD_SIZE, 8);
    assert_eq!(TRAP_BYTE, 0xcc);
}

#[test]
fn patch_at_every_offset_keeps_the_neighbours() {
    let word: u64 = 0x8877_6655_4433_2211;
    for k in 0..8usize {
        let (patched, original) = patch_word(word, k, 0xcc);
        assert_eq!(original as u64, (word >> (8 * k)) & 0xff);
        for j in 0..8usize {
            let byte = (patched >> (8 * j)) & 0xff;
            if j == k {
                assert_eq!(byte, 0xcc);
            } else {
                assert_eq!(byte, (word >> (8 * j)) & 0xff);
            }
        }
    }
}

#[test]
fn writing_twice_leaves_the_second_byte() {
    let word: u64 = 0x0102_0304_0506_0708;
    let (first, before) = patch_word(word, 5, 0xaa);
    assert_eq!(before, 0x03);
    let (second, between) = patch_word(first, 5, 0xbb);
    assert_eq!(between, 0xaa);
    assert_eq!(second, 0x0102_bb04_0506_0708);
    let (restored, _) = patch_word(second, 5, before);
    assert_eq!(restored, word);
}

#[test]
fn patch_of_the_top_byte_does_not_overflow() {
    assert_eq!(patch_word(u64::MAX, 7, 0), (0x00ff_ffff_ffff_ffff, 0xff));
    assert_eq!(patch_word(0, 7, 0xff), (0xff00_0000_0000_0000, 0));
    assert_eq!(patch_word(0, 0, 0xff), (0xff, 0));
}
