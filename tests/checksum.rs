use nust::checksum::{checksum_value, ones_complement_sum_byte_buffer, verify_checksum};

#[test]
fn single_carry_over() {
    let buf: [u8; 4] = [0x80, 0x0, 0x80, 0x0];
    assert_eq!(0x1, ones_complement_sum_byte_buffer(&buf));
}

#[test]
fn double_carry_over() {
    let buf: [u8; 6] = [0x80, 0x0, 0x80, 0x0, 0xFF, 0xFF];
    assert_eq!(0x1, ones_complement_sum_byte_buffer(&buf));
}

#[test]
fn odd_trailing_byte_is_padded_on_the_right() {
    assert_eq!(ones_complement_sum_byte_buffer(&[0x12]), 0x1200);
    assert_eq!(ones_complement_sum_byte_buffer(&[0x12, 0x34, 0x56]), 0x1234 + 0x5600);
}

#[test]
fn all_ones_words_fold_to_all_ones() {
    assert_eq!(ones_complement_sum_byte_buffer(&[0xFF, 0xFF, 0xFF, 0xFF, 0xFF, 0xFF]), 0xFFFF);
    assert_eq!(ones_complement_sum_byte_buffer(&[0x00, 0x00]), 0x0000);
}

#[test]
fn long_buffer_folds_every_carry() {
    // 40000 words of 0xFFFF: the plain sum needs more than 32 bits of headroom
    // over many steps, the folded sum is 0xFFFF.
    let buf = vec![0xFFu8; 80000];
    assert_eq!(ones_complement_sum_byte_buffer(&buf), 0xFFFF);
    let buf = vec![0x01u8; 80001];
    // 40000 words of 0x0101 plus a final 0x0100.
    let plain: u64 = 40000 * 0x0101 + 0x0100;
    let mut folded = plain;
    while folded > 0xFFFF {
        folded = (folded & 0xFFFF) + (folded >> 16);
    }
    assert_eq!(ones_complement_sum_byte_buffer(&buf) as u64, folded);
}

#[test]
fn verify_is_sum_equal_to_all_ones() {
    let header: [u8; 20] = [
        0x45, 0x0, 0x0, 0x54, 0x1b, 0xb, 0x40, 0x0, 0x40, 0x1, 0x9e, 0x4a, 0xc0, 0xa8, 0x0, 0x1,
        0xc0, 0xa8, 0x0, 0x2,
    ];
    assert_eq!(ones_complement_sum_byte_buffer(&header), 0xFFFF);
    assert!(verify_checksum(&header));
    let mut corrupted = header;
    corrupted[11] = 0x4b;
    assert_ne!(ones_complement_sum_byte_buffer(&corrupted), 0xFFFF);
    assert!(!verify_checksum(&corrupted));
    assert!(!verify_checksum(&[0x80, 0x0, 0x80, 0x0]));
}

#[test]
fn checksum_value_is_complement_of_sum() {
    let mut header: [u8; 20] = [
        0x45, 0x0, 0x0, 0x54, 0x1b, 0xb, 0x40, 0x0, 0x40, 0x1, 0x0, 0x0, 0xc0, 0xa8, 0x0, 0x1,
        0xc0, 0xa8, 0x0, 0x2,
    ];
    let c = checksum_value(&header);
    assert_eq!(c, 0x9e4a);
    assert_eq!(c, !ones_complement_sum_byte_buffer(&header));
    header[10] = (c >> 8) as u8;
    header[11] = (c & 0xff) as u8;
    assert!(verify_checksum(&header));
}
