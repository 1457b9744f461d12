use gfx_core::bits::{detect_endianness, split_bits, Endianness};

#[test]
fn test_split_bits() {
    let n: u32 = 0b10101010;
    let res = split_bits(n);
    let mut expected = vec![0; 32];
    expected[31] = 0;
    expected[30] = 1;
    expected[29] = 0;
    expected[28] = 1;
    expected[27] = 0;
    expected[26] = 1;
    expected[25] = 0;
    expected[24] = 1;
    assert_eq!(res, expected);
}

#[test]
fn split_bits_of_zero_and_of_all_ones() {
    assert_eq!(split_bits(0), vec![0u32; 32]);
    assert_eq!(split_bits(0xffff_ffff), vec![1u32; 32]);
}

#[test]
fn split_bits_puts_the_top_bit_first() {
    let res = split_bits(0x8000_0001);
    assert_eq!(res.len(), 32);
    assert_eq!(res[0], 1);
    assert_eq!(res[31], 1);
    assert_eq!(res[1..31].iter().sum::<u32>(), 0);
}

#[test]
fn byte_order_is_told_from_the_bytes() {
    assert_eq!(detect_endianness([1, 2, 3, 4]), Endianness::Big);
    assert_eq!(detect_endianness([4, 3, 2, 1]), Endianness::Little);
    assert_eq!(detect_endianness([2, 1, 4, 3]), Endianness::Unknown);
    assert_eq!(detect_endianness([1, 2, 3, 5]), Endianness::Unknown);
    let native = detect_endianness(0x01020304u32.to_ne_bytes());
    assert_eq!(native, detect_endianness(0x01020304u32.to_ne_bytes()));
    assert_ne!(native, Endianness::Unknown);
}
