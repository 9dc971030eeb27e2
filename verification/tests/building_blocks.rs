use mkem::bits::{digit, pack_bits, unpack_bits};
use mkem::bytes::{array_from, join, to_array};
use mkem::ct::{eq_mask, select};
use mkem::decryption::all_small;
use mkem::ring::{add_mod, compress_all, decompress_all, mul_pair, reduce_all, sub_mod};
use mkem::sampling::{sample_noise, sample_uniform};

fn monomial(degree: usize, coeff: u16) -> Vec<u16> {
    let mut p = vec![0u16; 256];
    p[degree] = coeff;
    p
}

#[test]
fn digit_reads_one_binary_place() {
    assert_eq!(digit(0b1010, 0), 0);
    assert_eq!(digit(0b1010, 1), 1);
    assert_eq!(digit(0b1010, 3), 1);
    assert_eq!(digit(0x8000, 15), 1);
    assert_eq!(digit(0x7fff, 15), 0);
}

#[test]
fn pack_lays_digits_lowest_first() {
    assert_eq!(pack_bits(&[0xABC, 0x123], 12), vec![188, 58, 18]);
    assert_eq!(
        pack_bits(&[1, 2, 3, 4, 5, 6, 7, 2047], 11),
        vec![1, 16, 192, 0, 8, 80, 0, 3, 28, 224, 255]
    );
    assert_eq!(pack_bits(&[1, 2, 3, 4, 5, 6, 7, 0], 3), vec![209, 88, 31]);
    assert_eq!(pack_bits(&[1, 0, 0, 0, 0, 0, 0, 1], 1), vec![129]);
}

#[test]
fn pack_keeps_only_the_lowest_digits() {
    assert_eq!(pack_bits(&[0xFABC, 0xF123], 12), vec![188, 58, 18]);
}

#[test]
fn pack_drops_digits_that_fill_no_byte() {
    assert_eq!(pack_bits(&[0xABC], 12), vec![188]);
    assert_eq!(pack_bits(&[], 12), Vec::<u8>::new());
}

#[test]
fn unpack_reads_digits_lowest_first() {
    assert_eq!(unpack_bits(&[188, 58, 18], 12), vec![0xABC, 0x123]);
    assert_eq!(
        unpack_bits(&[1, 2, 3, 4, 5, 6, 7, 8, 9, 10, 11], 11),
        vec![513, 96, 1040, 770, 112, 528, 642, 88]
    );
    assert_eq!(unpack_bits(&[209, 88, 31], 3), vec![1, 2, 3, 4, 5, 6, 7, 0]);
    assert_eq!(unpack_bits(&[129], 1), vec![1, 0, 0, 0, 0, 0, 0, 1]);
    assert_eq!(unpack_bits(&[0xff, 0xff], 16), vec![0xffff]);
}

#[test]
fn unpack_undoes_pack() {
    let words: Vec<u16> = (0..256).map(|i| (i * 13 % 2048) as u16).collect();
    assert_eq!(unpack_bits(&pack_bits(&words, 11), 11), words);
    assert_eq!(pack_bits(&words, 11).len(), 352);
    let words: Vec<u16> = (0..256).map(|i| (i * 13 % 3329) as u16).collect();
    assert_eq!(unpack_bits(&pack_bits(&words, 12), 12), words);
    assert_eq!(pack_bits(&words, 12).len(), 384);
}

#[test]
fn compress_rounds_to_the_nearest_mark() {
    assert_eq!(
        compress_all(&[0, 832, 833, 1665, 2496, 2497, 3328], 2),
        vec![0, 0, 1, 1, 1, 0, 0]
    );
    assert_eq!(compress_all(&[1, 1000, 3328], 2048), vec![1, 615, 2047]);
    assert_eq!(compress_all(&[1000, 3200], 8), vec![2, 0]);
}

#[test]
fn decompress_gives_the_residue_at_a_mark() {
    assert_eq!(decompress_all(&[0, 1], 2), vec![0, 1665]);
    assert_eq!(decompress_all(&[1, 2047], 2048), vec![2, 3327]);
    assert_eq!(decompress_all(&[3, 7], 8), vec![1248, 2913]);
}

#[test]
fn sum_and_difference_wrap_at_the_modulus() {
    assert_eq!(add_mod(&[1, 3328, 2000], &[2, 1, 2000]), vec![3, 0, 671]);
    assert_eq!(sub_mod(&[1, 0, 2000], &[2, 1, 2000]), vec![3328, 3328, 0]);
    assert_eq!(reduce_all(&[0, 3328, 3329, 4095, 65535]), vec![0, 3328, 0, 766, 2284]);
}

#[test]
fn product_wraps_with_a_change_of_sign() {
    let zero = vec![0u16; 256];
    // X * X^255 = X^256 = -1
    let p = mul_pair(&monomial(1, 1), &monomial(255, 1), &zero, &zero);
    assert_eq!(p, monomial(0, 3328));
    // 2 X^3 * 5 X^4 = 10 X^7
    let p = mul_pair(&monomial(3, 2), &monomial(4, 5), &zero, &zero);
    assert_eq!(p, monomial(7, 10));
    // 3000 * 3000 = 9000000 = 1713 modulo 3329
    let p = mul_pair(&monomial(0, 3000), &monomial(0, 3000), &zero, &zero);
    assert_eq!(p, monomial(0, 1713));
}

#[test]
fn product_of_pairs_adds_both_products() {
    // X^200 * X^100 + 7 * X^44 = -X^44 + 7 X^44 = 6 X^44
    let p = mul_pair(
        &monomial(200, 1),
        &monomial(100, 1),
        &monomial(0, 7),
        &monomial(44, 1),
    );
    assert_eq!(p, monomial(44, 6));
}

#[test]
fn product_with_full_elements() {
    // (1 + X + ... + X^255) * (1 + X): coefficient 0 is 1 - 1, the others 2
    let ones = vec![1u16; 256];
    let mut b = vec![0u16; 256];
    b[0] = 1;
    b[1] = 1;
    let zero = vec![0u16; 256];
    let p = mul_pair(&ones, &b, &zero, &zero);
    let mut expected = vec![2u16; 256];
    expected[0] = 0;
    assert_eq!(p, expected);
}

#[test]
fn noise_counts_digits_of_each_half_byte() {
    let mut bytes = [0u8; 128];
    bytes[0] = 0x03; // 0011 then 0000
    bytes[1] = 0xC0; // 0000 then 1100
    bytes[2] = 0x59; // 1001 then 0101
    bytes[3] = 0xF7; // 0111 then 1111
    let p = sample_noise(&bytes);
    assert_eq!(p.len(), 256);
    assert_eq!(p[..8], [2, 0, 0, 3327, 0, 0, 1, 0]);
    assert!(p[8..].iter().all(|c| *c == 0));
}

#[test]
fn uniform_passes_over_numbers_that_are_no_residues() {
    let mut bytes = vec![0u8; 768];
    // 0xD01 = 3329 is passed over, 0xD00 = 3328 is kept
    bytes[0] = 0x01;
    bytes[1] = 0x0D;
    bytes[2] = 0xD0;
    // 0xFFF is passed over, 5 is kept
    bytes[3] = 0xFF;
    bytes[4] = 0x5F;
    bytes[5] = 0x00;
    let p = sample_uniform(&bytes);
    assert_eq!(p.len(), 256);
    assert_eq!(p[..3], [3328, 5, 0]);
}

#[test]
fn uniform_fills_with_zeros_where_residues_run_out() {
    let bytes = vec![0xFFu8; 768];
    assert_eq!(sample_uniform(&bytes), vec![0u16; 256]);
    let mut bytes = vec![0xFFu8; 768];
    bytes[765] = 0x07;
    bytes[766] = 0x00;
    bytes[767] = 0x00;
    let mut expected = vec![0u16; 256];
    expected[0] = 7;
    assert_eq!(sample_uniform(&bytes), expected);
}

#[test]
fn uniform_stops_at_the_number_of_coefficients() {
    let mut bytes = vec![0u8; 768];
    // 512 residues: the twelve-bit numbers 1, 2, 1, 2, ...
    for i in 0..256 {
        bytes[3 * i] = 0x01;
        bytes[3 * i + 1] = 0x20;
        bytes[3 * i + 2] = 0x00;
    }
    let p = sample_uniform(&bytes);
    assert_eq!(p.len(), 256);
    assert_eq!(p[..4], [1, 2, 1, 2]);
    assert_eq!(p[254..], [1, 2]);
}

#[test]
fn mask_tells_equal_from_different() {
    assert_eq!(eq_mask(&[1, 2, 3], &[1, 2, 3]), 0xff);
    assert_eq!(eq_mask(&[1, 2, 3], &[1, 2, 4]), 0);
    assert_eq!(eq_mask(&[0, 2, 3], &[0x80, 2, 3]), 0);
    assert_eq!(eq_mask(&[], &[]), 0xff);
}

#[test]
fn select_takes_one_side_whole() {
    assert_eq!(select(0xff, &[1, 2, 3], &[4, 5, 6]), [1, 2, 3]);
    assert_eq!(select(0, &[1, 2, 3], &[4, 5, 6]), [4, 5, 6]);
}

#[test]
fn byte_strings_join_and_cut() {
    assert_eq!(join(&[1, 2], &[3]), vec![1, 2, 3]);
    assert_eq!(join(&[], &[]), Vec::<u8>::new());
    let a: [u8; 3] = to_array(&[7, 8, 9]);
    assert_eq!(a, [7, 8, 9]);
    let b: [u8; 2] = array_from(&[7, 8, 9, 10], 1, 3);
    assert_eq!(b, [8, 9]);
}

#[test]
fn small_is_below_a_quarter_of_the_modulus() {
    assert!(all_small(&[]));
    assert!(all_small(&[0, 1, 831, 2498, 3328]));
    assert!(!all_small(&[0, 832]));
    assert!(!all_small(&[2497, 0]));
    assert!(!all_small(&[1664]));
}

#[test]
fn select_mixes_digit_by_digit_under_a_partial_mask() {
    assert_eq!(select(0x0f, &[0xab], &[0xcd]), [0xcb]);
}

#[test]
fn mask_of_different_lengths_is_empty() {
    assert_eq!(eq_mask(&[1, 2], &[1, 2, 3]), 0);
    assert_eq!(eq_mask(&[], &[0]), 0);
}
