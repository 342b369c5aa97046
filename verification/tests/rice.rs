use astroburst_server::fits::rice::{rice_decode, sign_extend, RiceParams};
use astroburst_server::fits::rice_encode::rice_encode;

fn roundtrip(pixels: &[i64], params: &RiceParams) {
    let encoded = rice_encode(pixels, params);
    let decoded = rice_decode(&encoded, pixels.len(), params);
    assert_eq!(decoded, pixels, "round-trip mismatch for {pixels:?}");
}

#[test]
fn roundtrip_i16_small_tile() {
    roundtrip(
        &[5, 5, 5, 5, 100, -100, 0, 7],
        &RiceParams { blocksize: 32, bytepix: 2, signed: true },
    );
}

#[test]
fn roundtrip_byte_tile_unsigned() {
    let pixels: Vec<i64> = vec![
        31, 14, 6, 36, 31, 255, 255, 255, 255, 54, 41, 59, 63, 48, 71, 50, 51, 72, 73, 56, 87,
        64, 92, 63, 97, 100, 103, 101, 96, 109, 95, 118, 112, 111, 116, 121, 103, 110, 117,
        115,
    ];
    roundtrip(&pixels, &RiceParams { blocksize: 32, bytepix: 1, signed: false });
}

#[test]
fn roundtrip_constant_block() {
    roundtrip(&[42; 64], &RiceParams { blocksize: 32, bytepix: 2, signed: true });
}

#[test]
fn roundtrip_high_entropy_block() {
    let pixels: Vec<i64> = (0..40)
        .map(|i| if i % 2 == 0 { 32000 } else { -32000 })
        .collect();
    roundtrip(&pixels, &RiceParams { blocksize: 32, bytepix: 2, signed: true });
}

#[test]
fn roundtrip_int32_wide() {
    let pixels: Vec<i64> = (0..50).map(|i| (i * i - 500) as i64).collect();
    roundtrip(&pixels, &RiceParams { blocksize: 32, bytepix: 4, signed: true });
}

#[test]
fn roundtrip_int32_beyond_f32_mantissa() {
    let base = 1_073_741_824i64; // 2^30
    let pixels: Vec<i64> = (0..40)
        .map(|i| if i % 2 == 0 { base + i } else { -base - i })
        .collect();
    roundtrip(&pixels, &RiceParams { blocksize: 32, bytepix: 4, signed: true });
}

#[test]
fn roundtrip_non_block_aligned_width() {
    let pixels: Vec<i64> = (0..37).map(|i| (i % 13) - 6).collect();
    roundtrip(&pixels, &RiceParams { blocksize: 32, bytepix: 2, signed: true });
}

#[test]
fn roundtrip_single_pixel() {
    roundtrip(&[123], &RiceParams { blocksize: 32, bytepix: 4, signed: true });
}

#[test]
fn roundtrip_random_stream() {
    let mut state: u32 = 0x9E3779B9;
    let mut next = || {
        state ^= state << 13;
        state ^= state >> 17;
        state ^= state << 5;
        state
    };
    let pixels: Vec<i64> = (0..500)
        .map(|_| (next() as i32 % 20000) as i64)
        .collect();
    roundtrip(&pixels, &RiceParams { blocksize: 32, bytepix: 4, signed: true });
}

#[test]
fn roundtrip_wide_high_entropy_bytepix4_hits_zero_leftover_bits() {
    let mut state: u32 = 0xDEADBEEF;
    let mut next = || {
        state ^= state << 13;
        state ^= state >> 17;
        state ^= state << 5;
        state
    };
    let pixels: Vec<i64> = (0..2040).map(|_| next() as i32 as i64).collect();
    roundtrip(&pixels, &RiceParams { blocksize: 32, bytepix: 4, signed: true });
}

#[test]
fn an_empty_tile_has_no_bytes() {
    let params = RiceParams { blocksize: 32, bytepix: 2, signed: true };
    assert!(rice_encode(&[], &params).is_empty());
    assert!(rice_decode(&[], 0, &params).is_empty());
}

#[test]
fn a_constant_block_takes_only_its_field() {
    // The first pixel in two bytes, then two fields of four bits.
    let params = RiceParams { blocksize: 32, bytepix: 2, signed: true };
    assert_eq!(rice_encode(&[42; 64], &params), vec![0, 42, 0]);
}

#[test]
fn a_split_block_has_the_expected_bits() {
    // Differences 0, 2, 4, coded as 0, 4, 8. Split at one bit: 3 * 2 + 0 + 2 + 4 = 12 bits, at
    // two: 3 * 3 + 0 + 1 + 2 = 12 as well, and the first of the cheapest is taken.
    let params = RiceParams { blocksize: 32, bytepix: 1, signed: false };
    // Field 2 in three bits, then 1 0 | 001 0 | 00001 0.
    assert_eq!(rice_encode(&[10, 12, 16], &params), vec![10, 0b01010001, 0b00000100]);
    assert_eq!(rice_decode(&[10, 0b01010001, 0b00000100], 3, &params), vec![10, 12, 16]);
}

#[test]
fn values_wrap_around_their_width() {
    // A difference of 255 is one of -1 in a byte: the codes are 0, 1, 2, in 1 | 01 | 001 behind
    // the field 001.
    let params = RiceParams { blocksize: 32, bytepix: 1, signed: false };
    let tile = rice_encode(&[0, 255, 0], &params);
    assert_eq!(rice_decode(&tile, 3, &params), vec![0, 255, 0]);
    assert_eq!(tile, vec![0, 0b00110100, 0b10000000]);
}

#[test]
fn extremes_of_every_width_survive() {
    roundtrip(&[-32768, 32767, -32768, 0], &RiceParams { blocksize: 2, bytepix: 2, signed: true });
    roundtrip(
        &[-2147483648, 2147483647, -2147483648, 0],
        &RiceParams { blocksize: 2, bytepix: 4, signed: true },
    );
    roundtrip(&[-128, 127, -128, 0], &RiceParams { blocksize: 1, bytepix: 1, signed: true });
    roundtrip(&[0, 65535, 0], &RiceParams { blocksize: 3, bytepix: 2, signed: false });
}

#[test]
fn the_sign_is_the_top_bit() {
    assert_eq!(sign_extend(0xff, 8), -1);
    assert_eq!(sign_extend(0x7f, 8), 127);
    assert_eq!(sign_extend(0x8000, 16), -32768);
    assert_eq!(sign_extend(0xffff_ffff, 32), -1);
}
