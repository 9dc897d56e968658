use random_rs::float::{unit_f32_parts, unit_f64_parts};
use random_rs::{Error, GenerateRand, Random, RandomGen};

/// A source that writes the same byte everywhere.
struct ConstantSource {
    byte: u8,
}

impl Random for ConstantSource {
    fn try_fill_bytes(&mut self, buf: &mut [u8]) -> Result<(), Error> {
        for b in buf.iter_mut() {
            *b = self.byte;
        }
        Ok(())
    }
}

/// A source whose n-th fill writes the byte n everywhere, starting from 1.
struct CountingFills {
    fills: u8,
}

impl Random for CountingFills {
    fn try_fill_bytes(&mut self, buf: &mut [u8]) -> Result<(), Error> {
        self.fills += 1;
        for b in buf.iter_mut() {
            *b = self.fills;
        }
        Ok(())
    }
}

/// A source that hands out the given bytes in order, then zeros.
struct ScriptedSource {
    bytes: Vec<u8>,
    at: usize,
}

impl Random for ScriptedSource {
    fn try_fill_bytes(&mut self, buf: &mut [u8]) -> Result<(), Error> {
        for b in buf.iter_mut() {
            *b = if self.at < self.bytes.len() { self.bytes[self.at] } else { 0 };
            self.at += 1;
        }
        Ok(())
    }
}

/// A source that always fails.
struct BrokenSource;

impl Random for BrokenSource {
    fn try_fill_bytes(&mut self, _buf: &mut [u8]) -> Result<(), Error> {
        Err(Error::Something)
    }
}

#[test]
fn bool_is_the_top_bit() {
    let mut high = ConstantSource { byte: 0b1000_0000 };
    assert!(high.get_bool());
    let mut zero = ConstantSource { byte: 0x00 };
    assert!(!zero.get_bool());
    let mut low_bits = ConstantSource { byte: 0x7f };
    assert!(!low_bits.get_bool());
    let b: bool = <bool as GenerateRand<ConstantSource>>::generate(&mut high);
    assert!(b);
}

#[test]
fn array_elements_come_in_call_order() {
    let mut src = CountingFills { fills: 0 };
    let arr: [u8; 2] = src.gen();
    assert_eq!(arr, [1, 2]);
    let arr: [u16; 3] = src.gen();
    assert_eq!(arr, [0x0303, 0x0404, 0x0505]);
}

#[test]
fn tuple_components_come_left_to_right() {
    let mut src = CountingFills { fills: 0 };
    let t: (u8, u32) = src.gen();
    assert_eq!(t, (1, 0x0202_0202));
    let t: (u8, u8, u8) = src.gen();
    assert_eq!(t, (3, 4, 5));
    let t: (u8,) = src.gen();
    assert_eq!(t, (6,));
}

#[test]
fn integers_are_little_endian() {
    let mut src = ScriptedSource { bytes: vec![1, 2, 3, 4, 5, 6, 7, 8], at: 0 };
    assert_eq!(src.get_u64(), 0x0807_0605_0403_0201);
    let mut src = ScriptedSource { bytes: vec![0x34, 0x12], at: 0 };
    assert_eq!(src.get_u16(), 0x1234);
    let mut src = ScriptedSource { bytes: vec![0xff], at: 0 };
    let x: i8 = src.gen();
    assert_eq!(x, -1);
    let mut src = ScriptedSource { bytes: (1..=16).collect(), at: 0 };
    assert_eq!(src.get_u128(), 0x100f_0e0d_0c0b_0a09_0807_0605_0403_0201);
}

#[test]
fn char_skips_surrogates() {
    // 0xD800 is a surrogate, 0x11_0000 is past the last code point; 0x41 is 'A'.
    let mut src = ScriptedSource {
        bytes: vec![0x00, 0xd8, 0x00, 0x00, 0x00, 0x00, 0x11, 0x00, 0x41, 0x00, 0x00, 0x00],
        at: 0,
    };
    let c: char = src.gen();
    assert_eq!(c, 'A');
    assert_eq!(src.at, 12);
}

#[test]
fn failing_source_reports_its_error() {
    let mut src = BrokenSource;
    let mut buf = [0u8; 4];
    assert_eq!(src.try_fill_bytes(&mut buf), Err(Error::Something));
}

#[test]
fn float_from_all_zero_source_is_refused() {
    let mut src = ConstantSource { byte: 0 };
    assert_eq!(unit_f64_parts(&mut src), None);
    assert_eq!(unit_f32_parts(&mut src), None);
}

#[test]
fn float_after_zero_words_moves_the_exponent() {
    // One zero u64, then 1, then a refill word of all ones.
    let mut bytes = vec![0u8; 8];
    bytes.extend_from_slice(&[1, 0, 0, 0, 0, 0, 0, 0]);
    bytes.extend_from_slice(&[0xff; 8]);
    let mut src = ScriptedSource { bytes, at: 0 };
    // 1 has 63 leading zeros: exponent -128 - 63, and the refill fills the
    // 63 low bits with ones.
    assert_eq!(unit_f64_parts(&mut src), Some((u64::MAX, -191)));
    assert_eq!(src.at, 24);
}

#[test]
fn float_with_top_bit_set_draws_once() {
    let mut src = ConstantSource { byte: 0x80 };
    assert_eq!(unit_f64_parts(&mut src), Some((0x8080_8080_8080_8081, -64)));
    assert_eq!(unit_f32_parts(&mut src), Some((0x8080_8081, -32)));
}

#[test]
fn signed_integers_reinterpret_the_unsigned_bits() {
    let mut src = ConstantSource { byte: 0xff };
    let a: i16 = src.gen();
    let b: i32 = src.gen();
    let c: i64 = src.gen();
    let d: isize = src.gen();
    let e: i128 = src.gen();
    assert_eq!((a, b, c, d, e), (-1, -1, -1, -1, -1));
    let mut src = ConstantSource { byte: 0x80 };
    let x: i16 = src.gen();
    assert_eq!(x, -32640);
}

#[test]
fn unsigned_widths_take_their_own_byte_counts() {
    let mut src = CountingFills { fills: 0 };
    assert_eq!(src.get_u8(), 1);
    assert_eq!(src.get_u16(), 0x0202);
    assert_eq!(src.get_u32(), 0x0303_0303);
    assert_eq!(src.get_u64(), 0x0404_0404_0404_0404);
    assert_eq!(src.get_usize(), 0x0505_0505_0505_0505usize);
    assert_eq!(src.get_u128(), 0x0606_0606_0606_0606_0606_0606_0606_0606);
}

#[test]
fn four_tuple_components_come_left_to_right() {
    let mut src = CountingFills { fills: 0 };
    let t: (u8, bool, u16, [u8; 2]) = src.gen();
    assert_eq!(t, (1, false, 0x0303, [4, 5]));
}

#[test]
fn long_tuples_come_left_to_right() {
    let mut src = CountingFills { fills: 0 };
    let t: (u8, u8, u8, u8, u8) = src.gen();
    assert_eq!(t, (1, 2, 3, 4, 5));
    let mut src = CountingFills { fills: 0 };
    let t: (u8, u8, u8, u8, u8, u8, u8, u8, u8, u8, u8, u8, u8, u8, u8, u8) = src.gen();
    let parts = [
        t.0, t.1, t.2, t.3, t.4, t.5, t.6, t.7, t.8, t.9, t.10, t.11, t.12, t.13, t.14, t.15,
    ];
    assert_eq!(parts, [1, 2, 3, 4, 5, 6, 7, 8, 9, 10, 11, 12, 13, 14, 15, 16]);
}
