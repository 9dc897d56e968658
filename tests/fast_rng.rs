use random_rs::fast::FastRng;
use random_rs::float::{unit_f32_parts, unit_f64_parts};
use random_rs::{Random, RandomGen};

#[test]
fn seed_one_one_reference_words() {
    let mut rng = FastRng::seed(1, 1);
    assert_eq!(rng.get_u32(), 3380776849);
    assert_eq!(rng.get_u32(), 361947764);
    assert_eq!(rng.get_u32(), 3223725655);
}

#[test]
fn seed_matches_pcg32_demo_words() {
    let mut rng = FastRng::seed(42, 54);
    let expected: [u32; 6] =
        [0xa15c02b7, 0x7b47f409, 0xba1d3330, 0x83d2f293, 0xbfa4784b, 0xcbed606e];
    for w in expected.iter() {
        assert_eq!(rng.get_u32(), *w);
    }
}

#[test]
fn equal_seeds_give_equal_streams() {
    let mut a = FastRng::seed(7, 3);
    let mut b = FastRng::seed(7, 3);
    for _ in 0..100 {
        assert_eq!(a.get_u32(), b.get_u32());
    }
    let mut c = FastRng::seed(7, 4);
    let mut a = FastRng::seed(7, 3);
    let xs: [u32; 8] = a.gen();
    let ys: [u32; 8] = c.gen();
    assert_ne!(xs, ys);
}

#[test]
fn fill_writes_words_little_endian_and_cuts_the_last() {
    let mut rng = FastRng::seed(1, 1);
    let mut buf = [0u8; 6];
    rng.fill_bytes(&mut buf);
    assert_eq!(buf, [145, 143, 130, 201, 116, 226]);
    // The cut word is used up: the next word is the third.
    assert_eq!(rng.get_u32(), 3223725655);
}

#[test]
fn u64_is_two_words() {
    let mut rng = FastRng::seed(1, 1);
    let x = rng.get_u64();
    assert_eq!(x, (361947764u64 << 32) | 3380776849u64);
}

#[test]
fn fast_test_local() {
    let mut local_rng = FastRng::new().unwrap();
    let a: u64 = local_rng.gen();
    let b: u32 = local_rng.gen();
    let c: [u8; 64] = local_rng.gen();
    assert_ne!(a, 0);
    assert_ne!(b, 0);
    assert_ne!(&c[..], &[0u8; 64][..]);
}

#[test]
fn lib_test_local() {
    let mut local_rng = FastRng::new().unwrap();
    let a: u64 = local_rng.gen();
    let b: u32 = local_rng.gen();
    let c: [u8; 64] = local_rng.gen();
    assert_ne!(a, 0);
    assert_ne!(b, 0);
    assert_ne!(&c[..], &[0u8; 64][..]);
}

fn to_f32(parts: (u32, i32)) -> f32 {
    (parts.0 as f64 * 2f64.powi(parts.1)) as f32
}

fn to_f64(parts: (u64, i32)) -> f64 {
    parts.0 as f64 * 2f64.powi(parts.1)
}

#[test]
fn fast_test_float() {
    let mut rng = FastRng::new().unwrap();
    let f: f32 = to_f32(unit_f32_parts(&mut rng).unwrap());
    assert!(f > 0.0 && f < 1.0);
    let f: f64 = to_f64(unit_f64_parts(&mut rng).unwrap());
    assert!(f > 0.0 && f < 1.0);
}

#[test]
fn lib_test_float() {
    let mut rng = FastRng::new().unwrap();
    let f: f32 = to_f32(unit_f32_parts(&mut rng).unwrap());
    assert!(f > 0.0 && f < 1.0);
    let f: f64 = to_f64(unit_f64_parts(&mut rng).unwrap());
    assert!(f > 0.0 && f < 1.0);
}

#[test]
fn many_floats_stay_inside_the_open_interval() {
    let mut rng = FastRng::seed(3, 9);
    for _ in 0..1000 {
        let (sig, exp) = unit_f64_parts(&mut rng).unwrap();
        assert_eq!(sig % 2, 1);
        assert!(exp <= -64);
        let (sig, exp) = unit_f32_parts(&mut rng).unwrap();
        assert_eq!(sig % 2, 1);
        assert!(exp <= -32);
    }
}

#[test]
fn seeded_float_parts() {
    // First word 3380776849 has its top bit set: no shift, sticky bit set.
    let mut rng = FastRng::seed(1, 1);
    assert_eq!(unit_f32_parts(&mut rng), Some((3380776849 | 1, -32)));
    // 361947764 has three leading zeros; the refill is the top three bits of
    // 3223725655.
    let mut rng = FastRng::seed(1, 1);
    rng.get_u32();
    let expected = ((361947764u32 << 3) | (3223725655u32 >> 29)) | 1;
    assert_eq!(unit_f32_parts(&mut rng), Some((expected, -35)));
}

#[test]
fn empty_fill_keeps_the_state() {
    let mut rng = FastRng::seed(1, 1);
    let mut buf: [u8; 0] = [];
    assert!(rng.try_fill_bytes(&mut buf).is_ok());
    assert_eq!(rng.get_u32(), 3380776849);
}

#[test]
fn bool_from_generator_is_the_top_bit_of_a_word() {
    // A one-byte fill takes the low byte of the first word, 145 = 0x91.
    let mut rng = FastRng::seed(1, 1);
    assert!(rng.get_bool());
    // The next word's low byte is 116 = 0x74.
    assert!(!rng.get_bool());
}

#[test]
fn cut_word_is_used_up() {
    let mut g = FastRng::seed(1, 1);
    let mut buf = [0u8; 3];
    assert_eq!(g.try_fill_bytes(&mut buf), Ok(()));
    assert_eq!(buf, [0x91, 0x8F, 0x82]);
    assert_eq!(g.get_u32(), 0x1592_E274);
}

#[test]
fn each_byte_draw_takes_a_whole_word() {
    let mut g = FastRng::seed(1, 1);
    assert_eq!(g.get_u8(), 0x91);
    assert_eq!(g.get_u8(), 0x74);
}

#[test]
fn fills_split_on_a_word_boundary_compose() {
    let mut g1 = FastRng::seed(5, 8);
    let mut g2 = FastRng::seed(5, 8);
    let mut buf1 = [0u8; 11];
    let mut buf2 = [0u8; 11];
    g1.fill_bytes(&mut buf1[..8]);
    g1.fill_bytes(&mut buf1[8..]);
    g2.fill_bytes(&mut buf2);
    assert_eq!(buf1, buf2);
    assert_eq!(g1.get_u32(), g2.get_u32());
}
