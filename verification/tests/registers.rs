use swift_check::arch::fallback;
use swift_check::arch::x86_64;
use swift_check::arch::{
    and, eq, load, load_aligned, load_partial, load_unchecked, maybe_aligned_load, not, or, splat,
    xor, MoveMask, WIDTH,
};

const BYTES: [u8; 16] = [0, 1, 2, 127, 128, 129, 254, 255, 7, 7, 7, 7, 0x80, 0x7F, 0xFF, 0x00];

fn lanes(v: u128) -> [u8; 16] {
    v.to_le_bytes()
}

fn mask_lanes(v: u128) -> Vec<bool> {
    let mask = MoveMask::new(v);
    let mut out = Vec::new();
    let mut rest = v;
    for _ in 0..16 {
        out.push(rest & 1 == 1);
        rest >>= 8;
    }
    assert_eq!(mask.all_bits_set(), out.iter().all(|b| *b));
    assert_eq!(mask.any_bit_set(), out.iter().any(|b| *b));
    out
}

#[test]
fn width_is_sixteen() {
    assert_eq!(WIDTH, 16);
    assert_eq!(MoveMask::MAX_TRAIL, 16);
}

#[test]
fn splat_fills_every_lane() {
    assert_eq!(splat(0), 0);
    assert_eq!(splat(0xFF), u128::MAX);
    assert_eq!(splat(0xAB), 0xABABABAB_ABABABAB_ABABABAB_ABABABABu128);
    assert_eq!(lanes(splat(1)), [1u8; 16]);
}

#[test]
fn load_puts_byte_i_in_lane_i() {
    let v = load(&BYTES);
    assert_eq!(lanes(v), BYTES);
    assert_eq!(v, u128::from_le_bytes(BYTES));
    assert_eq!(load_unchecked(&BYTES), v);
    assert_eq!(load_aligned(&BYTES), v);
    assert_eq!(maybe_aligned_load(&BYTES), v);
    // only the first sixteen bytes are read
    let mut longer = BYTES.to_vec();
    longer.push(0xEE);
    assert_eq!(load_unchecked(&longer), v);
}

#[test]
fn load_partial_pads_with_zeros() {
    assert_eq!(load_partial(&BYTES, 0), 0);
    assert_eq!(load_partial(&BYTES, 16), load(&BYTES));
    let three = load_partial(&[9, 8, 7, 6], 3);
    assert_eq!(three, 0x07_08_09);
    let mut expected = [0u8; 16];
    expected[..5].copy_from_slice(&BYTES[..5]);
    assert_eq!(lanes(load_partial(&BYTES, 5)), expected);
}

#[test]
fn eq_marks_equal_lanes_with_all_ones() {
    let v = load(&BYTES);
    let m = eq(v, splat(7));
    let mut expected = [0u8; 16];
    for i in 8..12 {
        expected[i] = 0xFF;
    }
    assert_eq!(lanes(m), expected);
    assert_eq!(eq(v, v), u128::MAX);
    // the outcome is not the first argument handed back
    assert_ne!(m, v);
}

#[test]
fn bit_operations_act_on_all_bits() {
    let a = load(&BYTES);
    let b = splat(0x0F);
    assert_eq!(and(a, b), a & b);
    assert_eq!(or(a, b), a | b);
    assert_eq!(xor(a, b), a ^ b);
    assert_eq!(not(a), !a);
    assert_eq!(x86_64::not(a), !a);
    assert_eq!(not(0), u128::MAX);
}

#[test]
fn unsigned_comparisons_order_bytes_from_0_to_255() {
    let v = load(&BYTES);
    for bound in [0u8, 1, 127, 128, 129, 254, 255] {
        let s = splat(bound);
        let gt = lanes(fallback::greater_than(v, s));
        let ge = lanes(fallback::greater_than_or_eq(v, s));
        let lt = lanes(fallback::less_than(v, s));
        let le = lanes(fallback::less_than_or_eq(v, s));
        for i in 0..16 {
            let t = |b: bool| if b { 0xFF } else { 0 };
            assert_eq!(gt[i], t(BYTES[i] > bound));
            assert_eq!(ge[i], t(BYTES[i] >= bound));
            assert_eq!(lt[i], t(BYTES[i] < bound));
            assert_eq!(le[i], t(BYTES[i] <= bound));
        }
    }
}

#[test]
fn signed_comparisons_order_128_to_255_below_zero() {
    let v = load(&BYTES);
    for bound in [0u8, 1, 127, 128, 129, 254, 255] {
        let s = splat(bound);
        let gt = lanes(x86_64::greater_than(v, s));
        let ge = lanes(x86_64::greater_than_or_eq(v, s));
        let lt = lanes(x86_64::less_than(v, s));
        let le = lanes(x86_64::less_than_or_eq(v, s));
        for i in 0..16 {
            let t = |b: bool| if b { 0xFF } else { 0 };
            let (x, y) = (BYTES[i] as i8, bound as i8);
            assert_eq!(gt[i], t(x > y));
            assert_eq!(ge[i], t(x >= y));
            assert_eq!(lt[i], t(x < y));
            assert_eq!(le[i], t(x <= y));
        }
    }
    // 0x80 is the least signed byte and 0x7F the greatest
    assert_eq!(x86_64::less_than(splat(0x80), splat(0x7F)), u128::MAX);
    assert_eq!(fallback::less_than(splat(0x80), splat(0x7F)), 0);
}

#[test]
fn lane_mask_of_equal_lanes() {
    let v = load(&BYTES);
    let m = eq(v, splat(7));
    let bits = mask_lanes(m);
    let expected: Vec<bool> = (0..16).map(|i| (8..12).contains(&i)).collect();
    assert_eq!(bits, expected);
    let mask = MoveMask::new(m);
    assert_eq!(mask.trailing_zeros(), 8);
    assert_eq!(mask.trailing_ones(), 0);
    assert!(!mask.all_bits_set());
    assert!(mask.any_bit_set());
}

#[test]
fn lane_mask_counts_in_lanes() {
    let none = MoveMask::new(0);
    assert_eq!(none.trailing_zeros(), 16);
    assert_eq!(none.trailing_ones(), 0);
    assert!(!none.any_bit_set());
    assert!(!none.all_bits_set());

    let all = MoveMask::new(u128::MAX);
    assert_eq!(all.trailing_zeros(), 0);
    assert_eq!(all.trailing_ones(), 16);
    assert!(all.any_bit_set());
    assert!(all.all_bits_set());

    // lanes 0..=4 set, lane 5 clear, the rest set
    let mut bytes = [0xFFu8; 16];
    bytes[5] = 0;
    let most = MoveMask::new(load(&bytes));
    assert_eq!(most.trailing_ones(), 5);
    assert_eq!(most.trailing_zeros(), 0);
    assert!(!most.all_bits_set());

    // only the last lane set
    let mut bytes = [0u8; 16];
    bytes[15] = 0xFF;
    let last = MoveMask::new(load(&bytes));
    assert_eq!(last.trailing_zeros(), 15);
    assert!(last.any_bit_set());
}

#[test]
fn lane_masks_join() {
    let mut low = [0u8; 16];
    let mut high = [0u8; 16];
    for i in 0..8 {
        low[i] = 0xFF;
        high[i + 8] = 0xFF;
    }
    let a = MoveMask::new(load(&low));
    let b = MoveMask::new(load(&high));
    assert!(!a.all_bits_set());
    assert!(!b.all_bits_set());
    let joined = a | b;
    assert!(joined.all_bits_set());
    assert_eq!(joined.trailing_ones(), 16);
    let a = MoveMask::new(load(&low));
    let a2 = MoveMask::new(load(&low));
    assert_eq!((a | a2).trailing_ones(), 8);
}
