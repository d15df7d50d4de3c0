use swift_check::arch::{cast, fallback_scan, range, simd_scan, exclusive_range, greater_than, less_than_or_eq};
use swift_check::{
    all3, all4, and, any3, any4, eq, for_all_ensure, for_all_ensure_ct, not, one_of2, one_of3,
    one_of4, or, search, xor,
};

/// A small generator of bytes, the same on every run.
struct Bytes(u64);

impl Bytes {
    fn next(&mut self) -> u8 {
        self.0 ^= self.0 << 13;
        self.0 ^= self.0 >> 7;
        self.0 ^= self.0 << 17;
        (self.0 >> 32) as u8
    }

    /// `len` bytes, drawn from `span` values from `base` on.
    fn buffer(&mut self, len: usize, base: u8, span: u8) -> Vec<u8> {
        (0..len).map(|_| base.wrapping_add(self.next() % span)).collect()
    }
}

/// Buffers of every length up to 70 bytes, read from every start within a
/// stride, so that the first window of a scan lies at every alignment.
fn for_each_buffer(mut body: impl FnMut(&[u8])) {
    let mut bytes = Bytes(0x9E37_79B9_7F4A_7C15);
    for len in 0..=70usize {
        for (base, span) in [(0u8, 255u8), (b'a', 3), (0, 2), (126, 4), (250, 6)] {
            let whole = bytes.buffer(len + 16, base, span);
            for start in 0..16 {
                body(&whole[start..start + len]);
            }
        }
    }
}

/// Holds the three entry points against a loop over the bytes.
fn matches_reference<F: Fn(u128) -> u128>(make: impl Fn() -> F, expect: impl Fn(u8) -> bool) {
    for_each_buffer(|data| {
        let first = data.iter().position(|b| expect(*b));
        let all = data.iter().all(|b| expect(*b));
        assert_eq!(search(data, make()), first, "{data:?}");
        assert_eq!(for_all_ensure(data, make()), all, "{data:?}");
        assert_eq!(for_all_ensure_ct(data, make()), all, "{data:?}");
        if data.len() >= 16 {
            assert_eq!(simd_scan::search(data, make()), first, "{data:?}");
            assert_eq!(fallback_scan::search(data, make()), first, "{data:?}");
            assert_eq!(simd_scan::for_all_ensure(data, make()), all, "{data:?}");
            assert_eq!(fallback_scan::for_all_ensure(data, make()), all, "{data:?}");
            for start in [true, false] {
                let mut res = start;
                simd_scan::for_all_ensure_ct(data, make(), &mut res);
                assert_eq!(res, start && all, "{data:?}");
                let mut res = start;
                fallback_scan::for_all_ensure_ct(data, make(), &mut res);
                assert_eq!(res, start && all, "{data:?}");
            }
        }
    });
}

#[test]
fn eq_matches_reference() {
    matches_reference(|| eq(b'a'), |b| b == b'a');
    matches_reference(|| eq(0), |b| b == 0);
    matches_reference(|| eq(255), |b| b == 255);
}

#[test]
fn not_matches_reference() {
    matches_reference(|| not(eq(b'a')), |b| b != b'a');
    matches_reference(|| not(not(eq(0))), |b| b == 0);
    matches_reference(|| not(range::<0, 250>()), |b| b > 250);
}

#[test]
fn and_or_xor_match_reference() {
    matches_reference(|| and(range::<b'a', b'c'>(), not(eq(b'b'))), |b| b == b'a' || b == b'c');
    matches_reference(|| and(eq(0), eq(1)), |_| false);
    matches_reference(|| or(eq(0), eq(1)), |b| b <= 1);
    matches_reference(|| or(eq(0), not(eq(0))), |_| true);
    matches_reference(|| xor(range::<0, 127>(), range::<126, 255>()), |b| b != 126 && b != 127);
    matches_reference(|| xor(eq(1), eq(1)), |_| false);
}

#[test]
fn ranges_match_reference() {
    matches_reference(|| range::<b'a', b'b'>(), |b| b == b'a' || b == b'b');
    matches_reference(|| range::<100, 200>(), |b| (100..=200).contains(&b));
    matches_reference(|| cast::range::<100, 200>(), |b| (100..=200).contains(&b));
    matches_reference(|| cast::range::<127, 128>(), |b| b == 127 || b == 128);
    matches_reference(|| exclusive_range::<126, 129>(), |b| b == 127 || b == 128);
    matches_reference(|| cast::exclusive_range::<126, 129>(), |b| b == 127 || b == 128);
    matches_reference(|| greater_than::<127>(), |b| b > 127);
    matches_reference(|| cast::greater_than::<127>(), |b| b > 127);
    matches_reference(|| less_than_or_eq::<251>(), |b| b <= 251);
    matches_reference(|| cast::less_than_or_eq::<251>(), |b| b <= 251);
    matches_reference(|| cast::less_than::<128>(), |b| b < 128);
    matches_reference(|| cast::greater_than_or_eq::<252>(), |b| b >= 252);
}

#[test]
fn all_and_any_match_reference() {
    matches_reference(
        || all3(range::<0, 200>(), not(eq(b'a')), greater_than::<0>()),
        |b| b <= 200 && b != b'a' && b > 0,
    );
    matches_reference(
        || all4(range::<0, 200>(), not(eq(b'a')), greater_than::<0>(), not(eq(b'c'))),
        |b| b <= 200 && b != b'a' && b > 0 && b != b'c',
    );
    matches_reference(|| any3(eq(0), eq(b'a'), eq(127)), |b| b == 0 || b == b'a' || b == 127);
    matches_reference(
        || any4(eq(0), eq(b'a'), eq(127), range::<250, 252>()),
        |b| b == 0 || b == b'a' || b == 127 || (250..=252).contains(&b),
    );
}

#[test]
fn one_of_matches_reference() {
    matches_reference(|| one_of2(range::<0, 127>(), range::<127, 255>()), |b| b != 127);
    let count3 = |b: u8| {
        [b <= 127, (126..=128).contains(&b), b >= 127].iter().filter(|x| **x).count()
    };
    matches_reference(
        || one_of3(range::<0, 127>(), range::<126, 128>(), range::<127, 255>()),
        move |b| count3(b) == 1,
    );
    // of four, an odd number: one or three
    let count4 = |b: u8| {
        [b <= 127, (126..=128).contains(&b), b >= 127, b == 127 || b == 0]
            .iter()
            .filter(|x| **x)
            .count()
    };
    matches_reference(
        || one_of4(range::<0, 127>(), range::<126, 128>(), range::<127, 255>(), or(eq(127), eq(0))),
        move |b| count4(b) == 1 || count4(b) == 3,
    );
    // of four that exclude each other, just one
    matches_reference(
        || one_of4(eq(b'a'), eq(b'b'), eq(0), eq(1)),
        |b| b == b'a' || b == b'b' || b == 0 || b == 1,
    );
}

#[test]
fn search_for_needle() {
    for_each_buffer(|s| match search(s, eq(b'a')) {
        Some(pos) => assert_eq!(s[pos], b'a'),
        None => assert!(!s.contains(&b'a')),
    });
}

#[test]
fn search_for_number() {
    for_each_buffer(|s| match search(s, range::<b'0', b'9'>()) {
        Some(pos) => assert!(s[pos].is_ascii_digit()),
        None => assert!(!s.iter().any(|b| b.is_ascii_digit())),
    });
}

#[test]
fn always_holds() {
    for_each_buffer(|s| assert!(for_all_ensure(s, range::<0, 255>())));
    for_each_buffer(|s| assert!(for_all_ensure(s, cast::range::<0, 255>())));
}

#[test]
fn search_never_returns_an_index_past_the_end() {
    // a function that is no byte test: its outcome depends on nothing
    for_each_buffer(|s| {
        if let Some(pos) = search(s, |_| u128::MAX) {
            assert!(pos < s.len());
        } else {
            assert!(s.is_empty());
        }
    });
}
