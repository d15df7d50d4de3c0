use swift_check::arch::simd_scan::{ensure_requirements, first_stride, init_scan, EndPtr, Pointer};
use swift_check::require::{check, Requirement};
use swift_check::arch::{aarch64, load, load_unchecked, splat, x86_64, MoveMask};

fn numbered(len: usize) -> Vec<u8> {
    (0..len).map(|i| i as u8).collect()
}

#[test]
fn end_ptr_is_the_length() {
    let data = numbered(40);
    let end = EndPtr::new(&data);
    assert_eq!(end.get(), 40);
    assert!(end.check(&data));
    assert!(!end.check(&data[..39]));
    let copy = end;
    assert_eq!(copy.get(), end.get());
    assert_eq!(EndPtr::new(&[]).get(), 0);
}

#[test]
fn strides_begin_at_the_next_aligned_address() {
    // an aligned start: the first window is a stride
    assert_eq!(first_stride(0), 16);
    // an unaligned one: the strides begin within the first window
    assert_eq!(first_stride(1), 1);
    assert_eq!(first_stride(9), 9);
    assert_eq!(first_stride(15), 15);
    // no aligned address known
    assert_eq!(first_stride(16), 16);
    assert_eq!(first_stride(usize::MAX), 16);
}

#[test]
fn scan_visits_every_byte() {
    for len in 16..=70usize {
        let whole = numbered(len + 16);
        for start in 0..16 {
            let data = &whole[start..start + len];
            let (first, mut iter) = init_scan(data);
            assert_eq!(first, load_unchecked(data));
            assert!(iter.end.check(data));
            let begin = iter.snap();
            assert!(0 < begin && begin <= 16);

            let mut covered = 16;
            let mut cursor = begin;
            loop {
                assert_eq!(iter.snap(), cursor);
                let next = iter.next();
                match next {
                    Pointer::Aligned((vector, at)) => {
                        assert_eq!(at, cursor);
                        assert!(at + 16 <= len);
                        assert!(at <= covered);
                        assert_eq!(vector, load_unchecked(&data[at..]));
                        covered = at + 16;
                        cursor += 16;
                    }
                    Pointer::End(Some((vector, at))) => {
                        assert!(cursor < len && len < cursor + 16);
                        assert_eq!(at + 16, len);
                        assert_eq!(vector, load_unchecked(&data[at..]));
                        assert!(at <= covered);
                        covered = len;
                        // asking again gives the tail again and moves nothing
                        assert_eq!(iter.snap(), cursor);
                        assert!(iter.next().is_end_with_remaining());
                        break;
                    }
                    Pointer::End(None) => {
                        assert_eq!(cursor, len);
                        break;
                    }
                }
            }
            assert_eq!(covered, len);
        }
    }
}

#[test]
fn pointer_says_what_it_is() {
    let aligned = Pointer::Aligned((0, 16));
    assert!(aligned.is_aligned());
    assert!(!aligned.is_end_with_remaining());

    let tail = Pointer::End(Some((0, 24)));
    assert!(!tail.is_aligned());
    assert!(tail.is_end_with_remaining());
    assert_eq!(tail.remaining_end_ptr(), 24);

    let done = Pointer::End(None);
    assert!(!done.is_aligned());
    assert!(!done.is_end_with_remaining());
}

#[test]
fn snap_and_incr_moves_one_stride() {
    let data = numbered(64);
    let (_, mut iter) = init_scan(&data);
    let begin = iter.snap();
    assert_eq!(iter.snap_and_incr(), begin);
    assert_eq!(iter.snap(), begin + 16);
}

#[test]
fn high_bit_mask_counts_in_lanes() {
    assert_eq!(x86_64::MoveMask::MAX_TRAIL, 16);

    let none = x86_64::MoveMask::new(0);
    assert_eq!(none.trailing_zeros(), 16);
    assert_eq!(none.trailing_ones(), 0);
    assert!(!none.all_bits_set());

    let all = x86_64::MoveMask::new(u128::MAX);
    assert_eq!(all.trailing_zeros(), 0);
    assert_eq!(all.trailing_ones(), 16);
    assert!(all.all_bits_set());

    // the high bit of a lane counts, the low bit does not
    assert_eq!(x86_64::MoveMask::new(splat(0x80)).trailing_ones(), 16);
    assert_eq!(x86_64::MoveMask::new(splat(0x7F)).trailing_zeros(), 16);
    assert_eq!(MoveMask::new(splat(0x80)).trailing_zeros(), 16);
    assert_eq!(MoveMask::new(splat(0x7F)).trailing_ones(), 16);

    let mut bytes = [0u8; 16];
    bytes[9] = 0xFF;
    let one = x86_64::MoveMask::new(load(&bytes));
    assert_eq!(one.trailing_zeros(), 9);
    assert_eq!(one.trailing_ones(), 0);
    let mut bytes = [0xFFu8; 16];
    bytes[9] = 0;
    let most = x86_64::MoveMask::new(load(&bytes));
    assert_eq!(most.trailing_ones(), 9);
    assert_eq!(most.trailing_zeros(), 0);
    assert!(!most.all_bits_set());
}

#[test]
fn four_bit_mask_counts_in_lanes() {
    assert_eq!(aarch64::MoveMask::MAX_TRAIL, 16);

    let none = aarch64::MoveMask::new(0);
    assert_eq!(none.trailing_zeros(), 16);
    assert_eq!(none.trailing_ones(), 0);
    assert!(!none.all_bits_set());

    let all = aarch64::MoveMask::new(u128::MAX);
    assert_eq!(all.trailing_zeros(), 0);
    assert_eq!(all.trailing_ones(), 16);
    assert!(all.all_bits_set());

    for lane in 0..16 {
        let mut bytes = [0u8; 16];
        bytes[lane] = 0xFF;
        let one = aarch64::MoveMask::new(load(&bytes));
        assert_eq!(one.trailing_zeros(), lane as u32);
        assert!(!one.all_bits_set());

        let mut bytes = [0xFFu8; 16];
        bytes[lane] = 0;
        let most = aarch64::MoveMask::new(load(&bytes));
        assert_eq!(most.trailing_ones(), lane as u32);
        assert!(!most.all_bits_set());
    }

    // of an even lane the high four bits are kept, of an odd lane the low four
    let mut bytes = [0u8; 16];
    bytes[0] = 0x0F;
    bytes[1] = 0xF0;
    bytes[2] = 0x10;
    let odd_ones = aarch64::MoveMask::new(load(&bytes));
    assert_eq!(odd_ones.trailing_zeros(), 2);
    bytes[1] = 0x08;
    assert_eq!(aarch64::MoveMask::new(load(&bytes)).trailing_zeros(), 1);
}

#[test]
fn no_lane_set_trails_the_number_of_lanes() {
    assert_eq!(MoveMask::new(splat(0)).trailing_zeros(), 16);
    assert_eq!(x86_64::MoveMask::new(splat(0)).trailing_zeros(), 16);
    assert_eq!(aarch64::MoveMask::new(splat(0)).trailing_zeros(), 16);
    assert_eq!(MoveMask::MAX_TRAIL, 16);
    assert_eq!(x86_64::MoveMask::MAX_TRAIL, 16);
    assert_eq!(aarch64::MoveMask::MAX_TRAIL, 16);
}

#[test]
fn masks_agree_on_outcomes() {
    // on a register whose lanes are all ones or all zeros, every mask counts
    // the same lanes
    let mut seed = 0x1234_5678_9ABC_DEF0u64;
    for round in 0..200 {
        seed ^= seed << 13;
        seed ^= seed >> 7;
        seed ^= seed << 17;
        let mut bytes = [0u8; 16];
        for (i, b) in bytes.iter_mut().enumerate() {
            // the first two rounds are the registers of all zeros and all ones
            if round == 1 || (round > 1 && (seed >> (i + 8)) & 1 == 1) {
                *b = 0xFF;
            }
        }
        let v = load(&bytes);
        let low = MoveMask::new(v);
        let high = x86_64::MoveMask::new(v);
        let four = aarch64::MoveMask::new(v);
        assert_eq!(low.trailing_zeros(), high.trailing_zeros());
        assert_eq!(low.trailing_zeros(), four.trailing_zeros());
        assert_eq!(low.trailing_ones(), high.trailing_ones());
        assert_eq!(low.trailing_ones(), four.trailing_ones());
        assert_eq!(low.all_bits_set(), high.all_bits_set());
        assert_eq!(low.all_bits_set(), four.all_bits_set());
    }
}

/// A requirement that only writes down what it is handed.
struct Recorder {
    full: Vec<u128>,
    partial: Vec<(u128, u32)>,
    order: Vec<bool>,
}

impl Recorder {
    fn new() -> Self {
        Recorder { full: Vec::new(), partial: Vec::new(), order: Vec::new() }
    }
}

impl Requirement for Recorder {
    type Error = ();

    fn check(&mut self, vector: u128) {
        self.full.push(vector);
        self.order.push(true);
    }

    fn check_partial(&mut self, vector: u128, len: u32) {
        self.partial.push((vector, len));
        self.order.push(false);
    }

    fn result(self) -> (bool, Result<(), ()>) {
        (true, Ok(()))
    }

    fn results(self) -> (bool, Vec<Result<(), ()>>) {
        (true, Vec::new())
    }
}

/// Where in `data` the window `v` lies, among the starts that a scan may use
/// after `from`.
fn start_of(data: &[u8], v: u128, from: usize) -> Option<usize> {
    (from..=data.len() - 16).find(|at| load_unchecked(&data[*at..]) == v)
}

#[test]
fn requirement_is_handed_the_scan_in_order() {
    for len in 16..=70usize {
        // bytes that tell every window apart
        let whole: Vec<u8> = (0..len + 16).map(|i| (i * 7 + 3) as u8).collect();
        for start in 0..16 {
            let data = &whole[start..start + len];
            for through_check in [false, true] {
                let done = if through_check {
                    check(data, Recorder::new())
                } else {
                    ensure_requirements(data, Recorder::new())
                };
                assert!(done.partial.is_empty());
                assert!(done.order.iter().all(|full| *full));
                let windows = &done.full;
                assert!(!windows.is_empty());
                // the first window is the first sixteen bytes
                assert_eq!(windows[0], load_unchecked(data));

                let mut starts = vec![0usize];
                for (k, v) in windows.iter().enumerate().skip(1) {
                    let last = k == windows.len() - 1;
                    let at = if k == 1 {
                        // within the first window or at its end, or the tail
                        match start_of(data, *v, 1) {
                            Some(at) if at <= 16 => at,
                            _ => len - 16,
                        }
                    } else {
                        let on = starts[k - 1] + 16;
                        if on + 16 <= len && load_unchecked(&data[on..]) == *v {
                            on
                        } else {
                            // only the last window may leave the strides
                            assert!(last, "{len} {start} {k}");
                            len - 16
                        }
                    };
                    assert_eq!(*v, load_unchecked(&data[at..]));
                    starts.push(at);
                }
                // the last window ends with the buffer
                assert_eq!(starts[starts.len() - 1] + 16, len);
                // the strides are sixteen bytes apart and no window but the
                // last, or the first of a buffer of sixteen bytes, ends with it
                for k in 1..starts.len() - 1 {
                    assert!(0 < starts[1] && starts[1] <= 16);
                    if k >= 2 {
                        assert_eq!(starts[k], starts[k - 1] + 16);
                    }
                    assert!(starts[k] + 16 < len);
                }
                // every byte lies in a window
                let mut covered = vec![false; len];
                for at in &starts {
                    for c in &mut covered[*at..*at + 16] {
                        *c = true;
                    }
                }
                assert!(covered.iter().all(|c| *c));
            }
        }
    }
}

#[test]
fn requirement_is_handed_a_short_buffer_in_one_padded_window() {
    for len in 0..16usize {
        let data: Vec<u8> = (0..len).map(|i| (i * 7 + 3) as u8).collect();
        let done = check(&data, Recorder::new());
        assert!(done.full.is_empty());
        assert_eq!(done.partial.len(), 1);
        let (vector, count) = done.partial[0];
        assert_eq!(count as usize, len);
        let mut padded = [0u8; 16];
        padded[..len].copy_from_slice(&data);
        assert_eq!(vector, load(&padded));
    }
}
