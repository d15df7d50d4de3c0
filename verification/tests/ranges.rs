use swift_check::arch::{self, cast, load};
use swift_check::{ensure, find, for_all_ensure, search};

fn all_bytes() -> Vec<u8> {
    (0..=255u8).collect()
}

/// Holds `cond`, built anew by `make` for each use, against `expect` on every
/// byte: alone in a short buffer, in every lane of a register, and at the end
/// of a long buffer.
fn holds_where<F: Fn(u128) -> u128>(make: impl Fn() -> F, expect: impl Fn(u8) -> bool, what: &str) {
    for v in all_bytes() {
        let want = expect(v);
        assert_eq!(search(&[v], make()), if want { Some(0) } else { None }, "{what} at {v}");
        assert_eq!(for_all_ensure(&[v], make()), want, "{what} at {v}");
        assert_eq!(ensure(load(&[v; 16]), make()), want, "{what} at {v}");
        assert_eq!(find(load(&[v; 16]), make()), if want { Some(0) } else { None }, "{what} at {v}");
    }
    // the first byte that passes, in a buffer that holds every byte
    let every = all_bytes();
    let first = every.iter().position(|b| expect(*b));
    assert_eq!(search(&every, make()), first, "{what}");
    assert_eq!(for_all_ensure(&every, make()), every.iter().all(|b| expect(*b)), "{what}");
    // and in one that holds them from the top down
    let down: Vec<u8> = every.iter().rev().copied().collect();
    assert_eq!(search(&down, make()), down.iter().position(|b| expect(*b)), "{what}");
}

fn range_holds<const MIN: u8, const MAX: u8>() {
    holds_where(|| arch::range::<MIN, MAX>(), |v| MIN <= v && v <= MAX, "range");
    holds_where(|| cast::range::<MIN, MAX>(), |v| MIN <= v && v <= MAX, "cast range");
}

fn exclusive_range_holds<const MIN: u8, const MAX: u8>() {
    holds_where(|| arch::exclusive_range::<MIN, MAX>(), |v| MIN < v && v < MAX, "exclusive");
    holds_where(|| cast::exclusive_range::<MIN, MAX>(), |v| MIN < v && v < MAX, "cast exclusive");
}

fn less_than_holds<const MAX: u8>() {
    holds_where(|| arch::less_than::<MAX>(), |v| v < MAX, "less_than");
    holds_where(|| cast::less_than::<MAX>(), |v| v < MAX, "cast less_than");
}

fn less_than_or_eq_holds<const MAX: u8>() {
    holds_where(|| arch::less_than_or_eq::<MAX>(), |v| v <= MAX, "less_than_or_eq");
    holds_where(|| cast::less_than_or_eq::<MAX>(), |v| v <= MAX, "cast less_than_or_eq");
}

fn greater_than_holds<const MIN: u8>() {
    holds_where(|| arch::greater_than::<MIN>(), |v| v > MIN, "greater_than");
    holds_where(|| cast::greater_than::<MIN>(), |v| v > MIN, "cast greater_than");
}

fn greater_than_or_eq_holds<const MIN: u8>() {
    holds_where(|| arch::greater_than_or_eq::<MIN>(), |v| v >= MIN, "greater_than_or_eq");
    holds_where(|| cast::greater_than_or_eq::<MIN>(), |v| v >= MIN, "cast greater_than_or_eq");
}

#[test]
fn range_large() {
    range_holds::<10, 244>();
    range_holds::<1, 254>();
    range_holds::<54, 200>();
    range_holds::<100, 200>();
    range_holds::<0, 128>();
    range_holds::<0, 129>();
    range_holds::<0, 255>();
}

#[test]
fn range_mid() {
    range_holds::<100, 150>();
    range_holds::<127, 129>();
    range_holds::<127, 128>();
    range_holds::<128, 129>();
    range_holds::<120, 130>();
    range_holds::<0, 127>();
    range_holds::<128, 255>();
}

#[test]
fn range_small() {
    range_holds::<200, 255>();
    range_holds::<240, 255>();
    range_holds::<255, 255>();
    range_holds::<254, 255>();
    range_holds::<130, 255>();
    range_holds::<160, 255>();
    range_holds::<1, 5>();
    range_holds::<0, 1>();
    range_holds::<0, 13>();
    range_holds::<3, 60>();
    range_holds::<30, 31>();
    range_holds::<0, 0>();
    range_holds::<127, 127>();
    range_holds::<128, 128>();
}

#[test]
fn range_with_bounds_in_the_wrong_order() {
    // the direct condition holds of no byte
    holds_where(|| arch::range::<200, 100>(), |_| false, "range");
    holds_where(|| arch::range::<5, 4>(), |_| false, "range");
    // the one made of signed comparisons takes the bounds as signed where they
    // are in the wrong order: from -56 to 100
    holds_where(|| cast::range::<200, 100>(), |v| v >= 200 || v <= 100, "cast range");
    holds_where(|| cast::range::<5, 4>(), |_| false, "cast range");
    holds_where(|| cast::range::<255, 128>(), |_| false, "cast range");
}

#[test]
fn excl_range_large() {
    exclusive_range_holds::<10, 245>();
    exclusive_range_holds::<0, 255>();
    exclusive_range_holds::<200, 254>();
    exclusive_range_holds::<100, 200>();
    exclusive_range_holds::<60, 160>();
    exclusive_range_holds::<1, 254>();
}

#[test]
fn excl_range_mid() {
    exclusive_range_holds::<125, 135>();
    exclusive_range_holds::<110, 140>();
    exclusive_range_holds::<127, 128>();
    exclusive_range_holds::<128, 129>();
    exclusive_range_holds::<127, 129>();
    exclusive_range_holds::<126, 129>();
    exclusive_range_holds::<126, 128>();
    exclusive_range_holds::<128, 130>();
}

#[test]
fn excl_range_small() {
    exclusive_range_holds::<0, 1>();
    exclusive_range_holds::<0, 2>();
    exclusive_range_holds::<0, 5>();
    exclusive_range_holds::<254, 255>();
    exclusive_range_holds::<253, 255>();
    exclusive_range_holds::<250, 255>();
    exclusive_range_holds::<1, 5>();
    exclusive_range_holds::<2, 5>();
    exclusive_range_holds::<4, 5>();
}

#[test]
fn excl_range_of_nothing() {
    // equal bounds, and bounds one apart, leave no byte between them
    exclusive_range_holds::<0, 0>();
    exclusive_range_holds::<7, 7>();
    exclusive_range_holds::<255, 255>();
    exclusive_range_holds::<7, 8>();
    holds_where(|| arch::exclusive_range::<8, 7>(), |_| false, "exclusive");
    holds_where(|| cast::exclusive_range::<8, 7>(), |_| false, "cast exclusive");
    holds_where(|| cast::exclusive_range::<128, 127>(), |_| false, "cast exclusive");
    holds_where(|| arch::exclusive_range::<200, 100>(), |_| false, "exclusive");
    // bounds in the wrong order and further apart are taken as signed
    holds_where(|| cast::exclusive_range::<200, 100>(), |v| v > 200 || v < 100, "cast exclusive");
}

#[test]
fn less_than_at_the_boundaries() {
    less_than_holds::<0>();
    less_than_holds::<1>();
    less_than_holds::<127>();
    less_than_holds::<128>();
    less_than_holds::<129>();
    less_than_holds::<254>();
    less_than_holds::<255>();
}

#[test]
fn less_than_elsewhere() {
    less_than_holds::<240>();
    less_than_holds::<200>();
    less_than_holds::<140>();
    less_than_holds::<130>();
    less_than_holds::<30>();
    less_than_holds::<64>();
    less_than_holds::<120>();
}

#[test]
fn less_than_or_eq_at_the_boundaries() {
    less_than_or_eq_holds::<0>();
    less_than_or_eq_holds::<1>();
    less_than_or_eq_holds::<127>();
    less_than_or_eq_holds::<128>();
    less_than_or_eq_holds::<129>();
    less_than_or_eq_holds::<254>();
    less_than_or_eq_holds::<255>();
}

#[test]
fn less_than_or_eq_elsewhere() {
    less_than_or_eq_holds::<30>();
    less_than_or_eq_holds::<2>();
    less_than_or_eq_holds::<130>();
    less_than_or_eq_holds::<250>();
    less_than_or_eq_holds::<200>();
    less_than_or_eq_holds::<160>();
}

#[test]
fn greater_than_at_the_boundaries() {
    greater_than_holds::<0>();
    greater_than_holds::<1>();
    greater_than_holds::<127>();
    greater_than_holds::<128>();
    greater_than_holds::<129>();
    greater_than_holds::<254>();
    greater_than_holds::<255>();
}

#[test]
fn greater_than_elsewhere() {
    greater_than_holds::<250>();
    greater_than_holds::<253>();
    greater_than_holds::<230>();
    greater_than_holds::<190>();
    greater_than_holds::<125>();
    greater_than_holds::<50>();
    greater_than_holds::<90>();
}

#[test]
fn greater_than_or_eq_at_the_boundaries() {
    greater_than_or_eq_holds::<0>();
    greater_than_or_eq_holds::<1>();
    greater_than_or_eq_holds::<127>();
    greater_than_or_eq_holds::<128>();
    greater_than_or_eq_holds::<129>();
    greater_than_or_eq_holds::<254>();
    greater_than_or_eq_holds::<255>();
}

#[test]
fn greater_than_or_eq_elsewhere() {
    greater_than_or_eq_holds::<250>();
    greater_than_or_eq_holds::<230>();
    greater_than_or_eq_holds::<200>();
    greater_than_or_eq_holds::<126>();
    greater_than_or_eq_holds::<130>();
    greater_than_or_eq_holds::<3>();
    greater_than_or_eq_holds::<64>();
    greater_than_or_eq_holds::<90>();
    greater_than_or_eq_holds::<120>();
}
