use rustdsplit::bisect::{bisect_fresh, bisect_resumed};
use rustdsplit::error::SplitError;
use rustdsplit::signature::Signature;

#[test]
fn fresh_ranges_of_a_hundred_bytes() {
    assert_eq!(bisect_fresh(100), Ok((Signature::new(0, 50), Signature::new(51, 100))));
}

#[test]
fn fresh_ranges_round_the_middle_down() {
    assert_eq!(bisect_fresh(13), Ok((Signature::new(0, 6), Signature::new(7, 13))));
    assert_eq!(bisect_fresh(101), Ok((Signature::new(0, 50), Signature::new(51, 101))));
    assert_eq!(bisect_fresh(1), Ok((Signature::new(0, 0), Signature::new(1, 1))));
}

#[test]
fn fresh_ranges_of_an_empty_file() {
    assert_eq!(bisect_fresh(0), Ok((Signature::new(0, 0), Signature::new(1, 0))));
}

#[test]
fn fresh_ranges_of_the_largest_size_that_fits() {
    let size = u32::MAX as usize;
    assert_eq!(
        bisect_fresh(size),
        Ok((Signature::new(0, 2_147_483_647), Signature::new(2_147_483_648, 4_294_967_295)))
    );
}

#[test]
fn size_past_32_bits_overflows() {
    if let Some(size) = (u32::MAX as usize).checked_add(1) {
        assert_eq!(bisect_fresh(size), Err(SplitError::OffsetOverflow));
        assert_eq!(bisect_fresh(usize::MAX), Err(SplitError::OffsetOverflow));
    }
}

#[test]
fn resumed_ranges_meet_at_the_middle() {
    assert_eq!(
        bisect_resumed(&Signature::new(0, 50)),
        (Signature::new(0, 25), Signature::new(25, 50))
    );
    assert_eq!(
        bisect_resumed(&Signature::new(51, 100)),
        (Signature::new(51, 75), Signature::new(75, 100))
    );
    assert_eq!(
        bisect_resumed(&Signature::new(10, 15)),
        (Signature::new(10, 12), Signature::new(12, 15))
    );
}

#[test]
fn resumed_ranges_of_short_ranges_stay_put() {
    assert_eq!(bisect_resumed(&Signature::new(7, 7)), (Signature::new(7, 7), Signature::new(7, 7)));
    assert_eq!(bisect_resumed(&Signature::new(7, 8)), (Signature::new(7, 7), Signature::new(7, 8)));
}

#[test]
fn resumed_ranges_of_the_widest_range() {
    assert_eq!(
        bisect_resumed(&Signature::new(0, u32::MAX)),
        (Signature::new(0, 2_147_483_647), Signature::new(2_147_483_647, u32::MAX))
    );
    assert_eq!(
        bisect_resumed(&Signature::new(u32::MAX - 1, u32::MAX)),
        (Signature::new(u32::MAX - 1, u32::MAX - 1), Signature::new(u32::MAX - 1, u32::MAX))
    );
}
