use ipsofs::bitmaps::{DBitmap, IBitmap};
use ipsofs::error::FsError;

#[test]
fn tests_works() {
    assert_eq!(true, true);
}

#[test]
fn set_marks_only_the_target_bit() {
    // Capacity spans three words so cross-word neighbours are checked too.
    let mut bm = IBitmap::new(130);
    assert_eq!(bm.is_set(70).unwrap(), false);
    bm.set(70).unwrap();
    assert_eq!(bm.is_set(70).unwrap(), true);
    for j in 0..130 {
        if j != 70 {
            assert_eq!(bm.is_set(j).unwrap(), false);
        }
    }
    // Setting an already-set bit is idempotent.
    bm.set(70).unwrap();
    assert_eq!(bm.is_set(70).unwrap(), true);
}

#[test]
fn clear_clears_only_the_target_bit() {
    let mut bm = IBitmap::new(130);
    bm.set(6).unwrap();
    bm.set(70).unwrap();
    bm.set(71).unwrap();
    bm.clear(70).unwrap();
    assert_eq!(bm.is_set(70).unwrap(), false);
    // Neighbours in the same word and in other words are untouched.
    assert_eq!(bm.is_set(6).unwrap(), true);
    assert_eq!(bm.is_set(71).unwrap(), true);
    for j in 0..130 {
        if j != 6 && j != 71 {
            assert_eq!(bm.is_set(j).unwrap(), false);
        }
    }
}

#[test]
fn bounds_violations_are_explicit_errors() {
    let mut bm = IBitmap::new(100);
    assert_eq!(bm.set(100), Err(FsError::OutOfBounds));
    assert_eq!(bm.clear(100), Err(FsError::OutOfBounds));
    assert_eq!(bm.is_set(100), Err(FsError::OutOfBounds));
    let mut dm = DBitmap::new(0);
    assert_eq!(dm.set(0), Err(FsError::OutOfBounds));
}

#[test]
fn first_fit_returns_lowest_free_identifier() {
    let mut bm = DBitmap::new(200);
    assert_eq!(bm.find_first_available(), Some(0));
    for i in 0..67 {
        bm.set(i).unwrap();
    }
    assert_eq!(bm.find_first_available(), Some(67));
    bm.clear(5).unwrap();
    assert_eq!(bm.find_first_available(), Some(5));
}

#[test]
fn full_bitmap_reports_none_not_a_phantom_bit() {
    // Capacity 70 leaves 58 padding bits in the final word; none of them
    // may be reported as free.
    let mut bm = IBitmap::new(70);
    for i in 0..70 {
        bm.set(i).unwrap();
    }
    assert_eq!(bm.find_first_available(), None);
}
