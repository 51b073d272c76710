use cleanax::parallel::{chunk_count, chunk_range};
use cleanax::pixel::Pixel;

#[test]
fn chunks_cover_the_items_without_gap_or_overlap() {
    for n in [0usize, 1, 2, 9, 10, 11, 100] {
        for step in [1usize, 2, 3, 10, 11, 1000] {
            let chunks = chunk_count(n, step);
            assert_eq!(chunks, (n + step - 1) / step);
            let mut next = 0usize;
            for i in 0..chunks {
                let (lo, hi) = chunk_range(i, step, n);
                assert_eq!(lo, next);
                assert!(lo < hi && hi - lo <= step);
                next = hi;
            }
            assert_eq!(next, n);
        }
    }
}

#[test]
fn chunk_ranges_by_hand() {
    assert_eq!(chunk_count(10, 4), 3);
    assert_eq!(chunk_range(0, 4, 10), (0, 4));
    assert_eq!(chunk_range(1, 4, 10), (4, 8));
    assert_eq!(chunk_range(2, 4, 10), (8, 10));
    assert_eq!(chunk_count(8, 4), 2);
    assert_eq!(chunk_range(1, 4, 8), (4, 8));
    assert_eq!(chunk_count(0, 4), 0);
    assert_eq!(chunk_count(usize::MAX, 1), usize::MAX);
    assert_eq!(chunk_count(usize::MAX, usize::MAX), 1);
    assert_eq!(chunk_range(0, usize::MAX, usize::MAX), (0, usize::MAX));
    assert_eq!(chunk_range(1, usize::MAX - 1, usize::MAX), (usize::MAX - 1, usize::MAX));
}

#[test]
fn adding_totals_is_free_of_order() {
    let x = Pixel { r: 1, g: 2, b: 3, a: 4 };
    let y = Pixel { r: 10, g: 20, b: 30, a: 40 };
    let z = Pixel { r: 100, g: 200, b: 300, a: u128::MAX - 44 };
    assert_eq!(x.plus(&y).plus(&z), x.plus(&y.plus(&z)));
    assert_eq!(x.plus(&y), y.plus(&x));
    assert_eq!(x.plus(&Pixel::zero()), x);
    assert_eq!(Pixel::sum(&vec![x, y, z]), Pixel { r: 111, g: 222, b: 333, a: u128::MAX });
    assert_eq!(Pixel::sum(&vec![z, x, y]), Pixel::sum(&vec![y, z, x]));
}
