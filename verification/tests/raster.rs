use raytracer::raster::flat_index;
use raytracer::raster::gather_by_index;
use raytracer::raster::pixel_order;

#[test]
fn order_two_by_two() {
    assert_eq!(pixel_order(2, 2), vec![(0, 0), (0, 1), (1, 0), (1, 1)]);
}

#[test]
fn order_three_wide() {
    assert_eq!(
        pixel_order(3, 2),
        vec![(0, 0), (0, 1), (0, 2), (1, 0), (1, 1), (1, 2)]
    );
}

#[test]
fn order_length() {
    assert_eq!(pixel_order(400, 225).len(), 400 * 225);
    assert_eq!(pixel_order(1, 1), vec![(0, 0)]);
    assert_eq!(pixel_order(5, 0), vec![]);
    assert_eq!(pixel_order(0, 5), vec![]);
}

#[test]
fn flat_index_matches_order() {
    let order = pixel_order(7, 4);
    for (k, &(j, i)) in order.iter().enumerate() {
        assert_eq!(flat_index(j, i, 7), k);
    }
}

#[test]
fn gather_reorders_by_index() {
    // Workers may hand their pixels back in any completion order; the gather
    // puts them back into raster order.
    let results = vec![(2usize, 'c'), (0, 'a'), (3, 'd'), (1, 'b')];
    assert_eq!(gather_by_index(4, &results), Some(vec!['a', 'b', 'c', 'd']));

    let in_order = vec![(0usize, 10u8), (1, 20), (2, 30)];
    assert_eq!(gather_by_index(3, &in_order), Some(vec![10, 20, 30]));

    assert_eq!(gather_by_index::<u8>(0, &vec![]), Some(vec![]));
}

#[test]
fn gather_rejects_incomplete_coverage() {
    // An index claimed twice (and another left empty).
    let duplicated = vec![(0usize, 'a'), (0, 'b'), (1, 'c')];
    assert_eq!(gather_by_index(3, &duplicated), None);

    // An index out of range.
    let out_of_range = vec![(3usize, 'a'), (1, 'b'), (2, 'c')];
    assert_eq!(gather_by_index(3, &out_of_range), None);

    // Too few results for the grid.
    let short = vec![(0usize, 'a')];
    assert_eq!(gather_by_index(2, &short), None);
}

#[test]
fn order_is_raster_scan() {
    // Consecutive flat indices never go up a row, and never go left within a
    // row: collecting parallel results by index reproduces the scan order.
    let order = pixel_order(6, 5);
    for pair in order.windows(2) {
        let (j0, i0) = pair[0];
        let (j1, i1) = pair[1];
        assert!(j0 < j1 || (j0 == j1 && i0 < i1));
    }
}
