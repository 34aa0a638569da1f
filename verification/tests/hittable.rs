use raytracer::hittable::nearest_hit;

#[test]
fn picks_the_nearest() {
    let candidates = vec![Some(50u64), None, Some(30), Some(40)];
    assert_eq!(nearest_hit(&candidates), Some(2));
}

#[test]
fn first_of_equally_near_wins() {
    let candidates = vec![None, Some(30u64), Some(30), Some(50)];
    assert_eq!(nearest_hit(&candidates), Some(1));
}

#[test]
fn nothing_hit() {
    assert_eq!(nearest_hit(&vec![]), None);
    assert_eq!(nearest_hit(&vec![None, None, None]), None);
}

#[test]
fn single_hit() {
    assert_eq!(nearest_hit(&vec![None, Some(7u64)]), Some(1));
}

#[test]
fn permutation_does_not_change_the_hit() {
    // Reordering the primitives must not change which hit is reported.
    let base = vec![Some(70u64), Some(10), None, Some(40)];
    let reorderings = vec![
        vec![Some(10u64), Some(70), Some(40), None],
        vec![None, Some(40), Some(10), Some(70)],
        vec![Some(40u64), None, Some(70), Some(10)],
    ];
    let m = nearest_hit(&base).unwrap();
    for other in reorderings {
        let m2 = nearest_hit(&other).unwrap();
        assert_eq!(base[m], other[m2]);
    }
}
