//! Raster-scan ordering of the pixel grid.
//!
//! A `width` by `height` image is rendered pixel by pixel; the pixels may be
//! colored in any order (the work is embarrassingly parallel), but the image
//! file lists them row-major: top-to-bottom, left-to-right. The flat index of
//! a pixel is the position of its line in the file, and these functions pin
//! down the correspondence both ways.

use vstd::arithmetic::div_mod::lemma_fundamental_div_mod_converse_div;
use vstd::arithmetic::div_mod::lemma_fundamental_div_mod_converse_mod;
use vstd::pervasive::VecAdditionalExecFns;
use vstd::prelude::*;
use vstd::set_lib::lemma_int_range;
use vstd::set_lib::lemma_len_subset;
use vstd::set_lib::set_int_range;

verus! {

/// The row (counted from the top) that flat index `k` falls in, for an image
/// `width` pixels wide.
pub open spec fn row_of(k: int, width: int) -> int {
    k / width
}

/// The column (counted from the left) that flat index `k` falls in.
pub open spec fn col_of(k: int, width: int) -> int {
    k % width
}

/// The flat raster-scan index of the pixel in row `j`, column `i`.
pub fn flat_index(j: u32, i: u32, width: u32) -> (k: usize)
    requires
        i < width,
        j as int * width as int + i as int <= usize::MAX as int,
    ensures
        k == j as int * width as int + i as int,
        row_of(k as int, width as int) == j as int,
        col_of(k as int, width as int) == i as int,
{
    let k = (j as usize) * (width as usize) + (i as usize);
    proof {
        lemma_fundamental_div_mod_converse_div(k as int, width as int, j as int, i as int);
        lemma_fundamental_div_mod_converse_mod(k as int, width as int, j as int, i as int);
    }
    k
}

/// All pixel coordinates `(row, column)` of a `width` by `height` image, in
/// raster-scan order: the pair at flat index `k` is `(k / width, k % width)`.
pub fn pixel_order(width: u32, height: u32) -> (v: Vec<(u32, u32)>)
    requires
        width as int * height as int <= usize::MAX as int,
    ensures
        v@.len() == width as int * height as int,
        forall|k: int|
            0 <= k < v@.len() ==> #[trigger] v@[k] == (
                (row_of(k, width as int) as u32),
                (col_of(k, width as int) as u32),
            ),
{
    let mut v: Vec<(u32, u32)> = Vec::new();
    let mut j: u32 = 0;
    while j < height
        invariant
            j <= height,
            width as int * height as int <= usize::MAX as int,
            v@.len() == j as int * width as int,
            forall|k: int|
                0 <= k < v@.len() ==> #[trigger] v@[k] == (
                    (row_of(k, width as int) as u32),
                    (col_of(k, width as int) as u32),
                ),
        decreases height - j,
    {
        proof {
            assert((j as int + 1) * width as int <= height as int * width as int) by (nonlinear_arith)
                requires
                    j as int + 1 <= height as int,
                    width as int >= 0,
            ;
        }
        let mut i: u32 = 0;
        while i < width
            invariant
                i <= width,
                j < height,
                width as int * height as int <= usize::MAX as int,
                (j as int + 1) * width as int <= height as int * width as int,
                v@.len() == j as int * width as int + i as int,
                forall|k: int|
                    0 <= k < v@.len() ==> #[trigger] v@[k] == (
                        (row_of(k, width as int) as u32),
                        (col_of(k, width as int) as u32),
                    ),
            decreases width - i,
        {
            v.push((j, i));
            proof {
                let k = j as int * width as int + i as int;
                lemma_fundamental_div_mod_converse_div(k, width as int, j as int, i as int);
                lemma_fundamental_div_mod_converse_mod(k, width as int, j as int, i as int);
            }
            i += 1;
        }
        proof {
            assert(j as int * width as int + width as int == (j as int + 1) * width as int)
                by (nonlinear_arith);
        }
        j += 1;
    }
    proof {
        assert(height as int * width as int == width as int * height as int) by (nonlinear_arith);
    }
    v
}

/// Whether `results` assigns a value to every one of `n` slots exactly once:
/// one pair per slot, every index in range, no index claimed twice.
pub open spec fn indexed_cover<T>(results: Seq<(usize, T)>, n: nat) -> bool {
    &&& results.len() == n
    &&& (forall|m: int| 0 <= m < results.len() ==> (#[trigger] results[m]).0 < n)
    &&& (forall|m1: int, m2: int|
        0 <= m1 < m2 < results.len() ==> (#[trigger] results[m1]).0 != (
        #[trigger] results[m2]).0)
}

proof fn lemma_distinct_in_range_cover(seen: Set<int>, n: nat)
    requires
        seen.finite(),
        seen.len() == n,
        forall|x: int| seen.contains(x) ==> 0 <= x < n,
    ensures
        forall|k: int| 0 <= k < n ==> seen.contains(k),
{
    lemma_int_range(0, n as int);
    assert forall|k: int| 0 <= k < n implies seen.contains(k) by {
        if !seen.contains(k) {
            let r = set_int_range(0, n as int).remove(k);
            assert(set_int_range(0, n as int).contains(k));
            assert(r.len() == n - 1);
            assert(seen.subset_of(r));
            lemma_len_subset(seen, r);
        }
    }
}

/// Gathers the results of the per-pixel work, done in any order, back into
/// raster order: each element of `results` pairs a computed value with its
/// flat pixel index, and the gathered vector lists the values by that index.
/// Returns `None` exactly when `results` does not cover the `n` slots one to
/// one — an index out of range, claimed twice, or left empty.
pub fn gather_by_index<T: Copy>(n: usize, results: &Vec<(usize, T)>) -> (out: Option<Vec<T>>)
    ensures
        match out {
            Some(v) => {
                &&& indexed_cover(results@, n as nat)
                &&& v@.len() == n
                &&& forall|m: int|
                    0 <= m < results@.len() ==> v@[(#[trigger] results@[m]).0 as int]
                        == results@[m].1
            },
            None => !indexed_cover(results@, n as nat),
        },
{
    if results.len() != n {
        return None;
    }
    let mut slots: Vec<Option<T>> = Vec::new();
    let mut k: usize = 0;
    while k < n
        invariant
            k <= n,
            slots@.len() == k,
            forall|i: int| 0 <= i < k ==> (#[trigger] slots@[i]) is None,
        decreases n - k,
    {
        slots.push(None);
        k += 1;
    }
    let ghost mut seen: Set<int> = Set::empty();
    let mut m: usize = 0;
    while m < n
        invariant
            m <= n,
            results@.len() == n,
            slots@.len() == n,
            seen.finite(),
            seen.len() == m,
            forall|x: int| seen.contains(x) ==> 0 <= x < n,
            forall|x: int|
                #[trigger] seen.contains(x) ==> exists|mm: int|
                    0 <= mm < m && (#[trigger] results@[mm]).0 == x,
            forall|i: int| 0 <= i < n ==> ((#[trigger] slots@[i]) is Some <==> seen.contains(i)),
            forall|mm: int|
                0 <= mm < m ==> (#[trigger] results@[mm]).0 < n && slots@[results@[mm].0 as int]
                    == Some(results@[mm].1),
            forall|m1: int, m2: int|
                0 <= m1 < m2 < m ==> (#[trigger] results@[m1]).0 != (#[trigger] results@[m2]).0,
        decreases n - m,
    {
        let (idx, val) = results[m];
        if idx >= n {
            proof {
                assert((results@[m as int]).0 >= n);
                assert(!indexed_cover(results@, n as nat));
            }
            return None;
        }
        match slots[idx] {
            Some(_) => {
                proof {
                    assert(seen.contains(idx as int));
                    let mm = choose|mm: int|
                        0 <= mm < m && (#[trigger] results@[mm]).0 == idx as int;
                    assert((results@[mm]).0 == (results@[m as int]).0);
                    assert(!indexed_cover(results@, n as nat));
                }
                return None;
            },
            None => {
                slots.set(idx, Some(val));
                proof {
                    seen = seen.insert(idx as int);
                }
                m += 1;
            },
        }
    }
    proof {
        lemma_distinct_in_range_cover(seen, n as nat);
        assert(forall|i: int| 0 <= i < n ==> (#[trigger] slots@[i]) is Some);
    }
    let mut gathered: Vec<T> = Vec::new();
    let mut k2: usize = 0;
    while k2 < n
        invariant
            k2 <= n,
            results@.len() == n,
            slots@.len() == n,
            gathered@.len() == k2,
            forall|i: int| 0 <= i < n ==> (#[trigger] slots@[i]) is Some,
            forall|i: int| 0 <= i < k2 ==> Some(#[trigger] gathered@[i]) == slots@[i],
            forall|mm: int|
                0 <= mm < n ==> (#[trigger] results@[mm]).0 < n && slots@[results@[mm].0 as int]
                    == Some(results@[mm].1),
            forall|m1: int, m2: int|
                0 <= m1 < m2 < n ==> (#[trigger] results@[m1]).0 != (#[trigger] results@[m2]).0,
        decreases n - k2,
    {
        match slots[k2] {
            Some(c) => {
                gathered.push(c);
            },
            None => {
                // unreachable: every slot was filled above
                proof {
                    assert(false);
                }
                return None;
            },
        }
        k2 += 1;
    }
    Some(gathered)
}

/// Law: flat-index order is raster-scan order. Whenever `k1` comes before
/// `k2` in the file, the pixel of `k1` lies in an earlier row, or in the same
/// row further left — so gathering parallel results by flat index reproduces
/// the top-to-bottom, left-to-right scan no matter in what order the workers
/// finished.
pub proof fn lemma_raster_order(width: int, k1: int, k2: int)
    requires
        0 < width,
        0 <= k1 < k2,
    ensures
        row_of(k1, width) < row_of(k2, width) || (row_of(k1, width) == row_of(k2, width)
            && col_of(k1, width) < col_of(k2, width)),
{
    vstd::arithmetic::div_mod::lemma_fundamental_div_mod(k1, width);
    vstd::arithmetic::div_mod::lemma_fundamental_div_mod(k2, width);
    vstd::arithmetic::div_mod::lemma_mod_bound(k1, width);
    vstd::arithmetic::div_mod::lemma_mod_bound(k2, width);
    vstd::arithmetic::div_mod::lemma_div_is_ordered(k1, k2, width);
    if row_of(k1, width) == row_of(k2, width) {
        assert(k1 % width < k2 % width);
    }
}

} // verus!
