//! Nearest-hit selection over a scene of primitives.
//!
//! The scene is scanned linearly: every primitive reports the ray parameter
//! `t` of its hit, or nothing where the ray misses it. The parameters are
//! `f64` outside this crate; a caller hands them over as order-preserving
//! integer keys (a finite IEEE double compares like its sign-adjusted bit
//! pattern), and what is decided and proved here is the selection itself:
//! the nearest hit wins, the first of equally near hits wins, and which hit
//! is reported does not depend on the order the primitives were listed in.

use vstd::prelude::*;
use vstd::seq_lib::group_to_multiset_ensures;

verus! {

/// The hit parameter carried by one candidate report.
pub open spec fn hit_key(c: Option<u64>) -> u64 {
    match c {
        Some(t) => t,
        None => 0,
    }
}

/// Whether, among the first `upto` candidates, `m` points at the winning
/// hit: one no farther than any other, and the first among the equally near.
pub open spec fn nearest_upto(candidates: Seq<Option<u64>>, upto: int, m: int) -> bool {
    &&& 0 <= m < upto <= candidates.len()
    &&& candidates[m] is Some
    &&& (forall|i: int|
        0 <= i < upto && (#[trigger] candidates[i]) is Some ==> hit_key(candidates[m]) <= hit_key(
            candidates[i],
        ))
    &&& (forall|i: int|
        0 <= i < m && (#[trigger] candidates[i]) is Some ==> hit_key(candidates[m]) < hit_key(
            candidates[i],
        ))
}

/// Whether `m` points at the winning hit of the whole scan.
pub open spec fn is_nearest(candidates: Seq<Option<u64>>, m: int) -> bool {
    nearest_upto(candidates, candidates.len() as int, m)
}

/// Selects the nearest hit of a scene scan. `candidates` holds one report
/// per primitive, in scene order: the key of its hit, or `None` where the
/// ray missed it. Returns the index of the first nearest hit, and `None`
/// exactly when the ray hit nothing.
pub fn nearest_hit(candidates: &Vec<Option<u64>>) -> (out: Option<usize>)
    ensures
        match out {
            Some(m) => is_nearest(candidates@, m as int),
            None => forall|i: int|
                0 <= i < candidates@.len() ==> !((#[trigger] candidates@[i]) is Some),
        },
{
    let mut best: Option<(usize, u64)> = None;
    let mut m: usize = 0;
    while m < candidates.len()
        invariant
            m <= candidates@.len(),
            match best {
                Some(bk) => (nearest_upto(candidates@, m as int, bk.0 as int) && bk.1 == hit_key(
                    candidates@[bk.0 as int],
                )),
                None => forall|i: int| 0 <= i < m ==> !((#[trigger] candidates@[i]) is Some),
            },
        decreases candidates@.len() - m,
    {
        let c = candidates[m];
        match c {
            Some(t) => {
                match best {
                    None => {
                        best = Some((m, t));
                    },
                    Some((_b, bt)) => {
                        if t < bt {
                            best = Some((m, t));
                        }
                    },
                }
            },
            None => {},
        }
        m += 1;
    }
    match best {
        Some((b, _bt)) => Some(b),
        None => None,
    }
}

/// Law: which hit is nearest does not depend on the order in which the
/// primitives were listed. Across any reordering of the same candidate
/// reports, the selected hits carry the same ray parameter.
pub proof fn lemma_nearest_permutation(
    c1: Seq<Option<u64>>,
    c2: Seq<Option<u64>>,
    m1: int,
    m2: int,
)
    requires
        c1.to_multiset() == c2.to_multiset(),
        is_nearest(c1, m1),
        is_nearest(c2, m2),
    ensures
        c1[m1] == c2[m2],
{
    broadcast use group_to_multiset_ensures;

    assert(c1.contains(c1[m1]));
    assert(c1.to_multiset().count(c1[m1]) > 0);
    assert(c2.to_multiset().count(c1[m1]) > 0);
    assert(c2.contains(c1[m1]));
    let j = choose|j: int| 0 <= j < c2.len() && c2[j] == c1[m1];
    assert(hit_key(c2[m2]) <= hit_key(c2[j]));

    assert(c2.contains(c2[m2]));
    assert(c2.to_multiset().count(c2[m2]) > 0);
    assert(c1.to_multiset().count(c2[m2]) > 0);
    assert(c1.contains(c2[m2]));
    let i = choose|i: int| 0 <= i < c1.len() && c1[i] == c2[m2];
    assert(hit_key(c1[m1]) <= hit_key(c1[i]));

    assert(hit_key(c1[m1]) == hit_key(c2[m2]));
}

} // verus!
