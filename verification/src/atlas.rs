//! The two atlas production paths.
//!
//! The static path orders the records tallest first and packs them into
//! as many pages as the fixed side budget demands. The dynamic path
//! first normalizes working sizes — per-record halving to the caller's
//! icon bound, then lock-step halving to the caller's area budget — and
//! rejects degenerate budgets up front.

use vstd::prelude::*;

use crate::MAX_SIZE;
use crate::err::Error;
use crate::img::Image;
use crate::order::sort_by_height_desc;
use crate::pack::{
    AtlasPage, lemma_sum_area_permutation, pack_all, page_wf, pages_prefix_len, sum_area,
    total_area_checked,
};
use crate::scale::{halve_all_iter, icon_fit, shrink_to_area_budget, shrink_to_icon_bound};

verus! {

/// A record list ordered tallest first.
pub open spec fn sorted_desc_by_height(s: Seq<Image>) -> bool {
    forall|p: int, q: int|
        0 <= p < q < s.len() ==> (#[trigger] s[p]).height >= (#[trigger] s[q]).height
}

/// Some record is taller than the canvas side budget.
pub open spec fn some_height_exceeds(s: Seq<Image>, max_side: int) -> bool {
    exists|i: int| 0 <= i < s.len() && (#[trigger] s[i]).height > max_side
}

/// Whether the record heights fit the side budget; errs otherwise.
fn check_heights(records: &Vec<Image>, max_side: u32) -> (r: bool)
    ensures
        r == !some_height_exceeds(records@, max_side as int),
{
    let n = records.len();
    let mut i: usize = 0;
    while i < n
        invariant
            0 <= i <= n,
            n == records@.len(),
            forall|t: int| 0 <= t < i ==> (#[trigger] records@[t]).height <= max_side,
        decreases n - i,
    {
        if records[i].height > max_side {
            return false;
        }
        i += 1;
    }
    true
}

/// A height bound survives any permutation.
proof fn lemma_heights_permuted(s1: Seq<Image>, s2: Seq<Image>, max_side: int)
    requires
        s1.to_multiset() == s2.to_multiset(),
    ensures
        some_height_exceeds(s1, max_side) == some_height_exceeds(s2, max_side),
{
    broadcast use vstd::seq_lib::group_to_multiset_ensures;

    if some_height_exceeds(s1, max_side) {
        let i = choose|i: int| 0 <= i < s1.len() && (#[trigger] s1[i]).height > max_side;
        assert(s1.contains(s1[i]));
        assert(s2.to_multiset().contains(s1[i]));
        assert(s2.contains(s1[i]));
        let w = choose|w: int| 0 <= w < s2.len() && s2[w] == s1[i];
    }
    if some_height_exceeds(s2, max_side) {
        let i = choose|i: int| 0 <= i < s2.len() && (#[trigger] s2[i]).height > max_side;
        assert(s2.contains(s2[i]));
        assert(s1.to_multiset().contains(s2[i]));
        assert(s1.contains(s2[i]));
        let w = choose|w: int| 0 <= w < s1.len() && s1[w] == s2[i];
    }
}

/// Plans the whole static atlas: orders the records tallest first and
/// packs every one of them onto a page under the fixed side budget.
///
/// Rejected as a bad request: a total area beyond the machine range, or
/// a record taller than the canvas side budget, which no page could
/// ever hold.
pub fn plan_static_atlas(records: Vec<Image>) -> (r: Result<(Vec<Image>, Vec<AtlasPage>), Error>)
    ensures
        r is Err <==> sum_area(records@, 0, records@.len() as int) > u64::MAX
            || some_height_exceeds(records@, MAX_SIZE as int),
        r is Err ==> r->Err_0 is BadRequest,
        r is Ok ==> {
            let (sorted, pages) = r->Ok_0;
            &&& sorted@.to_multiset() == records@.to_multiset()
            &&& sorted_desc_by_height(sorted@)
            &&& pages_prefix_len(pages@, pages@.len() as int) == sorted@.len()
            &&& (forall|p: int|
                0 <= p < pages@.len() ==> page_wf(
                    #[trigger] pages@[p],
                    sorted@,
                    pages_prefix_len(pages@, p),
                    MAX_SIZE as int,
                ))
        },
{
    let ghost input = records@;
    let mut sorted = records;
    sort_by_height_desc(&mut sorted);
    proof {
        lemma_sum_area_permutation(input, sorted@);
        lemma_heights_permuted(input, sorted@, MAX_SIZE as int);
    }
    match total_area_checked(&sorted) {
        None => {
            return Err(Error::BadRequest(String::from_str("total area out of range")));
        },
        Some(_) => {},
    }
    if !check_heights(&sorted, MAX_SIZE) {
        return Err(Error::BadRequest(String::from_str("record taller than the canvas budget")));
    }
    let pages = pack_all(&sorted, MAX_SIZE);
    Ok((sorted, pages))
}

/// The icon-bound pass applied to every record: working dimensions only,
/// never the source records.
pub open spec fn icon_shrunk(s: Seq<Image>, mw: u32, mh: u32) -> Seq<Image> {
    s.map_values(
        |m: Image|
            Image {
                width: icon_fit(m.width as nat, m.height as nat, mw as nat, mh as nat).0 as u32,
                height: icon_fit(m.width as nat, m.height as nat, mw as nat, mh as nat).1 as u32,
                ..m
            },
    )
}

/// Why a dynamic atlas request is refused: a degenerate area budget, a
/// normalized total area beyond the machine range, or a record that
/// still overtops the side budget after both normalization passes.
pub open spec fn dynamic_rejects(
    s: Seq<Image>,
    icon_w: u32,
    icon_h: u32,
    max_area: u64,
    max_side: u32,
) -> bool {
    ||| max_area <= 1
    ||| sum_area(icon_shrunk(s, icon_w, icon_h), 0, s.len() as int) > u64::MAX
    ||| (exists|k: nat|
        is_area_settling(icon_shrunk(s, icon_w, icon_h), max_area, k) && some_height_exceeds(
            #[trigger] halve_all_iter(icon_shrunk(s, icon_w, icon_h), k),
            max_side as int,
        ))
}

/// `k` is the settling point of the lock-step halving under the budget:
/// the first iterate whose total area fits.
pub open spec fn is_area_settling(s: Seq<Image>, max_area: u64, k: nat) -> bool {
    &&& sum_area(halve_all_iter(s, k), 0, s.len() as int) <= max_area
    &&& (forall|j: nat|
        j < k ==> sum_area(#[trigger] halve_all_iter(s, j), 0, s.len() as int) > max_area)
}

/// The settling point is unique.
proof fn lemma_settling_unique(s: Seq<Image>, max_area: u64, k1: nat, k2: nat)
    requires
        is_area_settling(s, max_area, k1),
        is_area_settling(s, max_area, k2),
    ensures
        k1 == k2,
{
    if k1 < k2 {
        assert(sum_area(halve_all_iter(s, k1), 0, s.len() as int) > max_area);
    }
    if k2 < k1 {
        assert(sum_area(halve_all_iter(s, k2), 0, s.len() as int) > max_area);
    }
}

/// Plans a dynamic atlas under caller-supplied budgets.
///
/// An area budget of one square pixel or less is rejected up front as a
/// bad request. The working copies are halved to the icon bound, halved
/// in lock step until the total area fits the budget, ordered tallest
/// first, and packed under the side budget.
pub fn pack_dynamic(
    records: Vec<Image>,
    icon_w: u32,
    icon_h: u32,
    max_area: u64,
    max_side: u32,
) -> (r: Result<(Vec<Image>, Vec<AtlasPage>), Error>)
    ensures
        r is Err <==> dynamic_rejects(records@, icon_w, icon_h, max_area, max_side),
        r is Err ==> r->Err_0 is BadRequest,
        r is Ok ==> {
            let (work, pages) = r->Ok_0;
            &&& (exists|k: nat|
                is_area_settling(icon_shrunk(records@, icon_w, icon_h), max_area, k)
                    && work@.to_multiset() == #[trigger] halve_all_iter(
                    icon_shrunk(records@, icon_w, icon_h),
                    k,
                ).to_multiset())
            &&& sum_area(work@, 0, work@.len() as int) <= max_area
            &&& sorted_desc_by_height(work@)
            &&& pages_prefix_len(pages@, pages@.len() as int) == work@.len()
            &&& (forall|p: int|
                0 <= p < pages@.len() ==> page_wf(
                    #[trigger] pages@[p],
                    work@,
                    pages_prefix_len(pages@, p),
                    max_side as int,
                ))
        },
{
    if max_area <= 1 {
        return Err(Error::BadRequest(String::from_str("area budget too small")));
    }
    let ghost input = records@;

    // Per-record halving to the icon bound, on working copies.
    let mut work: Vec<Image> = Vec::new();
    let mut rest = records;
    let ghost mut processed: int = 0;
    loop
        invariant
            0 <= processed <= input.len(),
            rest@ == input.skip(processed),
            work@ =~= icon_shrunk(input, icon_w, icon_h).take(processed),
        ensures
            work@ == icon_shrunk(input, icon_w, icon_h),
        decreases input.len() - processed,
    {
        if rest.len() == 0 {
            proof {
                assert(icon_shrunk(input, icon_w, icon_h).take(processed) =~= icon_shrunk(
                    input,
                    icon_w,
                    icon_h,
                ));
            }
            break ;
        }
        let m = rest.remove(0);
        proof {
            assert(m == input[processed]);
            assert(rest@ =~= input.skip(processed + 1));
        }
        let (w2, h2) = shrink_to_icon_bound(m.width, m.height, icon_w, icon_h);
        let shrunk = Image { width: w2, height: h2, ..m };
        work.push(shrunk);
        proof {
            assert(work@ =~= icon_shrunk(input, icon_w, icon_h).take(processed + 1));
            processed = processed + 1;
        }
    }
    let ghost after_icon = work@;

    match total_area_checked(&work) {
        None => {
            return Err(Error::BadRequest(String::from_str("total area out of range")));
        },
        Some(_) => {},
    }

    shrink_to_area_budget(&mut work, max_area);
    let ghost k = choose|k: nat|
        work@ == #[trigger] halve_all_iter(after_icon, k) && (forall|j: nat|
            j < k ==> sum_area(#[trigger] halve_all_iter(after_icon, j), 0, after_icon.len() as int)
                > max_area);
    proof {
        crate::scale::lemma_halve_iter_len(after_icon, k);
        assert(is_area_settling(after_icon, max_area, k));
    }
    let ghost after_area = work@;

    sort_by_height_desc(&mut work);
    proof {
        lemma_sum_area_permutation(after_area, work@);
        lemma_heights_permuted(after_area, work@, max_side as int);
    }

    if !check_heights(&work, max_side) {
        proof {
            assert(dynamic_rejects(input, icon_w, icon_h, max_area, max_side));
        }
        return Err(Error::BadRequest(String::from_str("record taller than the canvas budget")));
    }
    proof {
        // The settling point being unique, no other iterate can witness an
        // oversized record either.
        assert forall|k2: nat|
            is_area_settling(after_icon, max_area, k2) implies !some_height_exceeds(
            halve_all_iter(after_icon, k2),
            max_side as int,
        ) by {
            lemma_settling_unique(after_icon, max_area, k, k2);
        }
    }
    let pages = pack_all(&work, max_side);
    Ok((work, pages))
}

} // verus!
