//! Layout computation: the four strategies over a filtered record set.
//!
//! A request picks one strategy — sort, expansion grid, time histogram
//! or embedding — and the engine answers with an id ordering, a 2-D
//! occupancy grid, or normalized 2-D positions. The iterative embedding
//! itself runs outside the engine; its raw coordinates come in as an
//! argument and only the normalization happens here.

use vstd::prelude::*;

use crate::dist::cos_score;
use crate::embed::{
    EmbeddedPoint, RawPoint, TsneOptions, max_x, max_y, min_x, min_y, norm_coord,
    normalize_embedding,
};
use crate::err::Error;
use crate::filter::Filter;
use crate::format::{uuid_chars, uuid_to_string};
use crate::grid::{
    ExpansionGridOptions, PosCell, cells_wf, create_expansion_grid, grid_filled, quadrant_i0,
    quadrant_j0, resolved_anchor, resolved_grid_dist,
};
use crate::hist::{TimeHistOptions, TimeHistResolution, buckets_wf, group_by_key, record_key};
use crate::img::{Image, UuidString, all_wf, records_match};
use crate::order::{
    CompareDist, CompareFunction, CompareFunctionVariants, SignedDist, comparative_defined,
    comparative_rank, comparator_total_on, rank_defined, rank_le, signed_defined, sort_by,
};

verus! {

/// Options of a plain sort request.
pub struct SortOptions {
    pub compare: CompareFunctionVariants,
}

/// The strategy of a layout request.
pub enum LayoutOptions {
    Sort(SortOptions),
    GridExpansion(ExpansionGridOptions),
    TimeHist(TimeHistOptions),
    Tsne(TsneOptions),
}

/// A layout request: a strategy plus an optional pre-filter.
pub struct LayoutRequest {
    pub opts: LayoutOptions,
    pub filter: Option<Filter>,
}

/// A computed layout: an id ordering, an occupancy grid, or normalized
/// 2-D positions.
#[derive(Debug)]
pub enum Layout {
    Sort { data: Vec<UuidString> },
    Grid { data: Vec<Vec<Option<UuidString>>>, invert: bool },
    Pos { data: Vec<EmbeddedPoint> },
}

/// The comparator's undefined palette-cosine case stays away from every
/// pair the request would compare; the historical float comparator was
/// unordered there.
pub open spec fn compare_defined_on(c: CompareFunctionVariants, s: Seq<Image>) -> bool {
    match c {
        CompareFunctionVariants::SignedDist { dist } => forall|i: int, j: int|
            0 <= i < s.len() && 0 <= j < s.len() ==> signed_defined(dist, #[trigger] s[i], #[trigger] s[j]),
        CompareFunctionVariants::ComparativeDist { compared_to, dist } => forall|k: int, i: int, j: int|
            0 <= k < s.len() && 0 <= i < s.len() && 0 <= j < s.len() && (#[trigger] s[k]).id
                == compared_to ==> comparative_defined(dist, s[k], #[trigger] s[i], #[trigger] s[j]),
    }
}

/// Whether the whole request compares cleanly on this record set.
pub open spec fn request_defined(req: LayoutRequest, s: Seq<Image>) -> bool {
    match req.opts {
        LayoutOptions::Sort(o) => compare_defined_on(o.compare, s),
        LayoutOptions::GridExpansion(o) => compare_defined_on(o.compare, s),
        _ => true,
    }
}

/// Whether the request names a reference image that the record set does
/// not hold — the one failure a layout request can meet.
pub open spec fn reference_missing(req: LayoutRequest, s: Seq<Image>) -> bool {
    match req.opts {
        LayoutOptions::Sort(o) => cfv_reference_missing(o.compare, s),
        LayoutOptions::GridExpansion(o) => cfv_reference_missing(o.compare, s),
        _ => false,
    }
}

/// The comparator wants a reference id that no record carries.
pub open spec fn cfv_reference_missing(c: CompareFunctionVariants, s: Seq<Image>) -> bool {
    match c {
        CompareFunctionVariants::SignedDist { dist } => false,
        CompareFunctionVariants::ComparativeDist { compared_to, dist } => !(exists|i: int|
            0 <= i < s.len() && (#[trigger] s[i]).id == compared_to),
    }
}

/// The comparator a request carries; the strategies without one fall
/// back to the timestamp sign comparator, which no clause ever reads.
pub open spec fn request_compare(req: LayoutRequest) -> CompareFunctionVariants {
    match req.opts {
        LayoutOptions::Sort(o) => o.compare,
        LayoutOptions::GridExpansion(o) => o.compare,
        _ => CompareFunctionVariants::SignedDist {
            dist: crate::dist::DistanceFunctionVariants::DateTime,
        },
    }
}

/// The text of the not-found failure: it names the missing reference id
/// in its lowercase-hyphenated form.
pub open spec fn missing_reference_msg(compared_to: u128) -> Seq<char> {
    "image with id "@ + uuid_chars(compared_to)
}

/// What "sorted" means under each wire comparator. A reference sort
/// orders the records ascending by their score to a record carrying the
/// reference id's data; a sign sort is ordered under the comparator
/// whenever its relation is a total preorder on the records at hand.
pub open spec fn sorted_for(c: CompareFunctionVariants, input: Seq<Image>, s: Seq<Image>) -> bool {
    match c {
        CompareFunctionVariants::ComparativeDist { compared_to, dist } => exists|refr: Image|
            refr.id == compared_to && (exists|k: int|
                0 <= k < input.len() && records_match(refr, #[trigger] input[k]))
                && #[trigger] sorted_by_reference(dist, refr, s),
        CompareFunctionVariants::SignedDist { dist } => comparator_total_on(
            CompareFunction::Signed(SignedDist { dist }),
            input.to_multiset(),
        ) ==> (forall|p: int, q: int|
            0 <= p < q < s.len() ==> rank_le(
                CompareFunction::Signed(SignedDist { dist }),
                #[trigger] s[p],
                #[trigger] s[q],
            )),
    }
}

/// The grid rows mirror the histogram buckets: one row per bucket, the
/// row's entries the bucket's record ids in order.
pub open spec fn grid_rows_match(g: Seq<Vec<Option<UuidString>>>, bs: Seq<Vec<Image>>) -> bool {
    &&& g.len() == bs.len()
    &&& (forall|p: int| 0 <= p < g.len() ==> (#[trigger] g[p])@.len() == bs[p]@.len())
    &&& (forall|p: int, j: int|
        #![trigger g[p]@[j]]
        0 <= p < g.len() && 0 <= j < bs[p]@.len() ==> g[p]@[j] == Some(UuidString(bs[p]@[j].id)))
}

/// The histogram grid over an input record list: its rows are exactly
/// the buckets of a timestamp-sorted permutation of the timestamped
/// records, grouped maximally by the truncation key, computed on copies
/// carrying the same data as the input records.
pub open spec fn time_hist_grid(
    g: Seq<Vec<Option<UuidString>>>,
    input: Seq<Image>,
    res: TimeHistResolution,
) -> bool {
    exists|dup: Seq<Image>, bs: Seq<Vec<Image>>, s: Seq<Image>|
        #![trigger buckets_wf(bs, s, res), dup.len()]
        {
            &&& dup.len() == input.len()
            &&& (forall|i: int| 0 <= i < dup.len() ==> records_match(#[trigger] dup[i], input[i]))
            &&& buckets_wf(bs, s, res)
            &&& s.to_multiset() == dup.filter(
                |m: Image| m.metadata.date_time is Some,
            ).to_multiset()
            &&& sorted_by_timestamp(s)
            &&& grid_rows_match(g, bs)
        }
}

/// What the expansion-grid strategy returns: the square odd-sided grid
/// of minimal side, filled as [`grid_filled`] pins it over the sorted
/// record order.
pub open spec fn expansion_grid_ok(
    g: Seq<Vec<Option<UuidString>>>,
    o: ExpansionGridOptions,
    s: Seq<Image>,
) -> bool {
    &&& g.len() % 2 == 1
    &&& g.len() >= 1
    &&& g.len() * g.len() >= s.len()
    &&& (g.len() == 1 || (g.len() as int - 2) * (g.len() as int - 2) < s.len() as int)
    &&& (forall|i: int| 0 <= i < g.len() ==> (#[trigger] g[i])@.len() == g.len())
    &&& (exists|cells: Seq<PosCell>|
        #[trigger] cells_wf(cells, resolved_anchor(o), resolved_grid_dist(o), g.len() as int)
            && grid_filled(
            g,
            s,
            cells,
            quadrant_i0(resolved_anchor(o), g.len() as int),
            quadrant_j0(resolved_anchor(o), g.len() as int),
        ))
}

/// Records ordered ascending by their score to the reference record.
pub open spec fn sorted_by_reference(
    d: crate::dist::DistanceFunctionVariants,
    refr: Image,
    s: Seq<Image>,
) -> bool {
    forall|p: int, q: int|
        0 <= p < q < s.len() ==> !(comparative_rank(d, refr, #[trigger] s[p], #[trigger] s[q])
            is Greater)
}

/// Matching data gives matching scores, so a deep copy of the reference
/// record compares exactly like the original.
proof fn lemma_match_scores(r1: Image, r2: Image, a: Image, b: Image)
    requires
        records_match(r1, r2),
    ensures
        comparative_defined(crate::dist::DistanceFunctionVariants::PaletteCos, r1, a, b)
            == comparative_defined(crate::dist::DistanceFunctionVariants::PaletteCos, r2, a, b),
{
    assert(cos_score(r1, a) == cos_score(r2, a));
    assert(cos_score(r1, b) == cos_score(r2, b));
}

/// Resolves the wire-level comparator against the record set: the
/// reference id, when one is named, must exist.
fn resolve_compare(c: &CompareFunctionVariants, images: &Vec<Image>) -> (r: Result<
    CompareFunction,
    Error,
>)
    requires
        all_wf(images@),
    ensures
        r is Err <==> cfv_reference_missing(*c, images@),
        r is Err ==> r->Err_0 is NotFound && r->Err_0->NotFound_0@ == missing_reference_msg(
            (*c)->ComparativeDist_compared_to,
        ),
        r is Ok ==> match (r->Ok_0, *c) {
            (
                CompareFunction::Signed(sd),
                CompareFunctionVariants::SignedDist { dist },
            ) => sd.dist == dist,
            (
                CompareFunction::Comparative(cd),
                CompareFunctionVariants::ComparativeDist { compared_to, dist },
            ) => cd.dist == dist && cd.compared_to.wf() && cd.compared_to.id == compared_to
                && (exists|k: int|
                0 <= k < images@.len() && records_match(cd.compared_to, #[trigger] images@[k])),
            _ => false,
        },
{
    match c {
        CompareFunctionVariants::SignedDist { dist } => Ok(
            CompareFunction::Signed(SignedDist { dist: *dist }),
        ),
        CompareFunctionVariants::ComparativeDist { compared_to, dist } => {
            let n = images.len();
            let mut k: usize = 0;
            while k < n
                invariant
                    0 <= k <= n,
                    n == images@.len(),
                    all_wf(images@),
                    *c == (CompareFunctionVariants::ComparativeDist {
                        compared_to: *compared_to,
                        dist: *dist,
                    }),
                    forall|t: int| 0 <= t < k ==> (#[trigger] images@[t]).id != compared_to,
                decreases n - k,
            {
                if images[k].id == *compared_to {
                    let reference = images[k].duplicate();
                    proof {
                        assert(images@[k as int].wf());
                        assert(records_match(reference, images@[k as int]));
                        assert(images@[k as int].id == compared_to);
                    }
                    return Ok(
                        CompareFunction::Comparative(
                            CompareDist { dist: *dist, compared_to: reference },
                        ),
                    );
                }
                k += 1;
            }
            let mut msg = String::from_str("image with id ");
            let id_text = uuid_to_string(*compared_to);
            msg.append(id_text.as_str());
            proof {
                assert(msg@ =~= missing_reference_msg(*compared_to));
            }
            Err(Error::NotFound(msg))
        },
    }
}

/// Runs one layout request over an (already filtered) record set.
///
/// The sort and expansion-grid strategies sort the records in place;
/// the histogram works on copies and the embedding never touches the
/// list, so both leave it exactly as it came. The embedding strategy
/// consumes the raw coordinates the caller obtained from the embedding
/// run, one per record, and normalizes them. The one failure is a
/// comparator reference id that the record set lacks, named in the
/// error's text.
pub fn do_layout(req: &LayoutRequest, images: &mut Vec<Image>, embedding: Option<&Vec<RawPoint>>) -> (r:
    Result<Layout, Error>)
    requires
        all_wf(old(images)@),
        old(images)@.len() <= 2000000000,
        request_defined(*req, old(images)@),
        req.opts is Tsne ==> embedding is Some && embedding->0@.len() == old(images)@.len(),
    ensures
        r is Err <==> reference_missing(*req, old(images)@),
        r is Err ==> r->Err_0 is NotFound && r->Err_0->NotFound_0@ == missing_reference_msg(
            request_compare(*req)->ComparativeDist_compared_to,
        ),
        req.opts is Sort || req.opts is GridExpansion ==> final(images)@.to_multiset()
            == old(images)@.to_multiset(),
        // The strategies that do not sort leave the record list alone.
        req.opts is TimeHist || req.opts is Tsne ==> final(images)@ == old(images)@,
        r is Ok && req.opts is Sort ==> r->Ok_0 is Sort && r->Ok_0->Sort_data@.len() == old(images)@.len()
            && (forall|i: int|
            0 <= i < final(images)@.len() ==> (#[trigger] r->Ok_0->Sort_data@[i]).0
                == final(images)@[i].id),
        // The record list really comes out sorted under the requested
        // comparator.
        r is Ok && req.opts is Sort ==> sorted_for(
            req.opts->Sort_0.compare,
            old(images)@,
            final(images)@,
        ),
        r is Ok && req.opts is GridExpansion ==> sorted_for(
            req.opts->GridExpansion_0.compare,
            old(images)@,
            final(images)@,
        ),
        r is Ok && req.opts is GridExpansion ==> r->Ok_0 is Grid && r->Ok_0->Grid_invert == false
            && expansion_grid_ok(r->Ok_0->Grid_data@, req.opts->GridExpansion_0, final(images)@),
        req.opts is TimeHist ==> r is Ok && r->Ok_0 is Grid && r->Ok_0->Grid_invert == true
            && time_hist_grid(
            r->Ok_0->Grid_data@,
            old(images)@,
            req.opts->TimeHist_0.resolution,
        ),
        // Every embedded point is the exact fixed-point min-max image of
        // its raw coordinates.
        req.opts is Tsne ==> r is Ok && r->Ok_0 is Pos && r->Ok_0->Pos_data@.len()
            == old(images)@.len() && (forall|i: int|
            0 <= i < r->Ok_0->Pos_data@.len() ==> (#[trigger] r->Ok_0->Pos_data@[i]).id
                == embedding->0@[i].id && r->Ok_0->Pos_data@[i].x as int == norm_coord(
                embedding->0@[i].x as int,
                min_x(embedding->0@, embedding->0@.len() as int),
                max_x(embedding->0@, embedding->0@.len() as int),
            ) && r->Ok_0->Pos_data@[i].y as int == norm_coord(
                embedding->0@[i].y as int,
                min_y(embedding->0@, embedding->0@.len() as int),
                max_y(embedding->0@, embedding->0@.len() as int),
            ) && r->Ok_0->Pos_data@[i].x <= crate::embed::SCALE && r->Ok_0->Pos_data@[i].y
                <= crate::embed::SCALE),
        // Each axis keeps a point at each extreme unless it collapsed.
        req.opts is Tsne && embedding->0@.len() > 0 && max_x(
            embedding->0@,
            embedding->0@.len() as int,
        ) > min_x(embedding->0@, embedding->0@.len() as int) ==> (exists|i: int|
            0 <= i < r->Ok_0->Pos_data@.len() && (#[trigger] r->Ok_0->Pos_data@[i]).x == 0) && (
        exists|i: int|
            0 <= i < r->Ok_0->Pos_data@.len() && (#[trigger] r->Ok_0->Pos_data@[i]).x
                == crate::embed::SCALE),
        req.opts is Tsne && embedding->0@.len() > 0 && max_y(
            embedding->0@,
            embedding->0@.len() as int,
        ) > min_y(embedding->0@, embedding->0@.len() as int) ==> (exists|i: int|
            0 <= i < r->Ok_0->Pos_data@.len() && (#[trigger] r->Ok_0->Pos_data@[i]).y == 0) && (
        exists|i: int|
            0 <= i < r->Ok_0->Pos_data@.len() && (#[trigger] r->Ok_0->Pos_data@[i]).y
                == crate::embed::SCALE),
{
    match &req.opts {
        LayoutOptions::Sort(opts) => {
            let compare = match resolve_compare(&opts.compare, images) {
                Ok(c) => c,
                Err(e) => {
                    return Err(e);
                },
            };
            proof {
                lemma_request_defined_resolved(&compare, &opts.compare, images@);
                if let CompareFunction::Comparative(cd) = &compare {
                    crate::order::lemma_comparative_total_on(
                        cd.dist,
                        cd.compared_to,
                        old(images)@.to_multiset(),
                    );
                }
            }
            sort_by(images, &compare);
            proof {
                lemma_sorted_for_sorted(&compare, &opts.compare, old(images)@, images@);
            }
            let mut data: Vec<UuidString> = Vec::new();
            let n = images.len();
            let mut i: usize = 0;
            while i < n
                invariant
                    0 <= i <= n,
                    n == images@.len(),
                    data@.len() == i,
                    forall|j: int| 0 <= j < i ==> (#[trigger] data@[j]).0 == images@[j].id,
                decreases n - i,
            {
                data.push(UuidString(images[i].id));
                i += 1;
            }
            Ok(Layout::Sort { data })
        },
        LayoutOptions::GridExpansion(opts) => {
            let compare = match resolve_compare(&opts.compare, images) {
                Ok(c) => c,
                Err(e) => {
                    return Err(e);
                },
            };
            proof {
                lemma_request_defined_resolved(&compare, &opts.compare, images@);
                if let CompareFunction::Comparative(cd) = &compare {
                    crate::order::lemma_comparative_total_on(
                        cd.dist,
                        cd.compared_to,
                        old(images)@.to_multiset(),
                    );
                }
            }
            sort_by(images, &compare);
            proof {
                lemma_sorted_for_sorted(&compare, &opts.compare, old(images)@, images@);
            }
            let data = create_expansion_grid(images, opts);
            proof {
                let cells = choose|cells: Seq<PosCell>|
                    #[trigger] cells_wf(
                        cells,
                        resolved_anchor(*opts),
                        resolved_grid_dist(*opts),
                        data@.len() as int,
                    ) && grid_filled(
                        data@,
                        images@,
                        cells,
                        quadrant_i0(resolved_anchor(*opts), data@.len() as int),
                        quadrant_j0(resolved_anchor(*opts), data@.len() as int),
                    );
                assert(expansion_grid_ok(data@, *opts, images@));
            }
            Ok(Layout::Grid { data, invert: false })
        },
        LayoutOptions::TimeHist(opts) => {
            // The histogram works on copies; the record list itself is
            // left untouched.
            let mut owned: Vec<Image> = Vec::new();
            let n = images.len();
            let mut i: usize = 0;
            while i < n
                invariant
                    0 <= i <= n,
                    n == images@.len(),
                    all_wf(images@),
                    owned@.len() == i,
                    forall|j: int|
                        0 <= j < i ==> records_match(#[trigger] owned@[j], images@[j])
                            && owned@[j].wf(),
                decreases n - i,
            {
                let d = images[i].duplicate();
                owned.push(d);
                i += 1;
            }
            let ghost dupg = owned@;
            let buckets = time_hist(owned, opts);
            let ghost bs0 = buckets@;
            let mut data: Vec<Vec<Option<UuidString>>> = Vec::new();
            let nb = buckets.len();
            let mut p: usize = 0;
            let mut buckets = buckets;
            while p < nb
                invariant
                    0 <= p <= nb,
                    nb == bs0.len(),
                    buckets@ == bs0.skip(p as int),
                    data@.len() == p,
                    forall|q: int| 0 <= q < p ==> (#[trigger] data@[q])@.len() == bs0[q]@.len(),
                    forall|q: int, j: int|
                        #![trigger data@[q]@[j]]
                        0 <= q < p && 0 <= j < bs0[q]@.len() ==> data@[q]@[j] == Some(
                            UuidString(bs0[q]@[j].id),
                        ),
                decreases nb - p,
            {
                let bucket = buckets.remove(0);
                proof {
                    assert(bucket == bs0[p as int]);
                    assert(buckets@ =~= bs0.skip(p as int + 1));
                }
                let mut row: Vec<Option<UuidString>> = Vec::new();
                let m = bucket.len();
                let mut j: usize = 0;
                while j < m
                    invariant
                        0 <= j <= m,
                        m == bucket@.len(),
                        row@.len() == j,
                        forall|t: int|
                            0 <= t < j ==> (#[trigger] row@[t]) == Some(UuidString(bucket@[t].id)),
                    decreases m - j,
                {
                    row.push(Some(UuidString(bucket[j].id)));
                    j += 1;
                }
                data.push(row);
                p += 1;
            }
            proof {
                let s = choose|s: Seq<Image>|
                    #![trigger buckets_wf(bs0, s, opts.resolution)]
                    buckets_wf(bs0, s, opts.resolution) && s.to_multiset() == dupg.filter(
                        |m: Image| m.metadata.date_time is Some,
                    ).to_multiset() && sorted_by_timestamp(s);
                assert(grid_rows_match(data@, bs0));
                assert(dupg.len() == old(images)@.len());
                assert(time_hist_grid(data@, old(images)@, opts.resolution));
            }
            Ok(Layout::Grid { data, invert: true })
        },
        LayoutOptions::Tsne(_opts) => {
            let points = match embedding {
                Some(points) => points,
                None => {
                    proof {
                        assert(false);
                    }
                    return Err(Error::Internal(String::from_str("missing embedding")));
                },
            };
            let data = normalize_embedding(points);
            Ok(Layout::Pos { data })
        },
    }
}

/// A comparator resolved against a record set compares cleanly on every
/// pair the set offers, given the request did.
proof fn lemma_request_defined_resolved(
    compare: &CompareFunction,
    c: &CompareFunctionVariants,
    s: Seq<Image>,
)
    requires
        all_wf(s),
        compare_defined_on(*c, s),
        match (*compare, *c) {
            (
                CompareFunction::Signed(sd),
                CompareFunctionVariants::SignedDist { dist },
            ) => sd.dist == dist,
            (
                CompareFunction::Comparative(cd),
                CompareFunctionVariants::ComparativeDist { compared_to, dist },
            ) => cd.dist == dist && cd.compared_to.wf() && cd.compared_to.id == compared_to && (
            exists|k: int|
                0 <= k < s.len() && records_match(cd.compared_to, #[trigger] s[k])),
            _ => false,
        },
    ensures
        forall|i: int, j: int|
            0 <= i < s.len() && 0 <= j < s.len() ==> rank_defined(
                *compare,
                #[trigger] s[i],
                #[trigger] s[j],
            ),
{
    match *compare {
        CompareFunction::Signed(sd) => {},
        CompareFunction::Comparative(cd) => {
            let k = choose|k: int| 0 <= k < s.len() && records_match(cd.compared_to, #[trigger] s[k]);
            assert forall|i: int, j: int|
                0 <= i < s.len() && 0 <= j < s.len() implies rank_defined(
                *compare,
                #[trigger] s[i],
                #[trigger] s[j],
            ) by {
                if cd.dist is PaletteCos {
                    assert(s[k].id == cd.compared_to.id);
                    lemma_match_scores(cd.compared_to, s[k], s[i], s[j]);
                }
            }
        },
    }
}

/// After an in-place sort under a comparator resolved from the wire
/// form, the record list is sorted in the sense [`sorted_for`] states.
proof fn lemma_sorted_for_sorted(
    compare: &CompareFunction,
    c: &CompareFunctionVariants,
    before: Seq<Image>,
    after: Seq<Image>,
)
    requires
        after.to_multiset() == before.to_multiset(),
        match (*compare, *c) {
            (
                CompareFunction::Signed(sd),
                CompareFunctionVariants::SignedDist { dist },
            ) => sd.dist == dist,
            (
                CompareFunction::Comparative(cd),
                CompareFunctionVariants::ComparativeDist { compared_to, dist },
            ) => cd.dist == dist && cd.compared_to.id == compared_to && (exists|k: int|
                0 <= k < before.len() && records_match(cd.compared_to, #[trigger] before[k])),
            _ => false,
        },
        comparator_total_on(*compare, before.to_multiset()) ==> (forall|p: int, q: int|
            0 <= p < q < after.len() ==> rank_le(
                *compare,
                #[trigger] after[p],
                #[trigger] after[q],
            )),
    ensures
        sorted_for(*c, before, after),
{
    match (*compare, *c) {
        (
            CompareFunction::Comparative(cd),
            CompareFunctionVariants::ComparativeDist { compared_to, dist },
        ) => {
            crate::order::lemma_comparative_total_on(
                cd.dist,
                cd.compared_to,
                before.to_multiset(),
            );
            assert(*compare == CompareFunction::Comparative(
                CompareDist { dist: cd.dist, compared_to: cd.compared_to },
            ));
            assert forall|p: int, q: int| 0 <= p < q < after.len() implies !(comparative_rank(
                cd.dist,
                cd.compared_to,
                #[trigger] after[p],
                #[trigger] after[q],
            ) is Greater) by {
                assert(rank_le(*compare, after[p], after[q]));
            }
            assert(sorted_by_reference(dist, cd.compared_to, after));
        },
        (CompareFunction::Signed(sd), CompareFunctionVariants::SignedDist { dist }) => {
            assert(*compare == CompareFunction::Signed(SignedDist { dist }));
        },
        _ => {
            assert(false);
        },
    }
}

/// Collects, orders and buckets the timestamped records.
///
/// Records lacking a timestamp never reach a bucket. The kept records
/// are sorted ascending by timestamp, then consecutive records sharing
/// the truncation key form one bucket; every bucket is nonempty and all
/// its members share the bucket's key.
#[verifier::rlimit(100)]
pub fn time_hist(metadata: Vec<Image>, opts: &TimeHistOptions) -> (bs: Vec<Vec<Image>>)
    requires
        all_wf(metadata@),
    ensures
        forall|p: int| 0 <= p < bs@.len() ==> (#[trigger] bs@[p])@.len() >= 1,
        forall|p: int, j: int|
            #![trigger bs@[p]@[j]]
            0 <= p < bs@.len() && 0 <= j < bs@[p]@.len() ==> bs@[p]@[j].metadata.date_time
                is Some,
        forall|p: int, j: int|
            #![trigger bs@[p]@[j]]
            0 <= p < bs@.len() && 0 <= j < bs@[p]@.len() ==> record_key(
                opts.resolution,
                bs@[p]@[j],
            ) == record_key(opts.resolution, bs@[p]@[0]),
        exists|s: Seq<Image>|
            #![trigger buckets_wf(bs@, s, opts.resolution)]
            buckets_wf(bs@, s, opts.resolution) && s.to_multiset() == metadata@.filter(
                |m: Image| m.metadata.date_time is Some,
            ).to_multiset() && sorted_by_timestamp(s),
{
    broadcast use vstd::seq_lib::group_to_multiset_ensures;

    let ghost s0 = metadata@;
    // Keep only the timestamped records, preserving order.
    let mut kept: Vec<Image> = Vec::new();
    let ghost pred = |m: Image| m.metadata.date_time is Some;
    proof {
        reveal(Seq::filter);
        assert(s0.take(0) =~= Seq::<Image>::empty());
    }
    let mut rest = metadata;
    let ghost mut processed: int = 0;
    loop
        invariant
            0 <= processed <= s0.len(),
            rest@ == s0.skip(processed),
            kept@ == s0.take(processed).filter(pred),
            pred == (|m: Image| m.metadata.date_time is Some),
        ensures
            kept@ == s0.filter(pred),
            pred == (|m: Image| m.metadata.date_time is Some),
        decreases s0.len() - processed,
    {
        if rest.len() == 0 {
            proof {
                assert(s0.take(processed) =~= s0);
            }
            break ;
        }
        let m = rest.remove(0);
        proof {
            assert(m == s0[processed]);
            assert(rest@ =~= s0.skip(processed + 1));
            let step = s0.take(processed + 1);
            assert(step =~= s0.take(processed).push(m));
            reveal(Seq::filter);
            assert(step.drop_last() =~= s0.take(processed));
            assert(step.last() == m);
        }
        if m.metadata.date_time.is_some() {
            kept.push(m);
        }
        proof {
            processed = processed + 1;
        }
    }

    proof {
        lemma_filter_keeps_wf_and_ts(s0, kept@, pred);
    }
    // Sort ascending by timestamp: the sign comparator over the
    // timestamp score is exactly that order on timestamped records.
    let compare = CompareFunction::Signed(
        SignedDist { dist: crate::dist::DistanceFunctionVariants::DateTime },
    );
    let ghost kept_before = kept@;
    proof {
        broadcast use vstd::seq_lib::group_to_multiset_ensures;

        assert forall|x: Image| kept_before.to_multiset().contains(x) implies (
        #[trigger] x.metadata.date_time) is Some by {
            assert(kept_before.contains(x));
            let w = choose|w: int| 0 <= w < kept_before.len() && kept_before[w] == x;
        }
        crate::order::lemma_signed_datetime_total_on(kept_before.to_multiset());
    }
    sort_by(&mut kept, &compare);
    proof {
        lemma_sorted_keeps_timestamps(kept_before, kept@);
        assert forall|i: int, j: int| 0 <= i < j < kept@.len() implies (
        #[trigger] kept@[i]).metadata.date_time->0 <= (#[trigger] kept@[j]).metadata.date_time->0 by {
            assert(crate::order::rank_le(compare, kept@[i], kept@[j]));
        }
        assert(sorted_by_timestamp(kept@));
    }
    let ghost sorted_seq = kept@;
    let bs = group_by_key(kept, &opts.resolution);
    proof {
        crate::hist::lemma_buckets_members(bs@, sorted_seq, opts.resolution);
        assert(sorted_seq.to_multiset() == kept_before.to_multiset());
    }
    bs
}

/// Records in ascending timestamp order (all carrying one).
pub open spec fn sorted_by_timestamp(s: Seq<Image>) -> bool {
    forall|i: int, j: int|
        0 <= i < j < s.len() ==> (#[trigger] s[i]).metadata.date_time->0 <= (
        #[trigger] s[j]).metadata.date_time->0
}

/// A permutation of all-timestamped records is all timestamped.
proof fn lemma_sorted_keeps_timestamps(before: Seq<Image>, after: Seq<Image>)
    requires
        after.to_multiset() == before.to_multiset(),
        forall|i: int| 0 <= i < before.len() ==> (#[trigger] before[i]).metadata.date_time
            is Some,
    ensures
        forall|i: int| 0 <= i < after.len() ==> (#[trigger] after[i]).metadata.date_time is Some,
{
    broadcast use vstd::seq_lib::group_to_multiset_ensures;

    assert forall|i: int| 0 <= i < after.len() implies (#[trigger] after[i]).metadata.date_time
        is Some by {
        assert(after.contains(after[i]));
        assert(after.to_multiset().contains(after[i]));
        assert(before.to_multiset().contains(after[i]));
        assert(before.contains(after[i]));
        let w = choose|w: int| 0 <= w < before.len() && before[w] == after[i];
    }
}

/// Filtered records keep their well-formedness and all carry timestamps.
proof fn lemma_filter_keeps_wf_and_ts(
    s0: Seq<Image>,
    kept: Seq<Image>,
    pred: spec_fn(Image) -> bool,
)
    requires
        all_wf(s0),
        kept == s0.filter(pred),
        forall|m: Image| #[trigger] pred(m) == (m.metadata.date_time is Some),
    ensures
        forall|i: int| 0 <= i < kept.len() ==> (#[trigger] kept[i]).wf(),
        forall|i: int| 0 <= i < kept.len() ==> (#[trigger] kept[i]).metadata.date_time is Some,
        forall|i: int, j: int|
            0 <= i < kept.len() && 0 <= j < kept.len() ==> rank_defined(
                CompareFunction::Signed(
                    SignedDist { dist: crate::dist::DistanceFunctionVariants::DateTime },
                ),
                #[trigger] kept[i],
                #[trigger] kept[j],
            ),
{
    assert forall|i: int| 0 <= i < kept.len() implies (#[trigger] kept[i]).wf() && kept[i]
        .metadata.date_time is Some by {
        s0.lemma_filter_pred(pred, i);
        lemma_filter_subset(s0, pred, i);
        assert(s0.contains(kept[i]));
        let w = choose|w: int| 0 <= w < s0.len() && s0[w] == kept[i];
        assert(s0[w].wf());
    }
}

/// Every filtered record is one of the originals.
proof fn lemma_filter_subset(s: Seq<Image>, pred: spec_fn(Image) -> bool, i: int)
    requires
        0 <= i < s.filter(pred).len(),
    ensures
        s.contains(s.filter(pred)[i]),
    decreases s.len(),
{
    reveal(Seq::filter);
    if s.len() > 0 {
        let sub = s.drop_last();
        let x = s.filter(pred)[i];
        if pred(s.last()) && i == s.filter(pred).len() - 1 {
            assert(x == s.last());
            assert(s[s.len() - 1] == x);
        } else {
            lemma_filter_subset(sub, pred, i);
            let w = choose|w: int| 0 <= w < sub.len() && sub[w] == sub.filter(pred)[i];
            assert(s[w] == x);
        }
    }
}

} // verus!
