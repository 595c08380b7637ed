//! Row-first shelf packing of image records into atlas canvases.
//!
//! Records are walked in order and accumulated into rows while the running
//! width stays under the target row width; a row closes when the next
//! record would overflow it. Rows are stacked until the canvas height
//! budget is hit, which forces a new page.

use vstd::prelude::*;

use crate::img::Image;

verus! {

/// The rectangle assigned to one image inside one canvas.
#[derive(Debug)]
pub struct AtlasMapping {
    pub id: u128,
    pub width: u32,
    pub height: u32,
    pub x: u32,
    pub y: u32,
}

/// True when the two rectangles share no interior point.
pub open spec fn rects_disjoint(a: AtlasMapping, b: AtlasMapping) -> bool {
    a.x + a.width <= b.x || b.x + b.width <= a.x || a.y + a.height <= b.y || b.y + b.height
        <= a.y
}

/// Sum of the widths of `s[a..b]`.
pub open spec fn sum_width(s: Seq<Image>, a: int, b: int) -> int
    decreases b - a,
{
    if a >= b {
        0
    } else {
        sum_width(s, a, b - 1) + s[b - 1].width
    }
}

/// Sum of `width * height` over `s[a..b]`.
pub open spec fn sum_area(s: Seq<Image>, a: int, b: int) -> int
    decreases b - a,
{
    if a >= b {
        0
    } else {
        sum_area(s, a, b - 1) + s[b - 1].width * s[b - 1].height
    }
}

/// Largest height among `s[a..b]` (0 when the range is empty).
pub open spec fn max_height(s: Seq<Image>, a: int, b: int) -> int
    decreases b - a,
{
    if a >= b {
        0
    } else if s[b - 1].height >= max_height(s, a, b - 1) {
        s[b - 1].height as int
    } else {
        max_height(s, a, b - 1)
    }
}

/// Where the row that starts at `start` ends: the first element is always
/// taken, and each further element only while the running width plus its
/// own stays strictly under the target `row_width`.
pub open spec fn row_end(s: Seq<Image>, start: int, row_width: int) -> int
    decreases s.len() - start,
{
    if start >= s.len() {
        s.len() as int
    } else {
        row_end_from(s, start + 1, s[start].width as int, row_width)
    }
}

/// Helper for [`row_end`]: scans from `p` with `acc` width already used.
pub open spec fn row_end_from(s: Seq<Image>, p: int, acc: int, row_width: int) -> int
    decreases s.len() - p,
{
    if p < 0 || p >= s.len() {
        s.len() as int
    } else if acc + s[p].width < row_width {
        row_end_from(s, p + 1, acc + s[p].width, row_width)
    } else {
        p
    }
}

/// One packed row: records `meta[start..end]`, placed at vertical offset
/// `y`, with `width` the sum of member widths and `height` the tallest
/// member.
pub struct RowPlan {
    pub start: usize,
    pub end: usize,
    pub width: u32,
    pub height: u32,
    pub y: u32,
}

/// Sum of the heights of `rows[0..i]`.
pub open spec fn sum_row_heights(rows: Seq<RowPlan>, i: int) -> int
    decreases i,
{
    if i <= 0 {
        0
    } else {
        sum_row_heights(rows, i - 1) + rows[i - 1].height
    }
}

/// The rows of one canvas are a valid shelf plan for `s[from..]` under the
/// given row-width target and canvas side budget.
pub open spec fn rows_wf(
    rows: Seq<RowPlan>,
    s: Seq<Image>,
    from: int,
    row_width: int,
    max_size: int,
) -> bool {
    &&& (forall|i: int|
        0 <= i < rows.len() ==> (#[trigger] rows[i]).start < rows[i].end <= s.len())
    &&& (forall|i: int|
        0 <= i < rows.len() ==> (#[trigger] rows[i]).end == row_end(s, rows[i].start as int, row_width))
    &&& (forall|i: int|
        0 <= i < rows.len() ==> (#[trigger] rows[i]).width == sum_width(
            s,
            rows[i].start as int,
            rows[i].end as int,
        ))
    &&& (forall|i: int|
        0 <= i < rows.len() ==> (#[trigger] rows[i]).height == max_height(
            s,
            rows[i].start as int,
            rows[i].end as int,
        ))
    &&& (forall|i: int| 0 <= i < rows.len() ==> (#[trigger] rows[i]).y == sum_row_heights(rows, i))
    &&& (rows.len() > 0 ==> rows[0].start == from)
    &&& (forall|i: int|
        0 < i < rows.len() ==> (#[trigger] rows[i]).start == rows[i - 1].end)
    &&& sum_row_heights(rows, rows.len() as int) <= max_size
}

/// Index of the first record not covered by `rows` (i.e. `from` when no row
/// was packed).
pub open spec fn rows_covered_end(rows: Seq<RowPlan>, from: int) -> int {
    if rows.len() == 0 {
        from
    } else {
        rows[rows.len() - 1].end as int
    }
}

/// Integer square root: the largest `r` with `r * r <= n`.
pub fn isqrt_u64(n: u64) -> (r: u64)
    ensures
        r * r <= n,
        (r + 1) * (r + 1) > n,
{
    let mut lo: u64 = 0;
    let mut hi: u64 = 4294967296;
    // Invariant: lo*lo <= n < hi*hi; binary search on the answer.
    while lo + 1 < hi
        invariant
            lo < hi <= 4294967296,
            lo * lo <= n,
            hi * hi > n,
        decreases hi - lo,
    {
        let mid: u64 = lo + (hi - lo) / 2;
        assert(mid * mid <= 18446744065119617025u64) by (nonlinear_arith)
            requires
                mid <= 4294967295u64,
        ;
        if mid * mid <= n {
            lo = mid;
        } else {
            hi = mid;
        }
    }
    proof {
        assert((lo + 1) * (lo + 1) >= hi * hi) by (nonlinear_arith)
            requires
                lo + 1 >= hi,
                hi >= 0,
        ;
    }
    lo
}

/// A row's tallest member is at least any single member's height.
pub proof fn lemma_max_height_ge(s: Seq<Image>, a: int, b: int, k: int)
    requires
        a <= k < b,
    ensures
        max_height(s, a, b) >= s[k].height,
    decreases b - k,
{
    if k < b - 1 {
        lemma_max_height_ge(s, a, b - 1, k);
    }
}

/// When every member's height is bounded, so is the row's tallest.
pub proof fn lemma_max_height_le(s: Seq<Image>, a: int, b: int, bound: int)
    requires
        b <= s.len(),
        forall|k: int| a <= k < b ==> (#[trigger] s[k]).height <= bound,
        bound >= 0,
    ensures
        max_height(s, a, b) <= bound,
    decreases b - a,
{
    if a < b {
        lemma_max_height_le(s, a, b - 1, bound);
    }
}

/// A row always takes at least its first record and never runs past the end.
pub proof fn lemma_row_end_bounds(s: Seq<Image>, a: int, rw: int)
    requires
        0 <= a < s.len(),
    ensures
        a < row_end(s, a, rw) <= s.len(),
{
    lemma_row_end_from_bounds(s, a + 1, s[a].width as int, rw);
}

proof fn lemma_row_end_from_bounds(s: Seq<Image>, p: int, acc: int, rw: int)
    requires
        0 <= p <= s.len(),
    ensures
        p <= row_end_from(s, p, acc, rw) <= s.len(),
    decreases s.len() - p,
{
    if p < s.len() && acc + s[p].width < rw {
        lemma_row_end_from_bounds(s, p + 1, acc + s[p].width, rw);
    }
}

/// Computes the rows of one canvas for the records `meta[from..]`.
///
/// Returns `(rows, row_width, canvas_width, canvas_height)`. The canvas
/// height is the sum of the row heights and stays within `max_size`; the
/// canvas width is the row-width target grown to the widest row actually
/// used, so it is at least every row's used width.
#[verifier::rlimit(100)]
pub fn pack_rows(meta: &Vec<Image>, from: usize, max_size: u32) -> (r: (
    Vec<RowPlan>,
    u32,
    u32,
    u32,
))
    requires
        from <= meta@.len(),
        sum_area(meta@, from as int, meta@.len() as int) <= u64::MAX,
    ensures
        rows_wf(r.0@, meta@, from as int, r.1 as int, max_size as int),
        r.3 == sum_row_heights(r.0@, r.0@.len() as int),
        r.3 <= max_size,
        r.1 <= max_size,
        // The row-width target is the integer square root of the remaining
        // total area, clamped to the side budget; these clauses pin it.
        r.1 * r.1 <= sum_area(meta@, from as int, meta@.len() as int),
        r.1 < max_size ==> (r.1 + 1) * (r.1 + 1) > sum_area(meta@, from as int, meta@.len() as int),
        // The canvas width is the target grown to the widest row actually
        // used: never less than either, and equal to one of them.
        r.2 >= r.1,
        forall|i: int| 0 <= i < r.0@.len() ==> (#[trigger] r.0@[i]).width <= r.2,
        r.2 == r.1 || exists|i: int| 0 <= i < r.0@.len() && (#[trigger] r.0@[i]).width == r.2,
        rows_covered_end(r.0@, from as int) <= meta@.len(),
        // Progress: when records remain and every remaining height fits the
        // budget, at least one row is packed.
        meta@.len() > from && (forall|k: int|
            from <= k < meta@.len() ==> (#[trigger] meta@[k]).height <= max_size) ==> r.0@.len()
            > 0,
        // Page break rule: packing stopped early only because the next row
        // would overflow the canvas height budget.
        rows_covered_end(r.0@, from as int) < meta@.len() ==> r.3 + max_height(
            meta@,
            rows_covered_end(r.0@, from as int),
            row_end(meta@, rows_covered_end(r.0@, from as int), r.1 as int),
        ) > max_size,
{
    let len = meta.len();
    let mut area: u64 = 0;
    let mut t: usize = from;
    while t < len
        invariant
            from <= t <= len,
            len == meta@.len(),
            area == sum_area(meta@, from as int, t as int),
            sum_area(meta@, from as int, meta@.len() as int) <= u64::MAX,
        decreases len - t,
    {
        proof {
            lemma_sum_area_split(meta@, from as int, t as int, len as int);
            lemma_sum_area_split(meta@, t as int, t as int + 1, len as int);
            lemma_sum_area_nonneg(meta@, t as int + 1, len as int);
            assert(sum_area(meta@, t as int, t as int) == 0);
            assert(sum_area(meta@, t as int, t as int + 1) == meta@[t as int].width * meta@[
                t as int
            ].height);
        }
        let w64: u64 = meta[t].width as u64;
        let h64: u64 = meta[t].height as u64;
        assert(w64 * h64 == meta@[t as int].width * meta@[t as int].height) by (nonlinear_arith)
            requires
                w64 == meta@[t as int].width,
                h64 == meta@[t as int].height,
        ;
        assert(w64 * h64 >= 0) by (nonlinear_arith);
        area = area + w64 * h64;
        t += 1;
    }
    let root = isqrt_u64(area);
    proof {
        if root > 4294967295u64 {
            assert(root * root > 18446744073709551615u64) by (nonlinear_arith)
                requires
                    root >= 4294967296u64,
            ;
        }
    }
    let row_width: u32 = if (root as u32) < max_size {
        root as u32
    } else {
        max_size
    };
    proof {
        if (root as u32) >= max_size {
            assert((max_size as int) * (max_size as int) <= root * root) by (nonlinear_arith)
                requires
                    max_size <= root,
                    max_size >= 0,
            ;
        }
    }

    let mut rows: Vec<RowPlan> = Vec::new();
    let mut idx: usize = from;
    let mut buf_height: u32 = 0;
    let mut canvas_width: u32 = row_width;

    loop
        invariant
            from <= idx <= len,
            len == meta@.len(),
            row_width <= max_size,
            rows_wf(rows@, meta@, from as int, row_width as int, max_size as int),
            buf_height == sum_row_heights(rows@, rows@.len() as int),
            buf_height <= max_size,
            canvas_width >= row_width,
            forall|i: int| 0 <= i < rows@.len() ==> (#[trigger] rows@[i]).width <= canvas_width,
            canvas_width == row_width || exists|i: int|
                0 <= i < rows@.len() && (#[trigger] rows@[i]).width == canvas_width,
            idx == rows_covered_end(rows@, from as int),
        ensures
            from <= idx <= len,
            rows_wf(rows@, meta@, from as int, row_width as int, max_size as int),
            buf_height == sum_row_heights(rows@, rows@.len() as int),
            buf_height <= max_size,
            canvas_width >= row_width,
            forall|i: int| 0 <= i < rows@.len() ==> (#[trigger] rows@[i]).width <= canvas_width,
            canvas_width == row_width || exists|i: int|
                0 <= i < rows@.len() && (#[trigger] rows@[i]).width == canvas_width,
            idx == rows_covered_end(rows@, from as int),
            idx >= len || buf_height + max_height(
                meta@,
                idx as int,
                row_end(meta@, idx as int, row_width as int),
            ) > max_size,
        decreases len - idx,
    {
        if idx >= len {
            break;
        }
        // Scan the extent of the next row: the first record is always taken.
        let mut end: usize = idx + 1;
        let mut row_w: u64 = meta[idx].width as u64;
        let mut row_h: u32 = meta[idx].height;
        proof {
            assert(sum_width(meta@, idx as int, idx as int) == 0);
            assert(max_height(meta@, idx as int, idx as int) == 0);
        }
        while end < len && row_w + (meta[end].width as u64) < (row_width as u64)
            invariant
                idx < end <= len,
                len == meta@.len(),
                row_w == sum_width(meta@, idx as int, end as int),
                row_h == max_height(meta@, idx as int, end as int),
                row_end_from(meta@, end as int, row_w as int, row_width as int) == row_end(
                    meta@,
                    idx as int,
                    row_width as int,
                ),
                row_w <= u32::MAX,
            decreases len - end,
        {
            row_w = row_w + (meta[end].width as u64);
            row_h = if meta[end].height > row_h {
                meta[end].height
            } else {
                row_h
            };
            end += 1;
        }
        proof {
            assert(row_end_from(meta@, end as int, row_w as int, row_width as int) == end);
        }

        if buf_height as u64 + row_h as u64 > max_size as u64 {
            break;
        }

        let row = RowPlan { start: idx, end, width: row_w as u32, height: row_h, y: buf_height };
        proof {
            let new_rows = rows@.push(row);
            assert(sum_row_heights(new_rows, new_rows.len() as int) == sum_row_heights(
                rows@,
                rows@.len() as int,
            ) + row_h) by {
                lemma_sum_row_heights_push(rows@, row, rows@.len() as int);
            }
            assert forall|i: int| 0 <= i < new_rows.len() implies (#[trigger] new_rows[i]).y
                == sum_row_heights(new_rows, i) by {
                lemma_sum_row_heights_push(rows@, row, i);
            }
            assert(rows_wf(new_rows, meta@, from as int, row_width as int, max_size as int));
        }
        let ghost rows_before = rows@;
        rows.push(row);
        if row_w as u32 > canvas_width {
            canvas_width = row_w as u32;
        }
        proof {
            if canvas_width != row_width {
                if canvas_width == row.width {
                    assert(rows@[rows@.len() - 1].width == canvas_width);
                } else {
                    let w = choose|i: int|
                        0 <= i < rows_before.len() && (#[trigger] rows_before[i]).width
                            == canvas_width;
                    assert(rows@[w].width == canvas_width);
                }
            }
        }
        buf_height = buf_height + row_h;
        idx = end;
    }

    proof {
        if len > from && (forall|k: int|
            from <= k < meta@.len() ==> (#[trigger] meta@[k]).height <= max_size) && rows@.len()
            == 0 {
            // An empty plan means the very first row was refused, yet its
            // tallest member is bounded like every other height.
            lemma_row_end_bounds(meta@, from as int, row_width as int);
            lemma_max_height_le(
                meta@,
                from as int,
                row_end(meta@, from as int, row_width as int),
                max_size as int,
            );
        }
    }
    (rows, row_width, canvas_width, buf_height)
}

/// The placement at global index `k` sits in `row` exactly as the shelf
/// rule dictates: same id and size as the record, `x` the sum of the
/// widths before it in its row, `y` the row's vertical offset.
pub open spec fn placed_at(
    mapping: Seq<AtlasMapping>,
    s: Seq<Image>,
    row: RowPlan,
    from: int,
    k: int,
) -> bool {
    &&& 0 <= k - from < mapping.len()
    &&& mapping[k - from].id == s[k].id
    &&& mapping[k - from].width == s[k].width
    &&& mapping[k - from].height == s[k].height
    &&& mapping[k - from].x == sum_width(s, row.start as int, k)
    &&& mapping[k - from].y == row.y
}

/// The flat placement list realizes the row plan record for record.
pub open spec fn mapping_matches_rows(
    mapping: Seq<AtlasMapping>,
    rows: Seq<RowPlan>,
    s: Seq<Image>,
    from: int,
) -> bool {
    &&& mapping.len() == rows_covered_end(rows, from) - from
    &&& forall|i: int|
        #![trigger rows[i]]
        0 <= i < rows.len() ==> (forall|k: int|
            rows[i].start <= k < rows[i].end ==> placed_at(mapping, s, rows[i], from, k))
}

/// Row-height prefix sums never shrink as more rows are counted.
pub proof fn lemma_sum_row_heights_mono(rows: Seq<RowPlan>, i: int, j: int)
    requires
        0 <= i <= j <= rows.len(),
    ensures
        sum_row_heights(rows, i) <= sum_row_heights(rows, j),
    decreases j - i,
{
    if i < j {
        lemma_sum_row_heights_mono(rows, i, j - 1);
    }
}

/// Computes the placements of one canvas for the records `meta[from..]`.
///
/// Returns the placement list and the canvas `(width, height)`. Placements
/// cover a prefix of the remaining records in order; no two placements
/// overlap, every placement lies inside the canvas, and the canvas height
/// stays within `max_size`.
/// Emplaces the records of one row into the placement list, left to
/// right at vertical offset `row.y`.
fn emplace_row(
    meta: &Vec<Image>,
    from: usize,
    row: RowPlan,
    canvas_w: u32,
    mapping: &mut Vec<AtlasMapping>,
)
    requires
        from <= row.start < row.end <= meta@.len(),
        row.width == sum_width(meta@, row.start as int, row.end as int),
        row.width <= canvas_w,
        row.height == max_height(meta@, row.start as int, row.end as int),
        old(mapping)@.len() == row.start - from,
        forall|j: int|
            0 <= j < old(mapping)@.len() ==> (#[trigger] old(mapping)@[j]).y + old(
                mapping,
            )@[j].height <= row.y,
    ensures
        final(mapping)@.len() == row.end - from,
        forall|j: int| 0 <= j < old(mapping)@.len() ==> final(mapping)@[j] == old(mapping)@[j],
        forall|k: int|
            row.start <= k < row.end ==> placed_at(final(mapping)@, meta@, row, from as int, k),
        forall|j: int|
            old(mapping)@.len() <= j < final(mapping)@.len() ==> (#[trigger] final(mapping)@[j]).y
                == row.y && final(mapping)@[j].height <= row.height && final(mapping)@[j].x
                + final(mapping)@[j].width <= row.width,
        forall|j1: int, j2: int|
            old(mapping)@.len() <= j1 < j2 < final(mapping)@.len() ==> rects_disjoint(
                final(mapping)@[j1],
                final(mapping)@[j2],
            ),
        forall|j1: int, j2: int|
            0 <= j1 < old(mapping)@.len() <= j2 < final(mapping)@.len() ==> rects_disjoint(
                final(mapping)@[j1],
                final(mapping)@[j2],
            ),
{
    let ghost old_len = mapping@.len();
    let mut k: usize = row.start;
    let mut x: u32 = 0;
    proof {
        assert(sum_width(meta@, row.start as int, row.start as int) == 0);
        lemma_sum_width_nonneg(meta@, row.start as int, row.end as int);
    }
    while k < row.end
        invariant
            from <= row.start <= k <= row.end <= meta@.len(),
            row.width == sum_width(meta@, row.start as int, row.end as int),
            row.width <= canvas_w,
            row.height == max_height(meta@, row.start as int, row.end as int),
            x == sum_width(meta@, row.start as int, k as int),
            x <= row.width,
            old_len == row.start - from,
            mapping@.len() == k - from,
            forall|j: int| 0 <= j < old_len ==> mapping@[j] == old(mapping)@[j],
            forall|j: int|
                0 <= j < old_len ==> (#[trigger] mapping@[j]).y + mapping@[j].height <= row.y,
            forall|kk: int|
                row.start <= kk < k ==> placed_at(mapping@, meta@, row, from as int, kk),
            forall|j: int|
                old_len <= j < mapping@.len() ==> (#[trigger] mapping@[j]).y == row.y
                    && mapping@[j].height <= row.height && mapping@[j].x + mapping@[j].width
                    <= x,
        decreases row.end - k,
    {
        proof {
            // The next x stays within the row's used width.
            lemma_sum_width_split(meta@, row.start as int, k as int, row.end as int);
            lemma_sum_width_split(meta@, k as int, k as int + 1, row.end as int);
            lemma_sum_width_split(meta@, row.start as int, k as int, k as int + 1);
            lemma_sum_width_nonneg(meta@, k as int + 1, row.end as int);
            assert(sum_width(meta@, k as int, k as int) == 0);
            lemma_max_height_ge(meta@, row.start as int, row.end as int, k as int);
        }
        let m = AtlasMapping {
            id: meta[k].id,
            width: meta[k].width,
            height: meta[k].height,
            x,
            y: row.y,
        };
        let ghost prev = mapping@;
        mapping.push(m);
        proof {
            assert forall|kk: int| row.start <= kk < k + 1 implies placed_at(
                mapping@,
                meta@,
                row,
                from as int,
                kk,
            ) by {
                if kk < k {
                    assert(placed_at(prev, meta@, row, from as int, kk));
                    assert(mapping@[kk - from] == prev[kk - from]);
                }
            }
        }
        x = x + meta[k].width;
        k += 1;
    }
    proof {
        // Placements of this row never cross: each ends where the next
        // starts or later rows sit strictly below.
        assert forall|j1: int, j2: int|
            old_len <= j1 < j2 < mapping@.len() implies rects_disjoint(
            mapping@[j1],
            mapping@[j2],
        ) by {
            assert(placed_at(mapping@, meta@, row, from as int, from + j1));
            assert(placed_at(mapping@, meta@, row, from as int, from + j2));
            lemma_sum_width_split(meta@, row.start as int, from + j1 + 1, from + j2);
            lemma_sum_width_split(meta@, row.start as int, from + j1, from + j1 + 1);
            lemma_sum_width_nonneg(meta@, from + j1 + 1, from + j2);
            assert(sum_width(meta@, from + j1, from + j1 + 1) == meta@[from + j1].width) by {
                assert(sum_width(meta@, from + j1, from + j1) == 0);
            }
        }
    }
}

/// The returned page data realizes one fully pinned shelf plan: the
/// row-width target is the integer square root of the remaining total
/// area clamped to the side budget, the canvas height is the plan's
/// height sum, the canvas width is the target grown to the widest row
/// actually used, and packing stopped early only because the next row
/// would overflow the height budget. Together these determine the
/// placements uniquely from the input.
pub open spec fn atlas_page_plan(
    mapping: Seq<AtlasMapping>,
    size: (u32, u32),
    rows: Seq<RowPlan>,
    rw: u32,
    s: Seq<Image>,
    from: int,
    max_size: int,
) -> bool {
    &&& rows_wf(rows, s, from, rw as int, max_size)
    &&& mapping_matches_rows(mapping, rows, s, from)
    &&& size.1 == sum_row_heights(rows, rows.len() as int)
    &&& rw as int <= max_size
    &&& rw * rw <= sum_area(s, from, s.len() as int)
    &&& ((rw as int) < max_size ==> (rw + 1) * (rw + 1) > sum_area(s, from, s.len() as int))
    &&& (rows_covered_end(rows, from) < s.len() ==> size.1 + max_height(
        s,
        rows_covered_end(rows, from),
        row_end(s, rows_covered_end(rows, from), rw as int),
    ) > max_size)
    &&& size.0 >= rw
    &&& (forall|i: int| 0 <= i < rows.len() ==> (#[trigger] rows[i]).width <= size.0)
    &&& (size.0 == rw || exists|i: int|
        0 <= i < rows.len() && (#[trigger] rows[i]).width == size.0)
}

/// Computes the placements of one canvas for the records `meta[from..]`.
///
/// Returns the placement list and the canvas `(width, height)`. Placements
/// cover a prefix of the remaining records in order; no two placements
/// overlap, every placement lies inside the canvas, and the canvas height
/// stays within `max_size`.
#[verifier::rlimit(100)]
pub fn gen_atlas(meta: &Vec<Image>, from: usize, max_size: u32) -> (r: (
    Vec<AtlasMapping>,
    (u32, u32),
))
    requires
        from <= meta@.len(),
        sum_area(meta@, from as int, meta@.len() as int) <= u64::MAX,
    ensures
        r.0@.len() <= meta@.len() - from,
        forall|j: int|
            0 <= j < r.0@.len() ==> (#[trigger] r.0@[j]).id == meta@[from + j].id && r.0@[j].width
                == meta@[from + j].width && r.0@[j].height == meta@[from + j].height,
        forall|j1: int, j2: int|
            0 <= j1 < j2 < r.0@.len() ==> rects_disjoint(r.0@[j1], r.0@[j2]),
        forall|j: int|
            0 <= j < r.0@.len() ==> (#[trigger] r.0@[j]).x + r.0@[j].width <= r.1.0 && r.0@[j].y
                + r.0@[j].height <= r.1.1,
        r.1.1 <= max_size,
        meta@.len() > from && (forall|k: int|
            from <= k < meta@.len() ==> (#[trigger] meta@[k]).height <= max_size) ==> r.0@.len()
            > 0,
        exists|rows: Seq<RowPlan>, rw: u32|
            #[trigger] rows_wf(rows, meta@, from as int, rw as int, max_size as int)
                && mapping_matches_rows(r.0@, rows, meta@, from as int),
        exists|rows: Seq<RowPlan>, rw: u32|
            #![trigger rows_wf(rows, meta@, from as int, rw as int, max_size as int)]
            atlas_page_plan(r.0@, r.1, rows, rw, meta@, from as int, max_size as int),
{
    let (rows, row_width, canvas_w, canvas_h) = pack_rows(meta, from, max_size);

    let ghost rs = rows@;
    let mut mapping: Vec<AtlasMapping> = Vec::new();
    let mut i: usize = 0;

    while i < rows.len()
        invariant
            from <= meta@.len(),
            rows@ == rs,
            rows_wf(rs, meta@, from as int, row_width as int, max_size as int),
            canvas_h == sum_row_heights(rs, rs.len() as int),
            canvas_h <= max_size,
            forall|t: int| 0 <= t < rs.len() ==> (#[trigger] rs[t]).width <= canvas_w,
            0 <= i <= rs.len(),
            mapping@.len() == if i == 0 {
                0
            } else {
                rs[i - 1].end - from
            },
            mapping@.len() <= meta@.len() - from,
            forall|j: int|
                0 <= j < mapping@.len() ==> (#[trigger] mapping@[j]).id == meta@[from + j].id
                    && mapping@[j].width == meta@[from + j].width && mapping@[j].height == meta@[
                    from + j
                ].height,
            forall|j1: int, j2: int|
                0 <= j1 < j2 < mapping@.len() ==> rects_disjoint(mapping@[j1], mapping@[j2]),
            forall|j: int|
                0 <= j < mapping@.len() ==> (#[trigger] mapping@[j]).y + mapping@[j].height
                    <= sum_row_heights(rs, i as int),
            forall|j: int|
                0 <= j < mapping@.len() ==> (#[trigger] mapping@[j]).x + mapping@[j].width
                    <= canvas_w,
            forall|t: int|
                #![trigger rs[t]]
                0 <= t < i ==> (forall|k: int|
                    rs[t].start <= k < rs[t].end ==> placed_at(mapping@, meta@, rs[t], from as int, k)),
        decreases rows.len() - i,
    {
        let row = RowPlan {
            start: rows[i].start,
            end: rows[i].end,
            width: rows[i].width,
            height: rows[i].height,
            y: rows[i].y,
        };
        proof {
            assert(rs[i as int] == row);
            if i > 0 {
                lemma_rows_progress(rs, meta@, from as int, row_width as int, max_size as int, i - 1);
            }
            lemma_sum_row_heights_mono(rs, i as int + 1, rs.len() as int);
            // row.y equals the height packed so far.
            assert(row.y == sum_row_heights(rs, i as int));
        }
        let ghost pre = mapping@;
        emplace_row(meta, from, row, canvas_w, &mut mapping);
        proof {
            assert(sum_row_heights(rs, i as int + 1) == sum_row_heights(rs, i as int)
                + row.height);
            assert forall|j: int| 0 <= j < mapping@.len() implies (#[trigger] mapping@[j]).id
                == meta@[from + j].id && mapping@[j].width == meta@[from + j].width
                && mapping@[j].height == meta@[from + j].height by {
                if j < pre.len() {
                    assert(mapping@[j] == pre[j]);
                } else {
                    assert(placed_at(mapping@, meta@, row, from as int, from + j));
                }
            }
            // Rows already placed are untouched by the new row.
            assert forall|t: int|
                #![trigger rs[t]]
                0 <= t < i + 1 implies (forall|k: int|
                rs[t].start <= k < rs[t].end ==> placed_at(mapping@, meta@, rs[t], from as int, k)) by {
                if t < i {
                    assert forall|k: int| rs[t].start <= k < rs[t].end implies placed_at(
                        mapping@,
                        meta@,
                        rs[t],
                        from as int,
                        k,
                    ) by {
                        lemma_rows_progress(rs, meta@, from as int, row_width as int, max_size as int, t);
                        assert(placed_at(pre, meta@, rs[t], from as int, k));
                        assert(rs[t].end <= row.start) by {
                            lemma_rows_end_chain(rs, t, i as int);
                        }
                    }
                }
            }
        }
        i += 1;
    }

    proof {
        if rs.len() > 0 {
            lemma_rows_progress(rs, meta@, from as int, row_width as int, max_size as int, rs.len() - 1);
        }
        assert(mapping_matches_rows(mapping@, rs, meta@, from as int));
        assert(atlas_page_plan(
            mapping@,
            (canvas_w, canvas_h),
            rs,
            row_width,
            meta@,
            from as int,
            max_size as int,
        ));
    }
    (mapping, (canvas_w, canvas_h))
}

/// Earlier rows end no later than later rows start.
pub proof fn lemma_rows_end_chain(rows: Seq<RowPlan>, t: int, i: int)
    requires
        0 <= t < i < rows.len(),
        forall|p: int| 0 < p < rows.len() ==> (#[trigger] rows[p]).start == rows[p - 1].end,
        forall|p: int| 0 <= p < rows.len() ==> (#[trigger] rows[p]).start < rows[p].end,
    ensures
        rows[t].end <= rows[i].start,
    decreases i - t,
{
    if t + 1 < i {
        lemma_rows_end_chain(rows, t + 1, i);
    }
}

/// Every packed row reaches past the starting index: packing makes
/// progress record by record.
pub proof fn lemma_rows_progress(
    rows: Seq<RowPlan>,
    s: Seq<Image>,
    from: int,
    rw: int,
    max: int,
    t: int,
)
    requires
        rows_wf(rows, s, from, rw, max),
        0 <= t < rows.len(),
    ensures
        rows[t].end > from,
        rows[t].start >= from,
    decreases t,
{
    if t > 0 {
        lemma_rows_progress(rows, s, from, rw, max, t - 1);
    }
}

/// Prefix sums of row heights are unchanged by appending a row.
proof fn lemma_sum_row_heights_push(rows: Seq<RowPlan>, row: RowPlan, i: int)
    requires
        0 <= i <= rows.len() + 1,
    ensures
        i <= rows.len() ==> sum_row_heights(rows.push(row), i) == sum_row_heights(rows, i),
        i == rows.len() + 1 ==> sum_row_heights(rows.push(row), i) == sum_row_heights(
            rows,
            rows.len() as int,
        ) + row.height,
    decreases i,
{
    if i > 0 {
        lemma_sum_row_heights_push(rows, row, i - 1);
    }
}

/// Area sums split across a midpoint.
pub proof fn lemma_sum_area_split(s: Seq<Image>, a: int, m: int, b: int)
    requires
        a <= m <= b,
    ensures
        sum_area(s, a, b) == sum_area(s, a, m) + sum_area(s, m, b),
    decreases b - m,
{
    if m < b {
        lemma_sum_area_split(s, a, m, b - 1);
    }
}

/// Area sums are never negative.
pub proof fn lemma_sum_area_nonneg(s: Seq<Image>, a: int, b: int)
    ensures
        sum_area(s, a, b) >= 0,
    decreases b - a,
{
    if a < b {
        lemma_sum_area_nonneg(s, a, b - 1);
        assert(s[b - 1].width * s[b - 1].height >= 0) by (nonlinear_arith);
    }
}

/// Width sums split across a midpoint.
pub proof fn lemma_sum_width_split(s: Seq<Image>, a: int, m: int, b: int)
    requires
        a <= m <= b,
    ensures
        sum_width(s, a, b) == sum_width(s, a, m) + sum_width(s, m, b),
    decreases b - m,
{
    if m < b {
        lemma_sum_width_split(s, a, m, b - 1);
    }
}

/// Width sums are never negative.
pub proof fn lemma_sum_width_nonneg(s: Seq<Image>, a: int, b: int)
    ensures
        sum_width(s, a, b) >= 0,
    decreases b - a,
{
    if a < b {
        lemma_sum_width_nonneg(s, a, b - 1);
    }
}

/// One atlas page: the placements of one canvas and its dimensions.
#[derive(Debug)]
pub struct AtlasPage {
    pub mapping: Vec<AtlasMapping>,
    pub width: u32,
    pub height: u32,
}

/// Number of records covered by the first `p` pages.
pub open spec fn pages_prefix_len(pages: Seq<AtlasPage>, p: int) -> int
    decreases p,
{
    if p <= 0 {
        0
    } else {
        pages_prefix_len(pages, p - 1) + pages[p - 1].mapping@.len()
    }
}

/// One page is a sound canvas for the records starting at `off`: placements
/// mirror the records in order, never overlap, stay inside the canvas, and
/// the canvas height respects the side budget.
pub open spec fn page_wf(page: AtlasPage, s: Seq<Image>, off: int, max_size: int) -> bool {
    &&& page.mapping@.len() >= 1
    &&& off + page.mapping@.len() <= s.len()
    &&& (forall|j: int|
        0 <= j < page.mapping@.len() ==> (#[trigger] page.mapping@[j]).id == s[off + j].id
            && page.mapping@[j].width == s[off + j].width && page.mapping@[j].height == s[off
            + j].height)
    &&& (forall|j1: int, j2: int|
        0 <= j1 < j2 < page.mapping@.len() ==> rects_disjoint(
            page.mapping@[j1],
            page.mapping@[j2],
        ))
    &&& (forall|j: int|
        0 <= j < page.mapping@.len() ==> (#[trigger] page.mapping@[j]).x + page.mapping@[j].width
            <= page.width && page.mapping@[j].y + page.mapping@[j].height <= page.height)
    &&& page.height <= max_size
    &&& (exists|rows: Seq<RowPlan>, rw: u32|
        #![trigger rows_wf(rows, s, off, rw as int, max_size)]
        atlas_page_plan(
            page.mapping@,
            (page.width, page.height),
            rows,
            rw,
            s,
            off,
            max_size,
        ))
}

/// Page prefix lengths are unchanged by appending a page.
proof fn lemma_pages_prefix_push(pages: Seq<AtlasPage>, page: AtlasPage, p: int)
    requires
        0 <= p <= pages.len() + 1,
    ensures
        p <= pages.len() ==> pages_prefix_len(pages.push(page), p) == pages_prefix_len(pages, p),
        p == pages.len() + 1 ==> pages_prefix_len(pages.push(page), p) == pages_prefix_len(
            pages,
            pages.len() as int,
        ) + page.mapping@.len(),
    decreases p,
{
    if p > 0 {
        lemma_pages_prefix_push(pages, page, p - 1);
    }
}

/// Packs the whole record list into as many canvases as the side budget
/// demands. Every record lands on exactly one page, pages cover the list
/// in order, and each page is a sound canvas.
pub fn pack_all(meta: &Vec<Image>, max_size: u32) -> (pages: Vec<AtlasPage>)
    requires
        sum_area(meta@, 0, meta@.len() as int) <= u64::MAX,
        forall|k: int| 0 <= k < meta@.len() ==> (#[trigger] meta@[k]).height <= max_size,
    ensures
        pages_prefix_len(pages@, pages@.len() as int) == meta@.len(),
        forall|p: int|
            0 <= p < pages@.len() ==> page_wf(
                #[trigger] pages@[p],
                meta@,
                pages_prefix_len(pages@, p),
                max_size as int,
            ),
{
    let mut pages: Vec<AtlasPage> = Vec::new();
    let mut offset: usize = 0;

    while offset < meta.len()
        invariant
            0 <= offset <= meta@.len(),
            sum_area(meta@, 0, meta@.len() as int) <= u64::MAX,
            forall|k: int| 0 <= k < meta@.len() ==> (#[trigger] meta@[k]).height <= max_size,
            pages_prefix_len(pages@, pages@.len() as int) == offset,
            forall|p: int|
                0 <= p < pages@.len() ==> page_wf(
                    #[trigger] pages@[p],
                    meta@,
                    pages_prefix_len(pages@, p),
                    max_size as int,
                ),
        decreases meta@.len() - offset,
    {
        proof {
            lemma_sum_area_split(meta@, 0, offset as int, meta@.len() as int);
            lemma_sum_area_nonneg(meta@, 0, offset as int);
        }
        let (mapping, (w, h)) = gen_atlas(meta, offset, max_size);
        let ghost n = mapping@.len();
        let page = AtlasPage { mapping, width: w, height: h };
        proof {
            assert(page_wf(page, meta@, offset as int, max_size as int));
            let gp = pages@.push(page);
            lemma_pages_prefix_push(pages@, page, pages@.len() as int + 1);
            assert forall|p: int| 0 <= p < gp.len() implies page_wf(
                #[trigger] gp[p],
                meta@,
                pages_prefix_len(gp, p),
                max_size as int,
            ) by {
                lemma_pages_prefix_push(pages@, page, p);
            }
        }
        let added = page.mapping.len();
        pages.push(page);
        offset = offset + added;
    }
    pages
}

/// Area sums agree on ranges where the sequences agree element by
/// element.
pub proof fn lemma_sum_area_congruent(s1: Seq<Image>, s2: Seq<Image>, a: int, b: int)
    requires
        forall|k: int| a <= k < b ==> s1[k] == s2[k],
    ensures
        sum_area(s1, a, b) == sum_area(s2, a, b),
    decreases b - a,
{
    if a < b {
        lemma_sum_area_congruent(s1, s2, a, b - 1);
    }
}

/// Area sums shift with an index offset between matching sequences.
pub proof fn lemma_sum_area_shifted(s1: Seq<Image>, s2: Seq<Image>, a: int, b: int, d: int)
    requires
        forall|k: int| a <= k < b ==> s1[k] == s2[k + d],
    ensures
        sum_area(s1, a, b) == sum_area(s2, a + d, b + d),
    decreases b - a,
{
    if a < b {
        lemma_sum_area_shifted(s1, s2, a, b - 1, d);
    }
}

/// Removing one record subtracts exactly its area.
pub proof fn lemma_sum_area_remove(s: Seq<Image>, j: int)
    requires
        0 <= j < s.len(),
    ensures
        sum_area(s.remove(j), 0, s.len() - 1) == sum_area(s, 0, s.len() as int) - s[j].width
            * s[j].height,
{
    let t = s.remove(j);
    lemma_sum_area_split(s, 0, j, s.len() as int);
    lemma_sum_area_split(s, j, j + 1, s.len() as int);
    lemma_sum_area_split(t, 0, j, s.len() - 1);
    assert(sum_area(s, j, j) == 0);
    lemma_sum_area_congruent(t, s, 0, j);
    lemma_sum_area_shifted(t, s, j, s.len() - 1, 1);
}

/// Total area is invariant under permutation: two lists with the same
/// records have the same area, whatever the order.
pub proof fn lemma_sum_area_permutation(s1: Seq<Image>, s2: Seq<Image>)
    requires
        s1.to_multiset() == s2.to_multiset(),
    ensures
        sum_area(s1, 0, s1.len() as int) == sum_area(s2, 0, s2.len() as int),
    decreases s1.len(),
{
    broadcast use vstd::seq_lib::group_to_multiset_ensures;

    if s1.len() == 0 {
        assert(s1.to_multiset().len() == 0);
        assert(s2.to_multiset().len() == 0);
        assert(s2.len() == 0);
    } else {
        let n = s1.len() as int;
        let x = s1[n - 1];
        assert(s1.to_multiset().contains(x));
        assert(s2.to_multiset().contains(x));
        assert(s2.contains(x));
        let j = choose|j: int| 0 <= j < s2.len() && s2[j] == x;
        let t1 = s1.remove(n - 1);
        let t2 = s2.remove(j);
        assert(t1.to_multiset() =~= s1.to_multiset().remove(x));
        assert(t2.to_multiset() =~= s2.to_multiset().remove(x));
        lemma_sum_area_permutation(t1, t2);
        lemma_sum_area_remove(s1, n - 1);
        lemma_sum_area_remove(s2, j);
    }
}

/// Computes the total area, refusing an accumulation that would leave
/// the machine range: the checked front door of the packers.
pub fn total_area_checked(meta: &Vec<Image>) -> (r: Option<u64>)
    ensures
        r is Some <==> sum_area(meta@, 0, meta@.len() as int) <= u64::MAX,
        r is Some ==> r->0 == sum_area(meta@, 0, meta@.len() as int),
{
    let n = meta.len();
    let mut area: u64 = 0;
    let mut t: usize = 0;
    while t < n
        invariant
            t <= n,
            n == meta@.len(),
            area == sum_area(meta@, 0, t as int),
        decreases n - t,
    {
        proof {
            lemma_sum_area_split(meta@, 0, t as int, n as int);
            lemma_sum_area_split(meta@, t as int, t as int + 1, n as int);
            lemma_sum_area_nonneg(meta@, t as int + 1, n as int);
            lemma_sum_area_nonneg(meta@, 0, t as int);
            assert(sum_area(meta@, t as int, t as int) == 0);
        }
        let w64: u64 = meta[t].width as u64;
        let h64: u64 = meta[t].height as u64;
        assert(w64 * h64 == meta@[t as int].width * meta@[t as int].height) by (nonlinear_arith)
            requires
                w64 == meta@[t as int].width,
                h64 == meta@[t as int].height,
        ;
        assert(w64 * h64 <= 0xFFFFFFFE00000001u64) by (nonlinear_arith)
            requires
                w64 <= 0xFFFFFFFFu64,
                h64 <= 0xFFFFFFFFu64,
        ;
        let wh: u64 = w64 * h64;
        if area > u64::MAX - wh {
            return None;
        }
        area = area + wh;
        t += 1;
    }
    proof {
        lemma_sum_area_split(meta@, 0, n as int, n as int);
    }
    Some(area)
}

} // verus!
