//! Spiral-expansion placement of an ordered record list on a square grid.
//!
//! The grid side is the smallest odd integer at least the ceiling of the
//! square root of the record count, keeping a well-defined center cell.
//! Candidate cells come from an anchor-dependent quadrant and are taken in
//! ascending grid-distance order from the origin; the k-th record lands on
//! the k-th cell. Unfilled cells stay empty.

use vstd::prelude::*;

use crate::img::{Image, UuidString};
use crate::order::{CompareFunctionVariants, le_total_on_any, lemma_insertion_step, lemma_remove_insert_multiset};
use crate::pack::isqrt_u64;

verus! {

/// Corner or center the expansion grows from.
pub enum Anchor {
    TopLeft,
    TopRight,
    BottomLeft,
    BottomRight,
    Center,
}

/// Grid distance ordering the candidate cells: Manhattan, the octagonal
/// approximation (the smaller offset weighted 1.4 against 1.0, kept here
/// as the order-equivalent integer weights 14 and 10), or Euclidean
/// (compared by its square).
pub enum GridDistanceFunction {
    Manhattan,
    PseudoPythegorean,
    Pythegorean,
}

/// Options of an expansion-grid request.
pub struct ExpansionGridOptions {
    pub anchor: Option<Anchor>,
    pub grid_dist: Option<GridDistanceFunction>,
    pub compare: CompareFunctionVariants,
}

/// One candidate cell, by its signed quadrant coordinates.
pub struct PosCell {
    pub i: i64,
    pub j: i64,
}

/// The integer cost a cell is ordered by. Each variant is a strictly
/// monotone image of its real-valued counterpart, so the induced cell
/// order is the same.
pub open spec fn cell_cost(f: GridDistanceFunction, i: int, j: int) -> int {
    let ai = if i < 0 {
        -i
    } else {
        i
    };
    let aj = if j < 0 {
        -j
    } else {
        j
    };
    match f {
        GridDistanceFunction::Manhattan => ai + aj,
        GridDistanceFunction::PseudoPythegorean => if ai <= aj {
            14 * ai + 10 * (aj - ai)
        } else {
            14 * aj + 10 * (ai - aj)
        },
        GridDistanceFunction::Pythegorean => i * i + j * j,
    }
}

/// The anchor a request resolves to: the named one, or the center.
pub open spec fn resolved_anchor(o: ExpansionGridOptions) -> Anchor {
    match o.anchor {
        Some(Anchor::TopLeft) => Anchor::TopLeft,
        Some(Anchor::TopRight) => Anchor::TopRight,
        Some(Anchor::BottomLeft) => Anchor::BottomLeft,
        Some(Anchor::BottomRight) => Anchor::BottomRight,
        _ => Anchor::Center,
    }
}

/// The grid-distance function a request resolves to: the named one, or
/// Euclidean.
pub open spec fn resolved_grid_dist(o: ExpansionGridOptions) -> GridDistanceFunction {
    match o.grid_dist {
        Some(GridDistanceFunction::Manhattan) => GridDistanceFunction::Manhattan,
        Some(GridDistanceFunction::PseudoPythegorean) => GridDistanceFunction::PseudoPythegorean,
        _ => GridDistanceFunction::Pythegorean,
    }
}

/// Signed row origin of the anchor's candidate quadrant on a grid of
/// side `a`. The top-right anchor has always shared the top-left
/// quadrant; kept as is rather than reinterpreted.
pub open spec fn quadrant_i0(anchor: Anchor, a: int) -> int {
    match anchor {
        Anchor::BottomLeft => 0,
        Anchor::BottomRight => 0,
        Anchor::TopLeft => -a,
        Anchor::TopRight => -a,
        Anchor::Center => -(a / 2),
    }
}

/// Signed column origin of the anchor's candidate quadrant.
pub open spec fn quadrant_j0(anchor: Anchor, a: int) -> int {
    match anchor {
        Anchor::BottomLeft => 0,
        Anchor::BottomRight => -a,
        Anchor::TopLeft => 0,
        Anchor::TopRight => 0,
        Anchor::Center => -(a / 2),
    }
}

/// Side length of the anchor's candidate quadrant.
pub open spec fn quadrant_side(anchor: Anchor, a: int) -> int {
    match anchor {
        Anchor::Center => a - 1,
        _ => a,
    }
}

/// The candidate cell list of one request: every cell of the anchor's
/// quadrant exactly once, in ascending [`cell_cost`] order.
pub open spec fn cells_wf(
    cells: Seq<PosCell>,
    anchor: Anchor,
    f: GridDistanceFunction,
    a: int,
) -> bool {
    let i0 = quadrant_i0(anchor, a);
    let j0 = quadrant_j0(anchor, a);
    let la = quadrant_side(anchor, a);
    &&& cells.len() == la * la
    &&& (forall|p: int|
        0 <= p < cells.len() ==> i0 <= (#[trigger] cells[p]).i < i0 + la && j0 <= cells[p].j < j0
            + la)
    &&& (forall|p: int, q: int|
        0 <= p < cells.len() && 0 <= q < cells.len() && p != q ==> !((#[trigger] cells[p]).i == (
        #[trigger] cells[q]).i && cells[p].j == cells[q].j))
    &&& (forall|p: int, q: int|
        0 <= p < q < cells.len() ==> cell_cost(f, (#[trigger] cells[p]).i as int, cells[p].j as int)
            <= cell_cost(f, (#[trigger] cells[q]).i as int, cells[q].j as int))
}

/// The grid holds exactly the first `min(record count, candidate count)`
/// records, the k-th on the k-th candidate cell, and nothing else.
pub open spec fn grid_filled(
    g: Seq<Vec<Option<UuidString>>>,
    s: Seq<Image>,
    cells: Seq<PosCell>,
    i0: int,
    j0: int,
) -> bool {
    let count: int = if s.len() <= cells.len() {
        s.len() as int
    } else {
        cells.len() as int
    };
    &&& (forall|k: int|
        0 <= k < count ==> g[(#[trigger] cells[k]).i - i0]@[cells[k].j - j0] == Some(
            UuidString(s[k].id),
        ))
    &&& (forall|gi: int, gj: int|
        #![trigger g[gi]@[gj]]
        0 <= gi < g.len() && 0 <= gj < g[gi]@.len() && g[gi]@[gj] is Some ==> exists|k: int|
            0 <= k < count && (#[trigger] cells[k]).i == gi + i0 && cells[k].j == gj + j0)
}

/// Computes [`cell_cost`] of one cell.
pub fn cell_cost_of(f: &GridDistanceFunction, i: i64, j: i64) -> (r: u64)
    requires
        -100000 <= i <= 100000,
        -100000 <= j <= 100000,
    ensures
        r == cell_cost(*f, i as int, j as int),
{
    let ai: u64 = if i < 0 {
        (-(i as i128)) as u64
    } else {
        i as u64
    };
    let aj: u64 = if j < 0 {
        (-(j as i128)) as u64
    } else {
        j as u64
    };
    match f {
        GridDistanceFunction::Manhattan => ai + aj,
        GridDistanceFunction::PseudoPythegorean => {
            if ai <= aj {
                14 * ai + 10 * (aj - ai)
            } else {
                14 * aj + 10 * (ai - aj)
            }
        },
        GridDistanceFunction::Pythegorean => {
            proof {
                assert(ai * ai + aj * aj == i * i + j * j) by (nonlinear_arith)
                    requires
                        ai == (if i < 0 {
                            -(i as int)
                        } else {
                            i as int
                        }),
                        aj == (if j < 0 {
                            -(j as int)
                        } else {
                            j as int
                        }),
                ;
                assert(ai * ai <= 10000000000u64 && aj * aj <= 10000000000u64)
                    by (nonlinear_arith)
                    requires
                        ai <= 100000,
                        aj <= 100000,
                ;
            }
            ai * ai + aj * aj
        },
    }
}

/// Sorts candidate cells ascending by their cost.
fn sort_cells(cells: &mut Vec<PosCell>, f: &GridDistanceFunction)
    requires
        forall|p: int|
            0 <= p < old(cells)@.len() ==> -100000 <= (#[trigger] old(cells)@[p]).i <= 100000
                && -100000 <= old(cells)@[p].j <= 100000,
    ensures
        final(cells)@.to_multiset() == old(cells)@.to_multiset(),
        final(cells)@.len() == old(cells)@.len(),
        forall|p: int, q: int|
            0 <= p < q < final(cells)@.len() ==> cell_cost(
                *f,
                (#[trigger] final(cells)@[p]).i as int,
                final(cells)@[p].j as int,
            ) <= cell_cost(*f, (#[trigger] final(cells)@[q]).i as int, final(cells)@[q].j as int),
{
    let ghost leq = |a: PosCell, b: PosCell|
        cell_cost(*f, a.i as int, a.j as int) <= cell_cost(*f, b.i as int, b.j as int);
    let ghost s0 = cells@;
    proof {
        broadcast use vstd::seq_lib::group_to_multiset_ensures;

    }
    let n = cells.len();
    if n <= 1 {
        return ;
    }
    let mut i: usize = 1;
    while i < n
        invariant
            1 <= i <= n,
            n == cells@.len(),
            cells@.to_multiset() == s0.to_multiset(),
            cells@.len() == s0.len(),
            forall|p: int|
                0 <= p < cells@.len() ==> -100000 <= (#[trigger] cells@[p]).i <= 100000 && -100000
                    <= cells@[p].j <= 100000,
            vstd::relations::sorted_by(cells@.subrange(0, i as int), leq),
            leq == (|a: PosCell, b: PosCell|
                cell_cost(*f, a.i as int, a.j as int) <= cell_cost(*f, b.i as int, b.j as int)),
        decreases n - i,
    {
        let ghost before = cells@;
        let x = PosCell { i: cells[i].i, j: cells[i].j };
        proof {
            assert(x == before[i as int]);
        }
        let _ = cells.remove(i);
        let cx = cell_cost_of(f, x.i, x.j);
        let mut j: usize = i;
        loop
            invariant
                0 <= j <= i < before.len(),
                before.len() == n,
                cells@ == before.remove(i as int),
                x == before[i as int],
                cx == cell_cost(*f, x.i as int, x.j as int),
                forall|p: int|
                    0 <= p < before.len() ==> -100000 <= (#[trigger] before[p]).i <= 100000
                        && -100000 <= before[p].j <= 100000,
                forall|p: int|
                    j <= p < i ==> cell_cost(*f, (#[trigger] cells@[p]).i as int, cells@[p].j as int)
                        > cx,
            ensures
                0 <= j <= i,
                cells@ == before.remove(i as int),
                forall|p: int|
                    j <= p < i ==> cell_cost(*f, (#[trigger] cells@[p]).i as int, cells@[p].j as int)
                        > cx,
                j > 0 ==> cell_cost(*f, cells@[j - 1].i as int, cells@[j - 1].j as int) <= cx,
            decreases j,
        {
            if j == 0 {
                break ;
            }
            let c = cell_cost_of(f, cells[j - 1].i, cells[j - 1].j);
            if c > cx {
                j -= 1;
            } else {
                break ;
            }
        }
        let ghost pre = cells@;
        cells.insert(j, x);
        proof {
            lemma_remove_insert_multiset(before, i as int, j as int);
            assert(le_total_on_any(leq, pre.to_multiset().insert(x)));
            assert(pre.subrange(0, i as int) =~= before.subrange(0, i as int));
            assert forall|p: int| j <= p < i implies !#[trigger] leq(pre[p], x) by {
                assert(cell_cost(*f, pre[p].i as int, pre[p].j as int) > cx);
            }
            lemma_insertion_step(pre, x, leq, i as int, j as int);
            assert(cells@.subrange(0, i as int + 1) == pre.insert(j as int, x).subrange(
                0,
                i as int + 1,
            ));
            assert forall|p: int|
                0 <= p < cells@.len() implies -100000 <= (#[trigger] cells@[p]).i <= 100000
                && -100000 <= cells@[p].j <= 100000 by {
                broadcast use vstd::seq_lib::group_to_multiset_ensures;

                assert(cells@.contains(cells@[p]));
                assert(cells@.to_multiset().contains(cells@[p]));
                assert(before.to_multiset().contains(cells@[p]));
                assert(before.contains(cells@[p]));
                let w = choose|w: int| 0 <= w < before.len() && before[w] == cells@[p];
            }
        }
        i += 1;
    }
    proof {
        assert(cells@.subrange(0, n as int) =~= cells@);
        assert forall|p: int, q: int| 0 <= p < q < cells@.len() implies cell_cost(
            *f,
            (#[trigger] cells@[p]).i as int,
            cells@[p].j as int,
        ) <= cell_cost(*f, (#[trigger] cells@[q]).i as int, cells@[q].j as int) by {
            assert(leq(cells@.subrange(0, n as int)[p], cells@.subrange(0, n as int)[q]));
        }
    }
}

/// Places the (already ordered) records on the expansion grid.
///
/// The grid is square with the smallest odd side whose square holds all
/// records; the first `min(record count, quadrant cells)` records land
/// one per candidate cell, the k-th record on the k-th cell in ascending
/// cost order, and every other cell stays empty.
/// Builds the candidate cells of one quadrant, every cell exactly once,
/// sorted ascending by cost.
#[verifier::rlimit(100)]
fn expansion_cells(gdf: &GridDistanceFunction, a: usize, la: usize, sa: i64, sb: i64) -> (cells:
    Vec<PosCell>)
    requires
        1 <= a <= 44724,
        la <= a,
        -(a as int) <= sa <= 0,
        -(a as int) <= sb <= 0,
    ensures
        cells@.len() == la * la,
        forall|p: int|
            0 <= p < cells@.len() ==> sa <= (#[trigger] cells@[p]).i < sa + (la as int) && sb
                <= cells@[p].j < sb + (la as int),
        forall|p: int, q: int|
            0 <= p < cells@.len() && 0 <= q < cells@.len() && p != q ==> cells@[p] != cells@[q],
        forall|p: int, q: int|
            0 <= p < q < cells@.len() ==> cell_cost(
                *gdf,
                (#[trigger] cells@[p]).i as int,
                cells@[p].j as int,
            ) <= cell_cost(*gdf, (#[trigger] cells@[q]).i as int, cells@[q].j as int),
{
    let lb: usize = la;
    let mut cells: Vec<PosCell> = Vec::new();
    let mut ci: usize = 0;
    while ci < la
        invariant
            0 <= ci <= la,
            la <= a <= 44724,
            -(a as int) <= sa <= 0,
            -(a as int) <= sb <= 0,
            cells@.len() == ci * lb,
            lb == la,
            forall|p: int|
                0 <= p < cells@.len() ==> sa <= (#[trigger] cells@[p]).i < sa + la && sb
                    <= cells@[p].j < sb + lb,
            forall|p: int|
                0 <= p < cells@.len() ==> (#[trigger] cells@[p]).i == sa + p / (lb as int)
                    && cells@[p].j == sb + p % (lb as int),
        decreases la - ci,
    {
        let mut cj: usize = 0;
        while cj < lb
            invariant
                0 <= cj <= lb,
                0 <= ci < la,
                la <= a <= 44724,
                lb == la,
                -(a as int) <= sa <= 0,
                -(a as int) <= sb <= 0,
                cells@.len() == ci * lb + cj,
                forall|p: int|
                    0 <= p < cells@.len() ==> sa <= (#[trigger] cells@[p]).i < sa + la && sb
                        <= cells@[p].j < sb + lb,
                forall|p: int|
                    0 <= p < cells@.len() ==> (#[trigger] cells@[p]).i == sa + p / (lb as int)
                        && cells@[p].j == sb + p % (lb as int),
            decreases lb - cj,
        {
            proof {
                vstd::arithmetic::div_mod::lemma_fundamental_div_mod_converse(
                    (ci * lb + cj) as int,
                    lb as int,
                    ci as int,
                    cj as int,
                );
            }
            cells.push(PosCell { i: sa + ci as i64, j: sb + cj as i64 });
            cj += 1;
        }
        proof {
            assert((ci + 1) * lb == ci * lb + lb) by (nonlinear_arith);
        }
        ci += 1;
    }

    proof {
        // The generation order pins each cell to its index, so no cell
        // appears twice.
        assert forall|p: int, q: int|
            0 <= p < cells@.len() && 0 <= q < cells@.len() && p != q implies cells@[p]
            != cells@[q] by {
            assert(lb >= 1);
            if cells@[p].i == cells@[q].i && cells@[p].j == cells@[q].j {
                vstd::arithmetic::div_mod::lemma_fundamental_div_mod(p, lb as int);
                vstd::arithmetic::div_mod::lemma_fundamental_div_mod(q, lb as int);
                assert(false);
            }
        }
        assert(cells@.no_duplicates());
    }
    let ghost before_sort = cells@;
    sort_cells(&mut cells, gdf);
    proof {
        broadcast use vstd::seq_lib::group_to_multiset_ensures;

        assert forall|p: int|
            0 <= p < cells@.len() implies sa <= (#[trigger] cells@[p]).i < sa + (la as int) && sb
            <= cells@[p].j < sb + (la as int) by {
            assert(cells@.contains(cells@[p]));
            assert(cells@.to_multiset().contains(cells@[p]));
            assert(before_sort.to_multiset().contains(cells@[p]));
            assert(before_sort.contains(cells@[p]));
            let w = choose|w: int| 0 <= w < before_sort.len() && before_sort[w] == cells@[p];
        }
        // A permutation of a duplicate-free list is duplicate free.
        before_sort.lemma_multiset_has_no_duplicates();
        cells@.lemma_multiset_has_no_duplicates_conv();
        assert(cells@.no_duplicates());
    }
    cells
}

/// The grid side for `n` records: the smallest odd integer whose square
/// holds them all.
fn grid_side(n: usize) -> (a: usize)
    requires
        n <= 2000000000,
    ensures
        a % 2 == 1,
        1 <= a <= 44724,
        a * a >= n,
        a == 1 || (a as int - 2) * (a as int - 2) < n as int,
{
    let root = isqrt_u64(n as u64);
    proof {
        assert(root <= 44722) by (nonlinear_arith)
            requires
                root * root <= 2000000000,
                root >= 0,
        ;
    }
    let a0: usize = if (root as usize) * (root as usize) == n {
        root as usize
    } else {
        root as usize + 1
    };
    let a: usize = if a0 % 2 == 0 {
        a0 + 1
    } else {
        a0
    };
    proof {
        assert(root * root <= n < (root + 1) * (root + 1));
        assert(a * a >= n) by (nonlinear_arith)
            requires
                root * root <= n < (root + 1) * (root + 1),
                a >= root + 1 || (a == root && root * root == n),
        ;
        // Minimality: the next odd side down would no longer hold all
        // records.
        if a != 1 {
            assert(a >= 3);
            if (root as usize) * (root as usize) == n {
                assert((a as int - 2) * (a as int - 2) < n as int) by (nonlinear_arith)
                    requires
                        a >= 3,
                        root as int <= a as int <= root as int + 1,
                        (root as int) * (root as int) == n as int,
                ;
            } else {
                assert((a as int - 2) * (a as int - 2) < n as int) by (nonlinear_arith)
                    requires
                        a >= 3,
                        root as int + 1 <= a as int <= root as int + 2,
                        (root as int) * (root as int) < n as int,
                ;
            }
        }
    }
    a
}

/// The empty square grid of side `a`.
fn empty_grid(a: usize) -> (m: Vec<Vec<Option<UuidString>>>)
    ensures
        m@.len() == a,
        forall|i: int| 0 <= i < a ==> (#[trigger] m@[i])@.len() == a,
        forall|i: int, j: int|
            #![trigger m@[i]@[j]]
            0 <= i < a && 0 <= j < a ==> m@[i]@[j] is None,
{
    let mut m: Vec<Vec<Option<UuidString>>> = Vec::new();
    let mut gi: usize = 0;
    while gi < a
        invariant
            0 <= gi <= a,
            m@.len() == gi,
            forall|i: int| 0 <= i < gi ==> (#[trigger] m@[i])@.len() == a,
            forall|i: int, j: int|
                #![trigger m@[i]@[j]]
                0 <= i < gi && 0 <= j < a ==> m@[i]@[j] is None,
        decreases a - gi,
    {
        let mut row: Vec<Option<UuidString>> = Vec::new();
        let mut gj: usize = 0;
        while gj < a
            invariant
                0 <= gj <= a,
                row@.len() == gj,
                forall|j: int| 0 <= j < gj ==> (#[trigger] row@[j]) is None,
            decreases a - gj,
        {
            row.push(None);
            gj += 1;
        }
        m.push(row);
        gi += 1;
    }
    m
}

/// Writes the k-th record's id onto the k-th candidate cell, for the
/// first `min(record count, cell count)` records, leaving every other
/// cell empty.
#[verifier::rlimit(100)]
fn assign_cells(
    metadata: &Vec<Image>,
    cells: &Vec<PosCell>,
    m: &mut Vec<Vec<Option<UuidString>>>,
    a: usize,
    la: usize,
    sa: i64,
    sb: i64,
)
    requires
        1 <= a <= 44724,
        la <= a,
        -(a as int) <= sa <= 0,
        -(a as int) <= sb <= 0,
        old(m)@.len() == a,
        forall|i: int| 0 <= i < a ==> (#[trigger] old(m)@[i])@.len() == a,
        forall|i: int, j: int|
            #![trigger old(m)@[i]@[j]]
            0 <= i < a && 0 <= j < a ==> old(m)@[i]@[j] is None,
        forall|p: int|
            0 <= p < cells@.len() ==> sa <= (#[trigger] cells@[p]).i < sa + (la as int) && sb
                <= cells@[p].j < sb + (la as int),
        forall|p: int, q: int|
            0 <= p < cells@.len() && 0 <= q < cells@.len() && p != q ==> cells@[p] != cells@[q],
    ensures
        final(m)@.len() == a,
        forall|i: int| 0 <= i < a ==> (#[trigger] final(m)@[i])@.len() == a,
        grid_filled(final(m)@, metadata@, cells@, sa as int, sb as int),
{
    let n = metadata.len();
    let count: usize = if n <= cells.len() {
        n
    } else {
        cells.len()
    };
    let mut k: usize = 0;
    while k < count
        invariant
            0 <= k <= count,
            count <= n,
            count <= cells@.len(),
            count == if n <= cells@.len() {
                n as int
            } else {
                cells@.len() as int
            },
            n == metadata@.len(),
            m@.len() == a,
            1 <= a <= 44724,
            la <= a,
            -(a as int) <= sa <= 0,
            -(a as int) <= sb <= 0,
            forall|p: int|
                0 <= p < cells@.len() ==> sa <= (#[trigger] cells@[p]).i < sa + (la as int) && sb
                    <= cells@[p].j < sb + (la as int),
            forall|p: int, q: int|
                0 <= p < cells@.len() && 0 <= q < cells@.len() && p != q ==> cells@[p]
                    != cells@[q],
            forall|i: int| 0 <= i < a ==> (#[trigger] m@[i])@.len() == a,
            forall|k2: int|
                0 <= k2 < k ==> m@[(#[trigger] cells@[k2]).i - sa]@[cells@[k2].j - sb] == Some(
                    UuidString(metadata@[k2].id),
                ),
            forall|gi: int, gj: int|
                #![trigger m@[gi]@[gj]]
                0 <= gi < a && 0 <= gj < a && m@[gi]@[gj] is Some ==> exists|k2: int|
                    0 <= k2 < k && (#[trigger] cells@[k2]).i == gi + sa && cells@[k2].j == gj + sb,
        decreases count - k,
    {
        let cell = PosCell { i: cells[k].i, j: cells[k].j };
        proof {
            assert(cells@[k as int].i == cell.i && cells@[k as int].j == cell.j);
            assert(sa <= cells@[k as int].i < sa + (la as int));
            assert(cell.i >= sa && cell.j >= sb);
        }
        let ti: usize = (cell.i - sa) as usize;
        let tj: usize = (cell.j - sb) as usize;
        let id = metadata[k].id;
        let ghost old_m = m@;
        let mut row = m.remove(ti);
        row.set(tj, Some(UuidString(id)));
        m.insert(ti, row);
        proof {
            assert(cells@[k as int] == (PosCell { i: cell.i, j: cell.j }));
            // Earlier records stay where they were put: their cells are
            // all distinct from this one.
            assert forall|k2: int|
                0 <= k2 < k + 1 implies m@[(#[trigger] cells@[k2]).i - sa]@[cells@[k2].j - sb]
                == Some(UuidString(metadata@[k2].id)) by {
                let gi = cells@[k2].i - sa;
                let gj = cells@[k2].j - sb;
                if k2 < k {
                    if gi == ti {
                        if gj == tj {
                            assert(cells@[k2] == cells@[k as int]);
                            assert(false);
                        } else {
                            assert(m@[gi]@[gj] == old_m[gi]@[gj]);
                        }
                    } else {
                        assert(m@[gi] == old_m[gi]);
                    }
                } else {
                    assert(m@[ti as int]@[tj as int] == Some(UuidString(id)));
                }
            }
            // Conversely, nothing lands outside the first k + 1 cells.
            assert forall|gi: int, gj: int|
                #![trigger m@[gi]@[gj]]
                0 <= gi < a && 0 <= gj < a && m@[gi]@[gj] is Some implies exists|k2: int|
                0 <= k2 < k + 1 && (#[trigger] cells@[k2]).i == gi + sa && cells@[k2].j == gj
                + sb by {
                if gi == ti && gj == tj {
                    assert(cells@[k as int].i == gi + sa && cells@[k as int].j == gj + sb);
                } else {
                    if gi == ti {
                        assert(m@[gi]@[gj] == old_m[gi]@[gj]);
                    } else {
                        assert(m@[gi] == old_m[gi]);
                    }
                    let w = choose|k2: int|
                        0 <= k2 < k && (#[trigger] cells@[k2]).i == gi + sa && cells@[k2].j == gj
                            + sb;
                    assert(cells@[w].i == gi + sa && cells@[w].j == gj + sb);
                }
            }
        }
        k += 1;
    }
    proof {
        assert(grid_filled(m@, metadata@, cells@, sa as int, sb as int));
    }
}

#[verifier::rlimit(100)]
pub fn create_expansion_grid(metadata: &Vec<Image>, opts: &ExpansionGridOptions) -> (r: Vec<
    Vec<Option<UuidString>>,
>)
    requires
        metadata@.len() <= 2000000000,
    ensures
        r@.len() % 2 == 1,
        r@.len() >= 1,
        r@.len() * r@.len() >= metadata@.len(),
        r@.len() == 1 || (r@.len() as int - 2) * (r@.len() as int - 2) < metadata@.len() as int,
        forall|i: int| 0 <= i < r@.len() ==> (#[trigger] r@[i])@.len() == r@.len(),
        forall|i: int, j: int|
            #![trigger r@[i]@[j]]
            0 <= i < r@.len() && 0 <= j < r@[i]@.len() && r@[i]@[j] is Some ==> exists|k: int|
                0 <= k < metadata@.len() && ((r@[i]@[j])->0).0 == (#[trigger] metadata@[k]).id,
        exists|cells: Seq<PosCell>|
            #[trigger] cells_wf(
                cells,
                resolved_anchor(*opts),
                resolved_grid_dist(*opts),
                r@.len() as int,
            ) && grid_filled(
                r@,
                metadata@,
                cells,
                quadrant_i0(resolved_anchor(*opts), r@.len() as int),
                quadrant_j0(resolved_anchor(*opts), r@.len() as int),
            ),
{
    let n = metadata.len();
    let a = grid_side(n);
    let mut m = empty_grid(a);

    // Candidate cells of the anchor's quadrant.
    let anchor = match &opts.anchor {
        Some(Anchor::TopLeft) => Anchor::TopLeft,
        Some(Anchor::TopRight) => Anchor::TopRight,
        Some(Anchor::BottomLeft) => Anchor::BottomLeft,
        Some(Anchor::BottomRight) => Anchor::BottomRight,
        _ => Anchor::Center,
    };
    // The top-right anchor has always shared the top-left quadrant; kept
    // as is rather than reinterpreted.
    let (sa, sb): (i64, i64) = match anchor {
        Anchor::BottomLeft => (0, 0),
        Anchor::BottomRight => (0, -(a as i64)),
        Anchor::TopLeft => (-(a as i64), 0),
        Anchor::TopRight => (-(a as i64), 0),
        Anchor::Center => {
            let h = (a / 2) as i64;
            (-h, -h)
        },
    };
    let la: usize = match anchor {
        Anchor::Center => a - 1,
        _ => a,
    };

    let gdf = match &opts.grid_dist {
        Some(GridDistanceFunction::Manhattan) => GridDistanceFunction::Manhattan,
        Some(GridDistanceFunction::PseudoPythegorean) => GridDistanceFunction::PseudoPythegorean,
        _ => GridDistanceFunction::Pythegorean,
    };
    let cells = expansion_cells(&gdf, a, la, sa, sb);
    assign_cells(metadata, &cells, &mut m, a, la, sa, sb);
    proof {
        assert(anchor == resolved_anchor(*opts));
        assert(gdf == resolved_grid_dist(*opts));
        assert(sa == quadrant_i0(anchor, a as int));
        assert(sb == quadrant_j0(anchor, a as int));
        assert(la as int == quadrant_side(anchor, a as int));
        lemma_expansion_grid_ensures(
            m@,
            metadata@,
            cells@,
            anchor,
            gdf,
            a as int,
            sa as int,
            sb as int,
            la as int,
        );
        assert(cells_wf(cells@, resolved_anchor(*opts), resolved_grid_dist(*opts), a as int));
    }
    m
}

/// A grid produced by [`assign_cells`] over [`expansion_cells`] meets
/// the public contract: the cell list is well formed and every occupied
/// cell holds an assigned record's id.
proof fn lemma_expansion_grid_ensures(
    g: Seq<Vec<Option<UuidString>>>,
    s: Seq<Image>,
    cells: Seq<PosCell>,
    anchor: Anchor,
    f: GridDistanceFunction,
    a: int,
    sa: int,
    sb: int,
    la: int,
)
    requires
        g.len() == a,
        1 <= a,
        la == quadrant_side(anchor, a),
        sa == quadrant_i0(anchor, a),
        sb == quadrant_j0(anchor, a),
        cells.len() == la * la,
        forall|p: int|
            0 <= p < cells.len() ==> sa <= (#[trigger] cells[p]).i < sa + la && sb <= cells[p].j
                < sb + la,
        forall|p: int, q: int|
            0 <= p < cells.len() && 0 <= q < cells.len() && p != q ==> cells[p] != cells[q],
        forall|p: int, q: int|
            0 <= p < q < cells.len() ==> cell_cost(f, (#[trigger] cells[p]).i as int, cells[p].j as int)
                <= cell_cost(f, (#[trigger] cells[q]).i as int, cells[q].j as int),
        forall|i: int| 0 <= i < a ==> (#[trigger] g[i])@.len() == a,
        grid_filled(g, s, cells, sa, sb),
    ensures
        cells_wf(cells, anchor, f, a),
        forall|i: int, j: int|
            #![trigger g[i]@[j]]
            0 <= i < g.len() && 0 <= j < g[i]@.len() && g[i]@[j] is Some ==> exists|k: int|
                0 <= k < s.len() && ((g[i]@[j])->0).0 == (#[trigger] s[k]).id,
{
    let count: int = if s.len() <= cells.len() {
        s.len() as int
    } else {
        cells.len() as int
    };
    assert forall|p: int, q: int|
        0 <= p < cells.len() && 0 <= q < cells.len() && p != q implies !((#[trigger] cells[p]).i
        == (#[trigger] cells[q]).i && cells[p].j == cells[q].j) by {
        if cells[p].i == cells[q].i && cells[p].j == cells[q].j {
            assert(cells[p] == cells[q]);
            assert(false);
        }
    }
    assert(cells_wf(cells, anchor, f, a));
    // An occupied cell always holds the id of the record assigned to it.
    assert forall|i: int, j: int|
        #![trigger g[i]@[j]]
        0 <= i < g.len() && 0 <= j < g[i]@.len() && g[i]@[j] is Some implies exists|k: int|
        0 <= k < s.len() && ((g[i]@[j])->0).0 == (#[trigger] s[k]).id by {
        let k2 = choose|k2: int|
            0 <= k2 < count && (#[trigger] cells[k2]).i == i + sa && cells[k2].j == j + sb;
        assert(g[cells[k2].i - sa]@[cells[k2].j - sb] == Some(UuidString(s[k2].id)));
        assert(((g[i]@[j])->0).0 == s[k2].id);
    }
}

} // verus!
