//! Dissimilarity scores between two image records.
//!
//! The engine keeps scores in exact integer form. A missing metadata field
//! scores as infinity, which sorts such records to the end under every
//! derived ordering. The palette score is an intentionally asymmetric,
//! non-metric sum of channel differences whose weight grows a
//! hundredfold per palette index; the palette-cosine score mirrors the
//! historical formula `sqrt(sq_a) / (count * sqrt(sq_b))`, which is not a
//! true cosine similarity — both are kept as they are, not corrected.

use vstd::prelude::*;

use crate::img::Image;

verus! {

/// Selector for the three score implementations.
#[derive(Clone, Copy)]
pub enum DistanceFunctionVariants {
    Palette,
    PaletteCos,
    DateTime,
}

/// An exact score: a finite integer, or the infinity that stands in for a
/// missing metadata field.
pub enum Score {
    Finite(i128),
    Infinite,
}

/// Weight of palette index `i`: grows by a factor 100 per index.
pub open spec fn pow100(i: nat) -> int
    decreases i,
{
    if i == 0 {
        1
    } else {
        100 * pow100((i - 1) as nat)
    }
}

/// Summed channel difference of palette entry `i`.
pub open spec fn entry_diff(p1: Seq<(u8, u8, u8)>, p2: Seq<(u8, u8, u8)>, i: int) -> int {
    (p1[i].0 - p2[i].0) + (p1[i].1 - p2[i].1) + (p1[i].2 - p2[i].2)
}

/// Weighted palette difference over the first `k` entries.
pub open spec fn pal_sum(p1: Seq<(u8, u8, u8)>, p2: Seq<(u8, u8, u8)>, k: int) -> int
    decreases k,
{
    if k <= 0 {
        0
    } else {
        pal_sum(p1, p2, k - 1) + entry_diff(p1, p2, k - 1) * pow100((k - 1) as nat)
    }
}

/// The palette score of two records: infinite when either palette is
/// missing, else the weighted channel difference over the shorter palette.
pub open spec fn palette_score(a: Image, b: Image) -> Score {
    if a.metadata.palette is Some && b.metadata.palette is Some {
        Score::Finite(
            pal_sum(
                a.metadata.palette->0@,
                b.metadata.palette->0@,
                min_len(a.metadata.palette->0@.len() as int, b.metadata.palette->0@.len() as int),
            ) as i128,
        )
    } else {
        Score::Infinite
    }
}

/// The timestamp score: infinite when either timestamp is missing, else
/// the difference of epoch seconds.
pub open spec fn datetime_score(a: Image, b: Image) -> Score {
    if a.metadata.date_time is Some && b.metadata.date_time is Some {
        Score::Finite((a.metadata.date_time->0 - b.metadata.date_time->0) as i128)
    } else {
        Score::Infinite
    }
}

/// The smaller of two lengths.
pub open spec fn min_len(a: int, b: int) -> int {
    if a <= b {
        a
    } else {
        b
    }
}

/// Powers of 100 are positive.
pub proof fn lemma_pow100_pos(i: nat)
    ensures
        pow100(i) >= 1,
    decreases i,
{
    if i > 0 {
        lemma_pow100_pos((i - 1) as nat);
    }
}

/// The weighted sum over `k` entries is bounded by `8 * pow100(k)`.
pub proof fn lemma_pal_sum_bound(p1: Seq<(u8, u8, u8)>, p2: Seq<(u8, u8, u8)>, k: int)
    requires
        k >= 0,
    ensures
        -8 * pow100(k as nat) <= pal_sum(p1, p2, k) <= 8 * pow100(k as nat),
    decreases k,
{
    if k > 0 {
        lemma_pal_sum_bound(p1, p2, k - 1);
        lemma_pow100_pos((k - 1) as nat);
        let w = pow100((k - 1) as nat);
        let d = entry_diff(p1, p2, k - 1);
        assert(-765 <= d <= 765);
        assert(-765 * w <= d * w <= 765 * w) by (nonlinear_arith)
            requires
                w >= 1,
                -765 <= d <= 765,
        ;
        // 8 * pow100(k) == 800 * w, and 8 * w + 765 * w <= 800 * w.
        assert(pow100(k as nat) == 100 * w);
    }
}

/// Marker struct of the palette score, kept from the engine's public API.
pub struct PaletteDist;

impl PaletteDist {
    /// Computes [`palette_score`] exactly.
    pub fn dist(&self, m1: &Image, m2: &Image) -> (r: Score)
        requires
            m1.wf(),
            m2.wf(),
        ensures
            r == palette_score(*m1, *m2),
    {
        let (p1, p2) = match (&m1.metadata.palette, &m2.metadata.palette) {
            (Some(p1), Some(p2)) => (p1, p2),
            _ => {
                return Score::Infinite;
            },
        };
        let k: usize = if p1.len() <= p2.len() {
            p1.len()
        } else {
            p2.len()
        };
        let mut sum: i128 = 0;
        let mut mult: i128 = 1;
        let mut i: usize = 0;
        while i < k
            invariant
                0 <= i <= k,
                k == min_len(p1@.len() as int, p2@.len() as int),
                k <= 10,
                mult == pow100(i as nat),
                sum == pal_sum(p1@, p2@, i as int),
            decreases k - i,
        {
            proof {
                lemma_pal_sum_bound(p1@, p2@, i as int);
                lemma_pal_sum_bound(p1@, p2@, i as int + 1);
                lemma_pow100_bound10(i as nat);
                lemma_pow100_bound10((i + 1) as nat);
            }
            let d: i128 = (p1[i].0 as i128 - p2[i].0 as i128) + (p1[i].1 as i128 - p2[i].1
                as i128) + (p1[i].2 as i128 - p2[i].2 as i128);
            proof {
                lemma_pow100_pos(i as nat);
                let w = pow100(i as nat);
                assert(-765 * w <= d * w <= 765 * w) by (nonlinear_arith)
                    requires
                        w >= 1,
                        -765 <= d <= 765,
                ;
            }
            sum = sum + d * mult;
            mult = mult * 100;
            i += 1;
        }
        proof {
            lemma_pal_sum_bound(p1@, p2@, k as int);
            lemma_pow100_bound10(k as nat);
        }
        Score::Finite(sum)
    }
}

/// Powers of 100 never shrink with the index.
pub proof fn lemma_pow100_mono(i: nat, j: nat)
    requires
        i <= j,
    ensures
        pow100(i) <= pow100(j),
    decreases j,
{
    if i < j {
        lemma_pow100_mono(i, (j - 1) as nat);
        lemma_pow100_pos((j - 1) as nat);
    }
}

/// Powers of 100 up to index 10 stay within `10^20`.
pub proof fn lemma_pow100_bound10(i: nat)
    requires
        i <= 10,
    ensures
        pow100(i) <= 0x56BC75E2D63100000,
{
    lemma_pow100_mono(i, 10);
    assert(pow100(10) == 0x56BC75E2D63100000) by {
        reveal_with_fuel(pow100, 12);
    }
}

/// Marker struct of the timestamp score, kept from the engine's public API.
pub struct DateTimeDist;

impl DateTimeDist {
    /// Computes [`datetime_score`] exactly.
    pub fn dist(&self, m1: &Image, m2: &Image) -> (r: Score)
        ensures
            r == datetime_score(*m1, *m2),
    {
        match (&m1.metadata.date_time, &m2.metadata.date_time) {
            (Some(t1), Some(t2)) => Score::Finite(*t1 as i128 - *t2 as i128),
            _ => Score::Infinite,
        }
    }
}

/// The three aggregates the palette-cosine score is built from: the sum of
/// all channel values of both palettes, and each palette's sum of squared
/// channel values, taken over the zipped (shorter) length.
pub enum CosScore {
    Missing,
    Terms { count: u64, sq_a: u64, sq_b: u64 },
}

/// Channel sum of both entries at index `i`.
pub open spec fn cos_count_at(p1: Seq<(u8, u8, u8)>, p2: Seq<(u8, u8, u8)>, i: int) -> int {
    p1[i].0 + p1[i].1 + p1[i].2 + p2[i].0 + p2[i].1 + p2[i].2
}

/// Squared channel sum of one entry.
pub open spec fn sq_at(p: Seq<(u8, u8, u8)>, i: int) -> int {
    p[i].0 * p[i].0 + p[i].1 * p[i].1 + p[i].2 * p[i].2
}

/// Sum of [`cos_count_at`] over the first `k` entries.
pub open spec fn cos_count(p1: Seq<(u8, u8, u8)>, p2: Seq<(u8, u8, u8)>, k: int) -> int
    decreases k,
{
    if k <= 0 {
        0
    } else {
        cos_count(p1, p2, k - 1) + cos_count_at(p1, p2, k - 1)
    }
}

/// Sum of [`sq_at`] over the first `k` entries.
pub open spec fn cos_sq(p: Seq<(u8, u8, u8)>, k: int) -> int
    decreases k,
{
    if k <= 0 {
        0
    } else {
        cos_sq(p, k - 1) + sq_at(p, k - 1)
    }
}

/// The palette-cosine aggregates of two records.
pub open spec fn cos_score(a: Image, b: Image) -> CosScore {
    if a.metadata.palette is Some && b.metadata.palette is Some {
        let p1 = a.metadata.palette->0@;
        let p2 = b.metadata.palette->0@;
        let k = min_len(p1.len() as int, p2.len() as int);
        CosScore::Terms {
            count: cos_count(p1, p2, k) as u64,
            sq_a: cos_sq(p1, k) as u64,
            sq_b: cos_sq(p2, k) as u64,
        }
    } else {
        CosScore::Missing
    }
}

/// Whether comparing this score does not hit the undefined `0/0` case of
/// the historical float formula: both squared sums zero (in particular, an
/// empty zipped palette) made it unordered.
pub open spec fn cos_defined(c: CosScore) -> bool {
    c is Terms ==> !(c->sq_a == 0 && c->sq_b == 0)
}

/// Aggregate sums are never negative.
pub proof fn lemma_cos_nonneg(p1: Seq<(u8, u8, u8)>, p2: Seq<(u8, u8, u8)>, k: int)
    ensures
        cos_count(p1, p2, k) >= 0,
        cos_sq(p1, k) >= 0,
        cos_sq(p2, k) >= 0,
    decreases k,
{
    if k > 0 {
        lemma_cos_nonneg(p1, p2, k - 1);
        assert(p1[k - 1].0 * p1[k - 1].0 >= 0) by (nonlinear_arith);
        assert(p1[k - 1].1 * p1[k - 1].1 >= 0) by (nonlinear_arith);
        assert(p1[k - 1].2 * p1[k - 1].2 >= 0) by (nonlinear_arith);
        assert(p2[k - 1].0 * p2[k - 1].0 >= 0) by (nonlinear_arith);
        assert(p2[k - 1].1 * p2[k - 1].1 >= 0) by (nonlinear_arith);
        assert(p2[k - 1].2 * p2[k - 1].2 >= 0) by (nonlinear_arith);
    }
}

/// Aggregate sums over at most `k` entries are bounded linearly in `k`.
pub proof fn lemma_cos_bound(p1: Seq<(u8, u8, u8)>, p2: Seq<(u8, u8, u8)>, k: int)
    requires
        k >= 0,
    ensures
        cos_count(p1, p2, k) <= 1530 * k,
        cos_sq(p1, k) <= 195075 * k,
        cos_sq(p2, k) <= 195075 * k,
    decreases k,
{
    if k > 0 {
        lemma_cos_bound(p1, p2, k - 1);
        assert(p1[k - 1].0 * p1[k - 1].0 <= 65025) by (nonlinear_arith)
            requires
                0 <= p1[k - 1].0 <= 255,
        ;
        assert(p1[k - 1].1 * p1[k - 1].1 <= 65025) by (nonlinear_arith)
            requires
                0 <= p1[k - 1].1 <= 255,
        ;
        assert(p1[k - 1].2 * p1[k - 1].2 <= 65025) by (nonlinear_arith)
            requires
                0 <= p1[k - 1].2 <= 255,
        ;
        assert(p2[k - 1].0 * p2[k - 1].0 <= 65025) by (nonlinear_arith)
            requires
                0 <= p2[k - 1].0 <= 255,
        ;
        assert(p2[k - 1].1 * p2[k - 1].1 <= 65025) by (nonlinear_arith)
            requires
                0 <= p2[k - 1].1 <= 255,
        ;
        assert(p2[k - 1].2 * p2[k - 1].2 <= 65025) by (nonlinear_arith)
            requires
                0 <= p2[k - 1].2 <= 255,
        ;
    }
}

/// Marker struct of the palette-cosine score, kept from the engine's
/// public API.
pub struct PaletteCosDist;

impl PaletteCosDist {
    /// Computes [`cos_score`] exactly.
    pub fn dist(&self, m1: &Image, m2: &Image) -> (r: CosScore)
        requires
            m1.wf(),
            m2.wf(),
        ensures
            r == cos_score(*m1, *m2),
    {
        let (p1, p2) = match (&m1.metadata.palette, &m2.metadata.palette) {
            (Some(p1), Some(p2)) => (p1, p2),
            _ => {
                return CosScore::Missing;
            },
        };
        let k: usize = if p1.len() <= p2.len() {
            p1.len()
        } else {
            p2.len()
        };
        let mut count: u64 = 0;
        let mut sq_a: u64 = 0;
        let mut sq_b: u64 = 0;
        let mut i: usize = 0;
        while i < k
            invariant
                0 <= i <= k,
                k == min_len(p1@.len() as int, p2@.len() as int),
                k <= 10,
                count == cos_count(p1@, p2@, i as int),
                sq_a == cos_sq(p1@, i as int),
                sq_b == cos_sq(p2@, i as int),
            decreases k - i,
        {
            proof {
                lemma_cos_nonneg(p1@, p2@, i as int);
                lemma_cos_bound(p1@, p2@, i as int);
            }
            let c1 = p1[i];
            let c2 = p2[i];
            let a0 = c1.0 as u64;
            let a1 = c1.1 as u64;
            let a2 = c1.2 as u64;
            let b0 = c2.0 as u64;
            let b1 = c2.1 as u64;
            let b2 = c2.2 as u64;
            proof {
                assert(a0 * a0 <= 65025 && a1 * a1 <= 65025 && a2 * a2 <= 65025 && b0 * b0
                    <= 65025 && b1 * b1 <= 65025 && b2 * b2 <= 65025) by (nonlinear_arith)
                    requires
                        a0 <= 255,
                        a1 <= 255,
                        a2 <= 255,
                        b0 <= 255,
                        b1 <= 255,
                        b2 <= 255,
                ;
            }
            count = count + (a0 + a1 + a2 + b0 + b1 + b2);
            sq_a = sq_a + (a0 * a0 + a1 * a1 + a2 * a2);
            sq_b = sq_b + (b0 * b0 + b1 * b1 + b2 * b2);
            i += 1;
        }
        proof {
            lemma_cos_nonneg(p1@, p2@, k as int);
            lemma_cos_bound(p1@, p2@, k as int);
        }
        CosScore::Terms { count, sq_a, sq_b }
    }
}

} // verus!
