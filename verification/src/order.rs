//! Orderings derived from the distance scores, and the sort they drive.
//!
//! `SignedDist` orders a pair by the sign of their mutual score — the
//! historical comparator that exploits the sign rather than the magnitude,
//! kept literally. `CompareDist` orders two records by their score to a
//! fixed reference record, ascending.

use vstd::multiset::Multiset;
use vstd::prelude::*;
use vstd::relations::sorted_by;

use crate::dist::{
    CosScore, DateTimeDist, DistanceFunctionVariants, PaletteCosDist, PaletteDist, Score,
    cos_defined, cos_score, datetime_score, palette_score,
};
use crate::img::Image;

verus! {

/// A three-way comparison outcome.
pub enum Rank {
    Less,
    Equal,
    Greater,
}

/// Wire-level selector of a comparator: sign of the pairwise score, or
/// score to a fixed reference id.
pub enum CompareFunctionVariants {
    SignedDist { dist: DistanceFunctionVariants },
    ComparativeDist { compared_to: u128, dist: DistanceFunctionVariants },
}

/// Sign of a score against zero; the infinite score sorts as positive.
pub open spec fn score_sign(s: Score) -> Rank {
    match s {
        Score::Infinite => Rank::Greater,
        Score::Finite(v) => if v < 0 {
            Rank::Less
        } else if v == 0 {
            Rank::Equal
        } else {
            Rank::Greater
        },
    }
}

/// Three-way comparison of two scores; the infinite score is the largest.
pub open spec fn score_cmp(a: Score, b: Score) -> Rank {
    match (a, b) {
        (Score::Infinite, Score::Infinite) => Rank::Equal,
        (Score::Infinite, Score::Finite(_)) => Rank::Greater,
        (Score::Finite(_), Score::Infinite) => Rank::Less,
        (Score::Finite(x), Score::Finite(y)) => if x < y {
            Rank::Less
        } else if x == y {
            Rank::Equal
        } else {
            Rank::Greater
        },
    }
}

/// The extended value class of a palette-cosine score
/// `sqrt(sq_a) / (count * sqrt(sq_b))`: zero when `sq_a` is zero, infinite
/// when the palette is missing or the denominator vanishes, else a
/// positive ratio compared by cross-multiplied squares.
pub open spec fn cos_sign(c: CosScore) -> Rank {
    match c {
        CosScore::Missing => Rank::Greater,
        CosScore::Terms { count, sq_a, sq_b } => if sq_a == 0 {
            Rank::Equal
        } else {
            Rank::Greater
        },
    }
}

/// Whether a palette-cosine score classifies as the infinite value.
pub open spec fn cos_is_inf(c: CosScore) -> bool {
    match c {
        CosScore::Missing => true,
        CosScore::Terms { count, sq_a, sq_b } => sq_a > 0 && (count == 0 || sq_b == 0),
    }
}

/// Whether a palette-cosine score classifies as zero.
pub open spec fn cos_is_zero(c: CosScore) -> bool {
    match c {
        CosScore::Missing => false,
        CosScore::Terms { count, sq_a, sq_b } => sq_a == 0,
    }
}

/// Three-way comparison of two palette-cosine scores, as the real values
/// `sqrt(sq_a) / (count * sqrt(sq_b))` compare: squaring the positive
/// cross products turns that into an exact integer test.
pub open spec fn cos_cmp(a: CosScore, b: CosScore) -> Rank {
    if cos_is_zero(a) && cos_is_zero(b) {
        Rank::Equal
    } else if cos_is_zero(a) {
        Rank::Less
    } else if cos_is_zero(b) {
        Rank::Greater
    } else if cos_is_inf(a) && cos_is_inf(b) {
        Rank::Equal
    } else if cos_is_inf(a) {
        Rank::Greater
    } else if cos_is_inf(b) {
        Rank::Less
    } else {
        let x = a->count * a->count * a->sq_b * b->sq_a;
        let y = b->count * b->count * b->sq_b * a->sq_a;
        // v(a) < v(b)  <=>  sq_a(a) * (count(b)^2 sq_b(b))  <  sq_a(b) * (count(a)^2 sq_b(a)),
        // rearranged so each side groups one score's denominator.
        if y < x {
            Rank::Less
        } else if x == y {
            Rank::Equal
        } else {
            Rank::Greater
        }
    }
}

/// Comparator on the sign of the pairwise score, kept from the engine's
/// public API.
pub struct SignedDist {
    pub dist: DistanceFunctionVariants,
}

/// Comparator by score to a fixed reference record, kept from the
/// engine's public API.
pub struct CompareDist {
    pub dist: DistanceFunctionVariants,
    pub compared_to: Image,
}

/// What `SignedDist` answers on a pair.
pub open spec fn signed_rank(d: DistanceFunctionVariants, a: Image, b: Image) -> Rank {
    match d {
        DistanceFunctionVariants::Palette => score_sign(palette_score(a, b)),
        DistanceFunctionVariants::DateTime => score_sign(datetime_score(a, b)),
        DistanceFunctionVariants::PaletteCos => cos_sign(cos_score(a, b)),
    }
}

/// What `CompareDist` answers on a pair, relative to the reference `r`.
pub open spec fn comparative_rank(
    d: DistanceFunctionVariants,
    r: Image,
    a: Image,
    b: Image,
) -> Rank {
    match d {
        DistanceFunctionVariants::Palette => score_cmp(palette_score(r, a), palette_score(r, b)),
        DistanceFunctionVariants::DateTime => score_cmp(
            datetime_score(r, a),
            datetime_score(r, b),
        ),
        DistanceFunctionVariants::PaletteCos => cos_cmp(cos_score(r, a), cos_score(r, b)),
    }
}

/// The undefined palette-cosine case never comes up on this pair: the
/// historical float comparator was unordered (and failed) there.
pub open spec fn signed_defined(d: DistanceFunctionVariants, a: Image, b: Image) -> bool {
    d is PaletteCos ==> cos_defined(cos_score(a, b))
}

/// Same guard for the comparative form: both scores to the reference must
/// compare cleanly.
pub open spec fn comparative_defined(
    d: DistanceFunctionVariants,
    r: Image,
    a: Image,
    b: Image,
) -> bool {
    d is PaletteCos ==> cos_defined(cos_score(r, a)) && cos_defined(cos_score(r, b))
}

impl SignedDist {
    /// Ranks `m1` against `m2` by the sign of their score.
    pub fn compare(&self, m1: &Image, m2: &Image) -> (r: Rank)
        requires
            m1.wf(),
            m2.wf(),
            signed_defined(self.dist, *m1, *m2),
        ensures
            r == signed_rank(self.dist, *m1, *m2),
    {
        match self.dist {
            DistanceFunctionVariants::Palette => {
                match (PaletteDist).dist(m1, m2) {
                    Score::Infinite => Rank::Greater,
                    Score::Finite(v) => {
                        if v < 0 {
                            Rank::Less
                        } else if v == 0 {
                            Rank::Equal
                        } else {
                            Rank::Greater
                        }
                    },
                }
            },
            DistanceFunctionVariants::DateTime => {
                match (DateTimeDist).dist(m1, m2) {
                    Score::Infinite => Rank::Greater,
                    Score::Finite(v) => {
                        if v < 0 {
                            Rank::Less
                        } else if v == 0 {
                            Rank::Equal
                        } else {
                            Rank::Greater
                        }
                    },
                }
            },
            DistanceFunctionVariants::PaletteCos => {
                match (PaletteCosDist).dist(m1, m2) {
                    CosScore::Missing => Rank::Greater,
                    CosScore::Terms { count, sq_a, sq_b } => {
                        if sq_a == 0 {
                            Rank::Equal
                        } else {
                            Rank::Greater
                        }
                    },
                }
            },
        }
    }
}

/// Compares two exact scores.
fn rank_scores(a: Score, b: Score) -> (r: Rank)
    ensures
        r == score_cmp(a, b),
{
    match (a, b) {
        (Score::Infinite, Score::Infinite) => Rank::Equal,
        (Score::Infinite, Score::Finite(_)) => Rank::Greater,
        (Score::Finite(_), Score::Infinite) => Rank::Less,
        (Score::Finite(x), Score::Finite(y)) => {
            if x < y {
                Rank::Less
            } else if x == y {
                Rank::Equal
            } else {
                Rank::Greater
            }
        },
    }
}

/// The aggregates of a palette-cosine score computed from well-formed
/// records: at most ten entries of channel values up to 255.
pub open spec fn cos_in_range(c: CosScore) -> bool {
    c is Terms ==> c->count <= 15300 && c->sq_a <= 1950750 && c->sq_b <= 1950750
}

/// Scores of well-formed records stay in range.
pub proof fn lemma_cos_score_in_range(a: Image, b: Image)
    requires
        a.wf(),
        b.wf(),
    ensures
        cos_in_range(cos_score(a, b)),
{
    if a.metadata.palette is Some && b.metadata.palette is Some {
        let p1 = a.metadata.palette->0@;
        let p2 = b.metadata.palette->0@;
        let k = crate::dist::min_len(p1.len() as int, p2.len() as int);
        crate::dist::lemma_cos_nonneg(p1, p2, k);
        crate::dist::lemma_cos_bound(p1, p2, k);
    }
}

/// Compares two palette-cosine scores by their extended real value.
fn rank_cos_scores(a: CosScore, b: CosScore) -> (r: Rank)
    requires
        cos_in_range(a),
        cos_in_range(b),
    ensures
        r == cos_cmp(a, b),
{
    let a_zero = match a {
        CosScore::Missing => false,
        CosScore::Terms { count: _, sq_a, sq_b: _ } => sq_a == 0,
    };
    let b_zero = match b {
        CosScore::Missing => false,
        CosScore::Terms { count: _, sq_a, sq_b: _ } => sq_a == 0,
    };
    let a_inf = match a {
        CosScore::Missing => true,
        CosScore::Terms { count, sq_a, sq_b } => sq_a > 0 && (count == 0 || sq_b == 0),
    };
    let b_inf = match b {
        CosScore::Missing => true,
        CosScore::Terms { count, sq_a, sq_b } => sq_a > 0 && (count == 0 || sq_b == 0),
    };
    if a_zero && b_zero {
        Rank::Equal
    } else if a_zero {
        Rank::Less
    } else if b_zero {
        Rank::Greater
    } else if a_inf && b_inf {
        Rank::Equal
    } else if a_inf {
        Rank::Greater
    } else if b_inf {
        Rank::Less
    } else {
        match (a, b) {
            (
                CosScore::Terms { count: c1, sq_a: a1, sq_b: b1 },
                CosScore::Terms { count: c2, sq_a: a2, sq_b: b2 },
            ) => {
                proof {
                    lemma_cos_products_fit(c1 as int, b1 as int, a2 as int);
                    lemma_cos_products_fit(c2 as int, b2 as int, a1 as int);
                }
                let x: u128 = (c1 as u128) * (c1 as u128) * (b1 as u128) * (a2 as u128);
                let y: u128 = (c2 as u128) * (c2 as u128) * (b2 as u128) * (a1 as u128);

                if y < x {
                    Rank::Less
                } else if x == y {
                    Rank::Equal
                } else {
                    Rank::Greater
                }
            },
            _ => {
                // Unreachable: both scores were classified as finite above.
                Rank::Equal
            },
        }
    }
}

/// The cross products of the palette-cosine comparison stay within range.
proof fn lemma_cos_products_fit(c: int, b: int, a: int)
    requires
        0 <= c <= 15300,
        0 <= b <= 1950750,
        0 <= a <= 1950750,
    ensures
        0 <= c * c <= 0xDF84240,
        0 <= c * c * b <= 0x19AC805658D5580,
        0 <= c * c * b * a <= 0x30B910C3549DAD6BFF880,
{
    assert(0 <= c * c <= 0xDF84240) by (nonlinear_arith)
        requires
            0 <= c <= 15300,
    ;
    assert(0 <= c * c * b <= 0x19AC805658D5580) by (nonlinear_arith)
        requires
            0 <= c * c <= 0xDF84240,
            0 <= b <= 1950750,
    ;
    assert(0 <= (c * c * b) * a <= 0x30B910C3549DAD6BFF880) by (nonlinear_arith)
        requires
            0 <= c * c * b <= 0x19AC805658D5580,
            0 <= a <= 1950750,
    ;
}

impl CompareDist {
    /// Ranks `m1` against `m2` by their score to the reference record.
    pub fn compare(&self, m1: &Image, m2: &Image) -> (r: Rank)
        requires
            self.compared_to.wf(),
            m1.wf(),
            m2.wf(),
            comparative_defined(self.dist, self.compared_to, *m1, *m2),
        ensures
            r == comparative_rank(self.dist, self.compared_to, *m1, *m2),
    {
        match self.dist {
            DistanceFunctionVariants::Palette => {
                let s1 = (PaletteDist).dist(&self.compared_to, m1);
                let s2 = (PaletteDist).dist(&self.compared_to, m2);
                rank_scores(s1, s2)
            },
            DistanceFunctionVariants::DateTime => {
                let s1 = (DateTimeDist).dist(&self.compared_to, m1);
                let s2 = (DateTimeDist).dist(&self.compared_to, m2);
                rank_scores(s1, s2)
            },
            DistanceFunctionVariants::PaletteCos => {
                let s1 = (PaletteCosDist).dist(&self.compared_to, m1);
                let s2 = (PaletteCosDist).dist(&self.compared_to, m2);
                proof {
                    lemma_cos_score_in_range(self.compared_to, *m1);
                    lemma_cos_score_in_range(self.compared_to, *m2);
                }
                rank_cos_scores(s1, s2)
            },
        }
    }
}

/// A resolved comparator: the closed tagged form that replaces dynamic
/// dispatch on the hot per-pair comparison path.
pub enum CompareFunction {
    Signed(SignedDist),
    Comparative(CompareDist),
}

/// What a resolved comparator answers on a pair.
pub open spec fn rank_of(c: CompareFunction, a: Image, b: Image) -> Rank {
    match c {
        CompareFunction::Signed(sd) => signed_rank(sd.dist, a, b),
        CompareFunction::Comparative(cd) => comparative_rank(cd.dist, cd.compared_to, a, b),
    }
}

/// The comparator is defined on the pair.
pub open spec fn rank_defined(c: CompareFunction, a: Image, b: Image) -> bool {
    match c {
        CompareFunction::Signed(sd) => signed_defined(sd.dist, a, b),
        CompareFunction::Comparative(cd) => comparative_defined(cd.dist, cd.compared_to, a, b)
            && cd.compared_to.wf(),
    }
}

/// `a` sorts no later than `b` under the comparator.
pub open spec fn rank_le(c: CompareFunction, a: Image, b: Image) -> bool {
    !(rank_of(c, a, b) is Greater)
}

impl CompareFunction {
    /// Ranks a pair under whichever comparator this is.
    pub fn compare(&self, m1: &Image, m2: &Image) -> (r: Rank)
        requires
            m1.wf(),
            m2.wf(),
            rank_defined(*self, *m1, *m2),
        ensures
            r == rank_of(*self, *m1, *m2),
    {
        match self {
            CompareFunction::Signed(sd) => sd.compare(m1, m2),
            CompareFunction::Comparative(cd) => cd.compare(m1, m2),
        }
    }
}

/// The comparator's `rank_le` relation is a total preorder on the records
/// of `m`: any two compare some way round, and chains compose. The
/// reference-record comparators order by a key and satisfy this on every
/// multiset; the sign comparator need not.
pub open spec fn comparator_total_on(c: CompareFunction, m: Multiset<Image>) -> bool {
    &&& (forall|x: Image, y: Image|
        m.contains(x) && m.contains(y) ==> #[trigger] rank_le(c, x, y) || #[trigger] rank_le(
            c,
            y,
            x,
        ))
    &&& (forall|x: Image, y: Image, z: Image|
        m.contains(x) && m.contains(y) && m.contains(z) && #[trigger] rank_le(c, x, y)
            && #[trigger] rank_le(c, y, z) ==> rank_le(c, x, z))
}

/// Spec-function form of [`comparator_total_on`] for any element type,
/// used by the sequence lemmas.
pub open spec fn le_total_on_any<T>(leq: spec_fn(T, T) -> bool, m: Multiset<T>) -> bool {
    &&& (forall|x: T, y: T|
        m.contains(x) && m.contains(y) ==> #[trigger] leq(x, y) || #[trigger] leq(y, x))
    &&& (forall|x: T, y: T, z: T|
        m.contains(x) && m.contains(y) && m.contains(z) && #[trigger] leq(x, y) && #[trigger] leq(
            y,
            z,
        ) ==> leq(x, z))
}

/// The multiset of a sequence with one element put back where it was
/// taken out is unchanged.
pub proof fn lemma_remove_insert_multiset<T>(s: Seq<T>, i: int, j: int)
    requires
        0 <= i < s.len(),
        0 <= j <= s.len() - 1,
    ensures
        s.remove(i).insert(j, s[i]).to_multiset() =~= s.to_multiset(),
{
    broadcast use vstd::seq_lib::group_to_multiset_ensures;

    lemma_insert_multiset(s.remove(i), j, s[i]);
    assert(s.remove(i).to_multiset() =~= s.to_multiset().remove(s[i]));
    assert(s.to_multiset().contains(s[i]));
    assert(s.to_multiset().remove(s[i]).insert(s[i]) =~= s.to_multiset());
}

/// Inserting an element anywhere adds exactly it to the multiset.
pub proof fn lemma_insert_multiset<T>(s: Seq<T>, j: int, x: T)
    requires
        0 <= j <= s.len(),
    ensures
        s.insert(j, x).to_multiset() =~= s.to_multiset().insert(x),
{
    broadcast use vstd::seq_lib::group_to_multiset_ensures;

    let left: Seq<T> = s.subrange(0, j);
    let right: Seq<T> = s.subrange(j, s.len() as int);
    assert(s =~= left + right);
    assert(s.insert(j, x) =~= left.push(x) + right);
    vstd::seq_lib::lemma_multiset_commutative(left, right);
    vstd::seq_lib::lemma_multiset_commutative(left.push(x), right);
    assert(left.push(x).to_multiset() =~= left.to_multiset().insert(x));
    assert(left.to_multiset().insert(x).add(right.to_multiset()) =~= left.to_multiset().add(
        right.to_multiset(),
    ).insert(x));
}

/// One insertion-sort step keeps the growing prefix sorted: the moved
/// element lands between the last smaller element and the run of larger
/// ones it was shifted past.
pub proof fn lemma_insertion_step<T>(
    pre: Seq<T>,
    x: T,
    leq: spec_fn(T, T) -> bool,
    i: int,
    j: int,
)
    requires
        0 <= j <= i <= pre.len(),
        le_total_on_any(leq, pre.to_multiset().insert(x)),
        sorted_by(pre.subrange(0, i), leq),
        forall|p: int| j <= p < i ==> !#[trigger] leq(pre[p], x),
        j > 0 ==> leq(pre[j - 1], x),
    ensures
        sorted_by(pre.insert(j, x).subrange(0, i + 1), leq),
{
    broadcast use vstd::seq_lib::group_to_multiset_ensures;

    let new = pre.insert(j, x);
    let m = pre.to_multiset().insert(x);
    assert(m.contains(x));
    assert forall|p: int| 0 <= p < pre.len() implies m.contains(pre[p]) by {
        assert(pre.to_multiset().contains(pre[p]));
    }
    assert forall|p: int, q: int| #![trigger new[p], new[q]] 0 <= p < q < i + 1 implies leq(
        new[p],
        new[q],
    ) by {
        if q < j {
            assert(new[p] == pre[p] && new[q] == pre[q]);
            assert(leq(pre.subrange(0, i)[p], pre.subrange(0, i)[q]));
        } else if p < j && q == j {
            // new[q] is x; pre[p] <= pre[j-1] <= x.
            if p == j - 1 {
            } else {
                assert(leq(pre.subrange(0, i)[p], pre.subrange(0, i)[j - 1]));
            }
        } else if p < j && q > j {
            assert(new[q] == pre[q - 1]);
            if p == q - 1 {
                assert(false);
            } else {
                assert(leq(pre.subrange(0, i)[p], pre.subrange(0, i)[q - 1]));
            }
        } else if p == j {
            // new[p] is x; x <= pre[q-1] because the scan shifted past it.
            assert(new[q] == pre[q - 1]);
            assert(!leq(pre[q - 1], x));
            assert(m.contains(pre[q - 1]));
        } else {
            assert(new[p] == pre[p - 1] && new[q] == pre[q - 1]);
            assert(leq(pre.subrange(0, i)[p - 1], pre.subrange(0, i)[q - 1]));
        }
    }
    assert(sorted_by(new.subrange(0, i + 1), leq)) by {
        assert forall|p: int, q: int|
            #![trigger new.subrange(0, i + 1)[p], new.subrange(0, i + 1)[q]]
            0 <= p < q < new.subrange(0, i + 1).len() implies leq(
            new.subrange(0, i + 1)[p],
            new.subrange(0, i + 1)[q],
        ) by {
            assert(leq(new[p], new[q]));
        }
    }
}

/// Sorts the records in place under the comparator.
///
/// The result is always a permutation of the input. Whenever the
/// comparator's `rank_le` relation is a total preorder on the records
/// being sorted, the result is additionally sorted under it.
pub fn sort_by(metadata: &mut Vec<Image>, compare: &CompareFunction)
    requires
        forall|i: int| 0 <= i < old(metadata)@.len() ==> (#[trigger] old(metadata)@[i]).wf(),
        forall|i: int, j: int|
            0 <= i < old(metadata)@.len() && 0 <= j < old(metadata)@.len() ==> rank_defined(
                *compare,
                #[trigger] old(metadata)@[i],
                #[trigger] old(metadata)@[j],
            ),
    ensures
        final(metadata)@.to_multiset() == old(metadata)@.to_multiset(),
        final(metadata)@.len() == old(metadata)@.len(),
        comparator_total_on(*compare, old(metadata)@.to_multiset()) ==> (forall|p: int, q: int|
            0 <= p < q < final(metadata)@.len() ==> rank_le(
                *compare,
                #[trigger] final(metadata)@[p],
                #[trigger] final(metadata)@[q],
            )),
{
    let ghost leq = |a: Image, b: Image| rank_le(*compare, a, b);
    let ghost s0 = metadata@;
    proof {
        if comparator_total_on(*compare, s0.to_multiset()) {
            assert(le_total_on_any(leq, s0.to_multiset()));
        }
    }
    let n = metadata.len();
    if n <= 1 {
        proof {
            if comparator_total_on(*compare, s0.to_multiset()) {
                assert forall|p: int, q: int| 0 <= p < q < metadata@.len() implies rank_le(
                    *compare,
                    #[trigger] metadata@[p],
                    #[trigger] metadata@[q],
                ) by {}
            }
        }
        return ;
    }
    let mut i: usize = 1;
    while i < n
        invariant
            1 <= i <= n,
            n == metadata@.len(),
            metadata@.to_multiset() == s0.to_multiset(),
            metadata@.len() == s0.len(),
            forall|p: int| 0 <= p < metadata@.len() ==> (#[trigger] metadata@[p]).wf(),
            forall|p: int, q: int|
                0 <= p < metadata@.len() && 0 <= q < metadata@.len() ==> rank_defined(
                    *compare,
                    #[trigger] metadata@[p],
                    #[trigger] metadata@[q],
                ),
            le_total_on_any(leq, s0.to_multiset()) ==> sorted_by(metadata@.subrange(0, i as int), leq),
            leq == (|a: Image, b: Image| rank_le(*compare, a, b)),
        decreases n - i,
    {
        let ghost before = metadata@;
        let x = metadata.remove(i);
        let mut j: usize = i;
        loop
            invariant
                0 <= j <= i < before.len(),
                before.len() == n,
                metadata@ == before.remove(i as int),
                x == before[i as int],
                x.wf(),
                forall|p: int| 0 <= p < before.len() ==> (#[trigger] before[p]).wf(),
                forall|p: int, q: int|
                    0 <= p < before.len() && 0 <= q < before.len() ==> rank_defined(
                        *compare,
                        #[trigger] before[p],
                        #[trigger] before[q],
                    ),
                forall|p: int|
                    j <= p < i ==> rank_of(*compare, #[trigger] metadata@[p], x) is Greater,
                leq == (|a: Image, b: Image| rank_le(*compare, a, b)),
            ensures
                0 <= j <= i,
                metadata@ == before.remove(i as int),
                forall|p: int|
                    j <= p < i ==> rank_of(*compare, #[trigger] metadata@[p], x) is Greater,
                j > 0 ==> !(rank_of(*compare, metadata@[j - 1], x) is Greater),
            decreases j,
        {
            if j == 0 {
                break ;
            }
            proof {
                assert(metadata@[j - 1] == before[j - 1]);
            }
            let r = metadata[j - 1].ranked_against(&x, compare);
            match r {
                Rank::Greater => {
                    j -= 1;
                },
                _ => {
                    break ;
                },
            }
        }
        let ghost pre = metadata@;
        metadata.insert(j, x);
        proof {
            lemma_remove_insert_multiset(before, i as int, j as int);
            assert(metadata@ == pre.insert(j as int, x));
            if le_total_on_any(leq, s0.to_multiset()) {
                assert(pre.to_multiset().insert(x) =~= before.to_multiset()) by {
                    broadcast use vstd::seq_lib::group_to_multiset_ensures;

                    assert(pre.to_multiset() =~= before.to_multiset().remove(x));
                    assert(before.to_multiset().contains(x));
                }
                assert(pre.subrange(0, i as int) =~= before.subrange(0, i as int));
                assert forall|p: int| j <= p < i implies !#[trigger] leq(pre[p], x) by {
                    assert(rank_of(*compare, pre[p], x) is Greater);
                }
                lemma_insertion_step(pre, x, leq, i as int, j as int);
                assert(metadata@.subrange(0, i as int + 1) == pre.insert(j as int, x).subrange(
                    0,
                    i as int + 1,
                ));
            }
        }
        i += 1;
    }
    proof {
        assert(metadata@.subrange(0, n as int) =~= metadata@);
        if comparator_total_on(*compare, s0.to_multiset()) {
            assert(sorted_by(metadata@, leq));
            assert forall|p: int, q: int| 0 <= p < q < metadata@.len() implies rank_le(
                *compare,
                #[trigger] metadata@[p],
                #[trigger] metadata@[q],
            ) by {
                assert(leq(metadata@[p], metadata@[q]));
            }
        }
    }
}

/// The reference-record comparator orders by a key, so its `rank_le`
/// relation is a total preorder on any multiset of records.
pub proof fn lemma_comparative_total_on(
    d: DistanceFunctionVariants,
    r: Image,
    m: Multiset<Image>,
)
    ensures
        comparator_total_on(
            CompareFunction::Comparative(CompareDist { dist: d, compared_to: r }),
            m,
        ),
{
    let c = CompareFunction::Comparative(CompareDist { dist: d, compared_to: r });
    assert forall|x: Image, y: Image| m.contains(x) && m.contains(y) implies #[trigger] rank_le(
        c,
        x,
        y,
    ) || #[trigger] rank_le(c, y, x) by {
        lemma_comparative_pair(d, r, x, y);
    }
    assert forall|x: Image, y: Image, z: Image|
        m.contains(x) && m.contains(y) && m.contains(z) && #[trigger] rank_le(c, x, y)
            && #[trigger] rank_le(c, y, z) implies rank_le(c, x, z) by {
        lemma_comparative_chain(d, r, x, y, z);
    }
}

/// Any two records compare some way round under the reference comparator.
proof fn lemma_comparative_pair(d: DistanceFunctionVariants, r: Image, x: Image, y: Image)
    ensures
        !(comparative_rank(d, r, x, y) is Greater) || !(comparative_rank(d, r, y, x) is Greater),
{
    match d {
        DistanceFunctionVariants::PaletteCos => {
            lemma_cos_cmp_flip(cos_score(r, x), cos_score(r, y));
        },
        _ => {},
    }
}

/// `rank_le` chains compose under the reference comparator.
proof fn lemma_comparative_chain(
    d: DistanceFunctionVariants,
    r: Image,
    x: Image,
    y: Image,
    z: Image,
)
    requires
        !(comparative_rank(d, r, x, y) is Greater),
        !(comparative_rank(d, r, y, z) is Greater),
    ensures
        !(comparative_rank(d, r, x, z) is Greater),
{
    match d {
        DistanceFunctionVariants::PaletteCos => {
            lemma_cos_cmp_chain(cos_score(r, x), cos_score(r, y), cos_score(r, z));
        },
        _ => {},
    }
}

/// The cosine comparison never answers `Greater` both ways round.
proof fn lemma_cos_cmp_flip(a: CosScore, b: CosScore)
    ensures
        !(cos_cmp(a, b) is Greater) || !(cos_cmp(b, a) is Greater),
{
}

/// The cosine comparison composes: `a <= b` and `b <= c` give `a <= c`,
/// with the positive-ratio case settled by cross multiplication.
proof fn lemma_cos_cmp_chain(a: CosScore, b: CosScore, c: CosScore)
    requires
        !(cos_cmp(a, b) is Greater),
        !(cos_cmp(b, c) is Greater),
    ensures
        !(cos_cmp(a, c) is Greater),
{
    if !cos_is_zero(a) && !cos_is_zero(b) && !cos_is_zero(c) && !cos_is_inf(a) && !cos_is_inf(b)
        && !cos_is_inf(c) {
        let na = a->sq_a;
        let da = a->count * a->count * a->sq_b;
        let nb = b->sq_a;
        let db = b->count * b->count * b->sq_b;
        let nc = c->sq_a;
        let dc = c->count * c->count * c->sq_b;
        assert(da > 0) by (nonlinear_arith)
            requires
                da == a->count * a->count * a->sq_b,
                a->count > 0,
                a->sq_b > 0,
        ;
        assert(db > 0) by (nonlinear_arith)
            requires
                db == b->count * b->count * b->sq_b,
                b->count > 0,
                b->sq_b > 0,
        ;
        assert(dc > 0) by (nonlinear_arith)
            requires
                dc == c->count * c->count * c->sq_b,
                c->count > 0,
                c->sq_b > 0,
        ;
        // not Greater means the canvas side of the cross product holds:
        // da*nb >= db*na and db*nc >= dc*nb.
        assert(da * nb >= db * na);
        assert(db * nc >= dc * nb);
        assert(da * nc >= dc * na) by (nonlinear_arith)
            requires
                da * nb >= db * na,
                db * nc >= dc * nb,
                na > 0,
                nb > 0,
                nc > 0,
                da > 0,
                db > 0,
                dc > 0,
        ;
    }
}

/// On records that all carry a timestamp, the sign comparator over the
/// timestamp score orders by the timestamp itself, a total preorder.
pub proof fn lemma_signed_datetime_total_on(m: Multiset<Image>)
    requires
        forall|x: Image| m.contains(x) ==> (#[trigger] x.metadata.date_time) is Some,
    ensures
        comparator_total_on(
            CompareFunction::Signed(
                SignedDist { dist: DistanceFunctionVariants::DateTime },
            ),
            m,
        ),
{
}

/// Sorts records tallest first, the order the shelf packer expects.
///
/// Always a permutation of the input, and always sorted, since height is
/// a total key.
pub fn sort_by_height_desc(metadata: &mut Vec<Image>)
    ensures
        final(metadata)@.to_multiset() == old(metadata)@.to_multiset(),
        final(metadata)@.len() == old(metadata)@.len(),
        forall|p: int, q: int|
            0 <= p < q < final(metadata)@.len() ==> (#[trigger] final(metadata)@[p]).height
                >= (#[trigger] final(metadata)@[q]).height,
{
    let ghost leq = |a: Image, b: Image| a.height >= b.height;
    let ghost s0 = metadata@;
    proof {
        broadcast use vstd::seq_lib::group_to_multiset_ensures;

    }
    let n = metadata.len();
    if n <= 1 {
        return ;
    }
    let mut i: usize = 1;
    while i < n
        invariant
            1 <= i <= n,
            n == metadata@.len(),
            metadata@.to_multiset() == s0.to_multiset(),
            metadata@.len() == s0.len(),
            sorted_by(metadata@.subrange(0, i as int), leq),
            leq == (|a: Image, b: Image| a.height >= b.height),
        decreases n - i,
    {
        let ghost before = metadata@;
        let x = metadata.remove(i);
        let hx = x.height;
        let mut j: usize = i;
        loop
            invariant
                0 <= j <= i < before.len(),
                before.len() == n,
                metadata@ == before.remove(i as int),
                x == before[i as int],
                hx == x.height,
                forall|p: int| j <= p < i ==> (#[trigger] metadata@[p]).height < hx,
            ensures
                0 <= j <= i,
                metadata@ == before.remove(i as int),
                forall|p: int| j <= p < i ==> (#[trigger] metadata@[p]).height < hx,
                j > 0 ==> metadata@[j - 1].height >= hx,
            decreases j,
        {
            if j == 0 {
                break ;
            }
            if metadata[j - 1].height < hx {
                j -= 1;
            } else {
                break ;
            }
        }
        let ghost pre = metadata@;
        metadata.insert(j, x);
        proof {
            lemma_remove_insert_multiset(before, i as int, j as int);
            assert(le_total_on_any(leq, pre.to_multiset().insert(x)));
            assert(pre.subrange(0, i as int) =~= before.subrange(0, i as int));
            assert forall|p: int| j <= p < i implies !#[trigger] leq(pre[p], x) by {
                assert(pre[p].height < hx);
            }
            lemma_insertion_step(pre, x, leq, i as int, j as int);
            assert(metadata@.subrange(0, i as int + 1) == pre.insert(j as int, x).subrange(
                0,
                i as int + 1,
            ));
        }
        i += 1;
    }
    proof {
        assert(metadata@.subrange(0, n as int) =~= metadata@);
        assert forall|p: int, q: int|
            0 <= p < q < metadata@.len() implies (#[trigger] metadata@[p]).height
            >= (#[trigger] metadata@[q]).height by {
            assert(leq(metadata@.subrange(0, n as int)[p], metadata@.subrange(0, n as int)[q]));
        }
    }
}

impl Image {
    /// Ranks this record against `other` under the comparator; a helper so
    /// the scan can read naturally.
    pub fn ranked_against(&self, other: &Image, compare: &CompareFunction) -> (r: Rank)
        requires
            self.wf(),
            other.wf(),
            rank_defined(*compare, *self, *other),
        ensures
            r == rank_of(*compare, *self, *other),
    {
        compare.compare(self, other)
    }
}

} // verus!
