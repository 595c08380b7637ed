//! Pre-pack size normalization.
//!
//! Two passes run on working copies of the records' dimensions before
//! packing: each record is halved until it fits a caller-supplied icon
//! bound, then all records are halved in lock step until the total area
//! fits the caller's area budget. Source records are never written back.

use vstd::arithmetic::div_mod::lemma_div_denominator;
use vstd::arithmetic::power2::pow2;
use vstd::prelude::*;

use crate::img::Image;
use crate::pack::{lemma_sum_area_nonneg, lemma_sum_area_split, sum_area};

verus! {

/// What repeated halving of `(w, h)` settles on under the icon bound
/// `(mw, mh)`: the first pair in the halving chain that fits.
pub open spec fn icon_fit(w: nat, h: nat, mw: nat, mh: nat) -> (nat, nat)
    decreases w + h,
{
    if w <= mw && h <= mh {
        (w, h)
    } else {
        icon_fit(w / 2, h / 2, mw, mh)
    }
}

/// The settled pair fits the bound.
pub proof fn lemma_icon_fit_fits(w: nat, h: nat, mw: nat, mh: nat)
    ensures
        icon_fit(w, h, mw, mh).0 <= mw,
        icon_fit(w, h, mw, mh).1 <= mh,
    decreases w + h,
{
    if !(w <= mw && h <= mh) {
        lemma_icon_fit_fits(w / 2, h / 2, mw, mh);
    }
}

/// The settled pair is an exact power-of-two fraction of the input: both
/// dimensions are divided by the same `pow2(k)`.
pub proof fn lemma_icon_fit_pow2(w: nat, h: nat, mw: nat, mh: nat)
    ensures
        exists|k: nat|
            #[trigger] pow2(k) > 0 && icon_fit(w, h, mw, mh).0 == w / pow2(k) && icon_fit(
                w,
                h,
                mw,
                mh,
            ).1 == h / pow2(k),
    decreases w + h,
{
    if w <= mw && h <= mh {
        assert(pow2(0) == 1) by {
            vstd::arithmetic::power2::lemma2_to64();
        }
        assert(w / pow2(0) == w);
        assert(h / pow2(0) == h);
    } else {
        lemma_icon_fit_pow2(w / 2, h / 2, mw, mh);
        let k0 = choose|k: nat|
            #[trigger] pow2(k) > 0 && icon_fit(w / 2, h / 2, mw, mh).0 == (w / 2) / pow2(k)
                && icon_fit(w / 2, h / 2, mw, mh).1 == (h / 2) / pow2(k);
        assert(pow2(k0 + 1) == 2 * pow2(k0)) by {
            vstd::arithmetic::power2::lemma_pow2_unfold(k0 + 1);
        }
        lemma_div_denominator(w as int, 2, pow2(k0) as int);
        lemma_div_denominator(h as int, 2, pow2(k0) as int);
        assert(pow2(k0 + 1) > 0);
        assert(icon_fit(w, h, mw, mh).0 == w / pow2(k0 + 1));
        assert(icon_fit(w, h, mw, mh).1 == h / pow2(k0 + 1));
    }
}

/// Halves `(w, h)` until both sides fit the icon bound `(mw, mh)`.
///
/// The result is exactly the settling point of the halving chain; by
/// [`lemma_icon_fit_fits`] it fits the bound, and by
/// [`lemma_icon_fit_pow2`] it is a power-of-two fraction of the input.
pub fn shrink_to_icon_bound(w: u32, h: u32, mw: u32, mh: u32) -> (r: (u32, u32))
    ensures
        (r.0 as nat, r.1 as nat) == icon_fit(w as nat, h as nat, mw as nat, mh as nat),
        r.0 <= mw,
        r.1 <= mh,
{
    let mut cw = w;
    let mut ch = h;
    while cw > mw || ch > mh
        invariant
            icon_fit(cw as nat, ch as nat, mw as nat, mh as nat) == icon_fit(
                w as nat,
                h as nat,
                mw as nat,
                mh as nat,
            ),
        decreases cw + ch,
    {
        cw = cw / 2;
        ch = ch / 2;
    }
    proof {
        lemma_icon_fit_fits(w as nat, h as nat, mw as nat, mh as nat);
    }
    (cw, ch)
}

/// All records with their dimensions halved once, everything else kept.
pub open spec fn halve_all(s: Seq<Image>) -> Seq<Image> {
    s.map_values(
        |m: Image|
            Image {
                width: (m.width / 2) as u32,
                height: (m.height / 2) as u32,
                ..m
            },
    )
}

/// `k` lock-step halvings of every record.
pub open spec fn halve_all_iter(s: Seq<Image>, k: nat) -> Seq<Image>
    decreases k,
{
    if k == 0 {
        s
    } else {
        halve_all(halve_all_iter(s, (k - 1) as nat))
    }
}

/// Halving all records at most quarters the total area.
pub proof fn lemma_halve_area(s: Seq<Image>, b: int)
    requires
        0 <= b <= s.len(),
    ensures
        4 * sum_area(halve_all(s), 0, b) <= sum_area(s, 0, b),
    decreases b,
{
    if b > 0 {
        lemma_halve_area(s, b - 1);
        let m = s[b - 1];
        assert(halve_all(s)[b - 1].width == m.width / 2);
        let wd = (m.width as int) / 2;
        let hd = (m.height as int) / 2;
        assert(0 <= 2 * wd <= m.width && 0 <= 2 * hd <= m.height);
        assert((2 * wd) * (2 * hd) <= m.width * m.height) by (nonlinear_arith)
            requires
                0 <= 2 * wd <= m.width,
                0 <= 2 * hd <= m.height,
        ;
        assert((2 * wd) * (2 * hd) == 4 * (wd * hd)) by (nonlinear_arith);
    }
}

/// Halves every record of the list once, in place.
fn halve_records(meta: &mut Vec<Image>)
    ensures
        final(meta)@ == halve_all(old(meta)@),
{
    let n = meta.len();
    let mut i: usize = 0;
    while i < n
        invariant
            i <= n,
            n == meta@.len(),
            meta@.len() == old(meta)@.len(),
            forall|j: int| i <= j < n ==> meta@[j] == old(meta)@[j],
            forall|j: int| 0 <= j < i ==> meta@[j] == halve_all(old(meta)@)[j],
        decreases n - i,
    {
        let w = meta[i].width / 2;
        let h = meta[i].height / 2;
        let m = Image {
            width: w,
            height: h,
            ..meta.remove(i)
        };
        meta.insert(i, m);
        i += 1;
    }
    proof {
        assert(meta@ =~= halve_all(old(meta)@));
    }
}

/// Halves all records in lock step until the total area fits `max_area`.
///
/// The result is the input halved some minimal number `k` of times: the
/// final total area fits the budget, and one fewer halving would not.
pub fn shrink_to_area_budget(meta: &mut Vec<Image>, max_area: u64)
    requires
        sum_area(old(meta)@, 0, old(meta)@.len() as int) <= u64::MAX,
    ensures
        exists|k: nat|
            final(meta)@ == #[trigger] halve_all_iter(old(meta)@, k) && (forall|j: nat|
                j < k ==> sum_area(
                    #[trigger] halve_all_iter(old(meta)@, j),
                    0,
                    old(meta)@.len() as int,
                ) > max_area),
        sum_area(final(meta)@, 0, final(meta)@.len() as int) <= max_area,
{
    let ghost s0 = meta@;
    let ghost mut steps: nat = 0nat;
    loop
        invariant
            meta@ == halve_all_iter(s0, steps),
            meta@.len() == s0.len(),
            sum_area(meta@, 0, meta@.len() as int) <= u64::MAX,
            forall|j: nat|
                j < steps ==> sum_area(#[trigger] halve_all_iter(s0, j), 0, s0.len() as int)
                    > max_area,
        ensures
            meta@ == halve_all_iter(s0, steps),
            sum_area(meta@, 0, meta@.len() as int) <= max_area,
            forall|j: nat|
                j < steps ==> sum_area(#[trigger] halve_all_iter(s0, j), 0, s0.len() as int)
                    > max_area,
        decreases sum_area(meta@, 0, meta@.len() as int),
    {
        let total = total_area(meta);
        if total <= max_area {
            break;
        }
        proof {
            lemma_halve_area(meta@, meta@.len() as int);
            lemma_sum_area_nonneg(halve_all(meta@), 0, meta@.len() as int);
            lemma_sum_area_nonneg(meta@, 0, meta@.len() as int);
            assert(halve_all_iter(s0, steps + 1) == halve_all(halve_all_iter(s0, steps)));
        }
        halve_records(meta);
        proof {
            steps = steps + 1;
        }
    }
}

/// Total area of the record list, `sum(width * height)`.
pub fn total_area(meta: &Vec<Image>) -> (r: u64)
    requires
        sum_area(meta@, 0, meta@.len() as int) <= u64::MAX,
    ensures
        r == sum_area(meta@, 0, meta@.len() as int),
{
    let n = meta.len();
    let mut area: u64 = 0;
    let mut t: usize = 0;
    while t < n
        invariant
            t <= n,
            n == meta@.len(),
            area == sum_area(meta@, 0, t as int),
            sum_area(meta@, 0, meta@.len() as int) <= u64::MAX,
        decreases n - t,
    {
        proof {
            lemma_sum_area_split(meta@, 0, t as int, n as int);
            lemma_sum_area_split(meta@, t as int, t as int + 1, n as int);
            lemma_sum_area_nonneg(meta@, t as int + 1, n as int);
            assert(sum_area(meta@, t as int, t as int) == 0);
        }
        let w64: u64 = meta[t].width as u64;
        let h64: u64 = meta[t].height as u64;
        assert(w64 * h64 == meta@[t as int].width * meta@[t as int].height) by (nonlinear_arith)
            requires
                w64 == meta@[t as int].width,
                h64 == meta@[t as int].height,
        ;
        assert(w64 * h64 >= 0) by (nonlinear_arith);
        area = area + w64 * h64;
        t += 1;
    }
    area
}

/// Lock-step halving never changes the record count.
pub proof fn lemma_halve_iter_len(s: Seq<Image>, k: nat)
    ensures
        halve_all_iter(s, k).len() == s.len(),
    decreases k,
{
    if k > 0 {
        lemma_halve_iter_len(s, (k - 1) as nat);
    }
}

} // verus!
