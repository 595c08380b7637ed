//! Time-bucketed grouping of records.
//!
//! Records carrying a timestamp are sorted ascending and grouped into
//! buckets keyed by a truncation of the timestamp at one of five
//! resolutions; records without a timestamp are excluded entirely.
//! The civil-calendar arithmetic follows the era-based proleptic
//! Gregorian day count.

use vstd::arithmetic::div_mod::{lemma_hoist_over_denominator, lemma_mod_multiples_vanish};
use vstd::prelude::*;

use crate::img::Image;

verus! {

/// Bucket resolution of the histogram.
pub enum TimeHistResolution {
    Hour,
    Day,
    Week,
    Month,
    Year,
}

/// Options of a histogram request.
pub struct TimeHistOptions {
    pub resolution: TimeHistResolution,
}

/// Floor division and remainder of a signed value by a positive divisor.
///
/// Works entirely in unsigned arithmetic by first adding a multiple of
/// the divisor large enough to make the dividend nonnegative.
pub fn div_floor_i64(a: i64, d: u64) -> (r: (i64, u64))
    requires
        1 <= d <= 0x7FFFFFFFFFFFFFFF,
    ensures
        r.0 == a as int / d as int,
        r.1 == a as int % d as int,
{
    if a >= 0 {
        let au = a as u64;
        let q = au / d;
        let rem = au % d;
        (q as i64, rem)
    } else {
        let pos: u128 = (-(a as i128)) as u128;
        let qp: u128 = pos / (d as u128);
        let rp: u128 = pos % (d as u128);
        proof {
            vstd::arithmetic::div_mod::lemma_fundamental_div_mod(pos as int, d as int);
            assert(qp * d <= pos) by (nonlinear_arith)
                requires
                    pos as int == (d as int) * (qp as int) + rp as int,
                    rp >= 0,
                    d >= 1,
            ;
        }
        if rp == 0 {
            proof {
                // a == (-qp) * d + 0 pins the Euclidean quotient and remainder.
                assert(a as int == (-(qp as int)) * (d as int) + 0) by (nonlinear_arith)
                    requires
                        pos as int == (d as int) * (qp as int) + rp as int,
                        rp == 0,
                        a as int == -(pos as int),
                ;
                vstd::arithmetic::div_mod::lemma_fundamental_div_mod_converse(
                    a as int,
                    d as int,
                    -(qp as int),
                    0,
                );
            }
            ((-(qp as i128)) as i64, 0)
        } else {
            proof {
                // a == (-qp - 1) * d + (d - rp) with the remainder in range.
                assert(a as int == (-(qp as int) - 1) * (d as int) + (d - rp))
                    by (nonlinear_arith)
                    requires
                        pos as int == (d as int) * (qp as int) + rp as int,
                        a as int == -(pos as int),
                ;
                vstd::arithmetic::div_mod::lemma_fundamental_div_mod_converse(
                    a as int,
                    d as int,
                    -(qp as int) - 1,
                    d - rp,
                );
                assert(qp < 0x8000000000000000u128) by (nonlinear_arith)
                    requires
                        (d as int) * (qp as int) + rp as int == pos as int,
                        pos <= 0x8000000000000000u128,
                        rp > 0,
                        d >= 1,
                        qp >= 0,
                ;
            }
            (((-(qp as i128)) - 1) as i64, ((d as u128) - rp) as u64)
        }
    }
}

/// Civil year, month and day of a day count relative to the epoch,
/// era-based over 400-year cycles.
#[verifier::opaque]
pub open spec fn civil_ymd(days: int) -> (int, int, int) {
    let z = days + 719468;
    let era = z / 146097;
    let doe = z % 146097;
    let yoe = (doe - doe / 1460 + doe / 36524 - doe / 146096) / 365;
    let y0 = yoe + era * 400;
    let doy = doe - (365 * yoe + yoe / 4 - yoe / 100);
    let mp = (5 * doy + 2) / 153;
    let d = doy - (153 * mp + 2) / 5 + 1;
    let m = if mp < 10 {
        mp + 3
    } else {
        mp - 9
    };
    (
        if m <= 2 {
            y0 + 1
        } else {
            y0
        },
        m,
        d,
    )
}

/// Day count of the first of January of the given civil year; 306 is
/// January's day-of-era offset in the March-based era calendar.
#[verifier::opaque]
pub open spec fn days_of_jan1(y: int) -> int {
    let yy = y - 1;
    let era = yy / 400;
    let yoe = yy % 400;
    let doe = yoe * 365 + yoe / 4 - yoe / 100 + 306;
    era * 146097 + doe - 719468
}

/// Weekday of a day count, Monday-based (the epoch day was a Thursday).
pub open spec fn weekday_mon0(days: int) -> int {
    (days + 3) % 7
}

/// Week number within the year: week one starts at the first Monday, and
/// days before it fall in week zero.
#[verifier::opaque]
pub open spec fn week_of_year(days: int) -> int {
    let y = civil_ymd(days).0;
    let doy0 = days - days_of_jan1(y);
    (doy0 + 7 - weekday_mon0(days)) / 7
}

/// The truncation key of a timestamp at one resolution, as a pair.
#[verifier::opaque]
pub open spec fn time_key(res: TimeHistResolution, ts: int) -> (int, int) {
    match res {
        TimeHistResolution::Hour => (ts / 3600, 0),
        TimeHistResolution::Day => (ts / 86400, 0),
        TimeHistResolution::Week => (civil_ymd(ts / 86400).0, week_of_year(ts / 86400)),
        TimeHistResolution::Month => (civil_ymd(ts / 86400).0, civil_ymd(ts / 86400).1),
        TimeHistResolution::Year => (civil_ymd(ts / 86400).0, 0),
    }
}

/// Computes [`civil_ymd`] of a day count.
pub fn civil_from_days(days: i64) -> (r: (i64, i64, i64))
    requires
        -150000000000000 <= days <= 150000000000000,
    ensures
        (r.0 as int, r.1 as int, r.2 as int) == civil_ymd(days as int),
        -600000000000 <= r.0 <= 600000000000,
{
    proof {
        reveal(civil_ymd);
    }
    let (era, doe64) = div_floor_i64(days + 719468, 146097);
    let doe: u64 = doe64;
    let yoe: u64 = (doe - doe / 1460 + doe / 36524 - doe / 146096) / 365;
    let y0: i64 = (yoe as i64) + era * 400;
    let doy: u64 = doe - (365 * yoe + yoe / 4 - yoe / 100);
    let mp: u64 = (5 * doy + 2) / 153;
    let d: u64 = doy - (153 * mp + 2) / 5 + 1;
    let m: u64 = if mp < 10 {
        mp + 3
    } else {
        mp - 9
    };
    (
        if m <= 2 {
            y0 + 1
        } else {
            y0
        },
        m as i64,
        d as i64,
    )
}

/// Computes [`days_of_jan1`] of a year.
pub fn days_of_jan1_exec(y: i64) -> (r: i64)
    requires
        -600000000000 <= y <= 600000000000,
    ensures
        r == days_of_jan1(y as int),
        -300000000000000 <= r <= 300000000000000,
{
    proof {
        reveal(days_of_jan1);
    }
    let (era, yoe) = div_floor_i64(y - 1, 400);
    let doe: u64 = yoe * 365 + yoe / 4 - yoe / 100 + 306;
    era * 146097 + (doe as i64) - 719468
}

/// A bucket key in machine form.
#[derive(PartialEq, Eq, Structural)]
pub struct TimeKey {
    pub a: i64,
    pub b: i64,
}

/// Computes [`time_key`] of a timestamp.
pub fn time_key_of(res: &TimeHistResolution, ts: i64) -> (r: TimeKey)
    ensures
        (r.a as int, r.b as int) == time_key(*res, ts as int),
{
    proof {
        reveal(time_key);
    }
    match res {
        TimeHistResolution::Hour => {
            let (q, _) = div_floor_i64(ts, 3600);
            TimeKey { a: q, b: 0 }
        },
        TimeHistResolution::Day => {
            let (q, _) = div_floor_i64(ts, 86400);
            TimeKey { a: q, b: 0 }
        },
        TimeHistResolution::Week => {
            let (days, _) = div_floor_i64(ts, 86400);
            let (y, _m, _d) = civil_from_days(days);
            let jan1 = days_of_jan1_exec(y);
            let doy0: i64 = days - jan1;
            let (_, wd) = div_floor_i64(days + 3, 7);
            let (w, _) = div_floor_i64(doy0 + 7 - (wd as i64), 7);
            proof {
                reveal(week_of_year);
            }
            TimeKey { a: y, b: w }
        },
        TimeHistResolution::Month => {
            let (days, _) = div_floor_i64(ts, 86400);
            let (y, m, _d) = civil_from_days(days);
            TimeKey { a: y, b: m }
        },
        TimeHistResolution::Year => {
            let (days, _) = div_floor_i64(ts, 86400);
            let (y, _m, _d) = civil_from_days(days);
            TimeKey { a: y, b: 0 }
        },
    }
}

/// Number of records in the first `p` buckets.
pub open spec fn buckets_prefix_len(bs: Seq<Vec<Image>>, p: int) -> int
    decreases p,
{
    if p <= 0 {
        0
    } else {
        buckets_prefix_len(bs, p - 1) + bs[p - 1]@.len()
    }
}

/// The timestamp key of a record (which must carry a timestamp).
pub open spec fn record_key(res: TimeHistResolution, m: Image) -> (int, int) {
    time_key(res, m.metadata.date_time->0 as int)
}

/// The buckets are a maximal consecutive grouping of the input by key:
/// nonempty, covering the input in order, all members of one bucket share
/// its key, and adjacent buckets carry different keys.
pub open spec fn buckets_wf(
    bs: Seq<Vec<Image>>,
    s: Seq<Image>,
    res: TimeHistResolution,
) -> bool {
    &&& buckets_prefix_len(bs, bs.len() as int) == s.len()
    &&& (forall|p: int| 0 <= p < bs.len() ==> (#[trigger] bs[p])@.len() >= 1)
    &&& (forall|p: int, j: int|
        #![trigger bs[p]@[j]]
        0 <= p < bs.len() && 0 <= j < bs[p]@.len() ==> bs[p]@[j] == s[
            buckets_prefix_len(bs, p) + j
        ])
    &&& (forall|p: int, j: int|
        #![trigger bs[p]@[j]]
        0 <= p < bs.len() && 0 <= j < bs[p]@.len() ==> record_key(res, bs[p]@[j])
            == record_key(res, bs[p]@[0]))
    &&& (forall|p: int|
        0 < p < bs.len() ==> record_key(res, (#[trigger] bs[p])@[0]) != record_key(
            res,
            bs[p - 1]@[0],
        ))
}

/// Prefix lengths are unchanged by appending a bucket.
proof fn lemma_buckets_prefix_push(bs: Seq<Vec<Image>>, b: Vec<Image>, p: int)
    requires
        0 <= p <= bs.len() + 1,
    ensures
        p <= bs.len() ==> buckets_prefix_len(bs.push(b), p) == buckets_prefix_len(bs, p),
        p == bs.len() + 1 ==> buckets_prefix_len(bs.push(b), p) == buckets_prefix_len(
            bs,
            bs.len() as int,
        ) + b@.len(),
    decreases p,
{
    if p > 0 {
        lemma_buckets_prefix_push(bs, b, p - 1);
    }
}

/// Groups consecutive records sharing a truncation key into buckets.
#[verifier::rlimit(100)]
pub fn group_by_key(sorted: Vec<Image>, res: &TimeHistResolution) -> (bs: Vec<Vec<Image>>)
    requires
        forall|i: int|
            0 <= i < sorted@.len() ==> (#[trigger] sorted@[i]).metadata.date_time is Some,
    ensures
        buckets_wf(bs@, sorted@, *res),
{
    let ghost s = sorted@;
    let mut bs: Vec<Vec<Image>> = Vec::new();
    let mut cur: Vec<Image> = Vec::new();
    let mut cur_key = TimeKey { a: 0, b: 0 };
    let n = sorted.len();
    let mut rest = sorted;
    let mut i: usize = 0;

    while i < n
        invariant
            0 <= i <= n,
            n == s.len(),
            rest@ == s.skip(i as int),
            buckets_prefix_len(bs@, bs@.len() as int) + cur@.len() == i,
            forall|p: int| 0 <= p < bs@.len() ==> (#[trigger] bs@[p])@.len() >= 1,
            forall|p: int, j: int|
                #![trigger bs@[p]@[j]]
                0 <= p < bs@.len() && 0 <= j < bs@[p]@.len() ==> bs@[p]@[j] == s[
                    buckets_prefix_len(bs@, p) + j
                ],
            forall|p: int, j: int|
                #![trigger bs@[p]@[j]]
                0 <= p < bs@.len() && 0 <= j < bs@[p]@.len() ==> record_key(
                    *res,
                    bs@[p]@[j],
                ) == record_key(*res, bs@[p]@[0]),
            forall|p: int|
                0 < p < bs@.len() ==> record_key(*res, (#[trigger] bs@[p])@[0]) != record_key(
                    *res,
                    bs@[p - 1]@[0],
                ),
            forall|j: int|
                0 <= j < cur@.len() ==> cur@[j] == s[buckets_prefix_len(bs@, bs@.len() as int) + j],
            forall|j: int|
                0 <= j < cur@.len() ==> record_key(*res, #[trigger] cur@[j]) == record_key(
                    *res,
                    cur@[0],
                ),
            cur@.len() > 0 ==> (cur_key.a as int, cur_key.b as int) == record_key(*res, cur@[0]),
            cur@.len() > 0 && bs@.len() > 0 ==> record_key(*res, cur@[0]) != record_key(
                *res,
                bs@[bs@.len() - 1]@[0],
            ),
            cur@.len() == 0 ==> i == buckets_prefix_len(bs@, bs@.len() as int),
            cur@.len() == 0 ==> bs@.len() == 0,
            forall|k: int| 0 <= k < s.len() ==> (#[trigger] s[k]).metadata.date_time is Some,
        decreases n - i,
    {
        let m = rest.remove(0);
        proof {
            assert(m == s[i as int]);
            assert(rest@ =~= s.skip(i as int + 1));
        }
        let ts = match m.metadata.date_time {
            Some(t) => t,
            None => {
                proof {
                    assert(false);
                }
                0
            },
        };
        let k = time_key_of(res, ts);
        if cur.len() == 0 {
            cur_key = k;
            cur.push(m);
        } else if k == cur_key {
            cur.push(m);
        } else {
            let ghost old_bs = bs@;
            let full = cur;
            bs.push(full);
            proof {
                lemma_buckets_prefix_push(old_bs, full, old_bs.len() as int + 1);
                assert forall|p: int| 0 <= p <= old_bs.len() implies buckets_prefix_len(
                    bs@,
                    p,
                ) == buckets_prefix_len(old_bs, p) by {
                    lemma_buckets_prefix_push(old_bs, full, p);
                }
            }
            cur = Vec::new();
            cur_key = k;
            cur.push(m);
        }
        i += 1;
    }

    if cur.len() > 0 {
        let ghost old_bs = bs@;
        let full = cur;
        bs.push(full);
        proof {
            lemma_buckets_prefix_push(old_bs, full, old_bs.len() as int + 1);
            assert forall|p: int| 0 <= p <= old_bs.len() implies buckets_prefix_len(bs@, p)
                == buckets_prefix_len(old_bs, p) by {
                lemma_buckets_prefix_push(old_bs, full, p);
            }
        }
    }
    bs
}

/// Bucket prefix lengths never shrink.
pub proof fn lemma_buckets_prefix_mono(bs: Seq<Vec<Image>>, p: int, q: int)
    requires
        0 <= p <= q <= bs.len(),
    ensures
        buckets_prefix_len(bs, p) <= buckets_prefix_len(bs, q),
    decreases q - p,
{
    if p < q {
        lemma_buckets_prefix_mono(bs, p, q - 1);
    }
}

/// What the bucket structure says of each member: it sits in the grouped
/// record list, shares its bucket's key, and carries whatever holds of
/// every grouped record — here, a timestamp.
pub proof fn lemma_buckets_members(bs: Seq<Vec<Image>>, s: Seq<Image>, res: TimeHistResolution)
    requires
        buckets_wf(bs, s, res),
        forall|i: int| 0 <= i < s.len() ==> (#[trigger] s[i]).metadata.date_time is Some,
    ensures
        forall|p: int, j: int|
            #![trigger bs[p]@[j]]
            0 <= p < bs.len() && 0 <= j < bs[p]@.len() ==> bs[p]@[j].metadata.date_time is Some,
        forall|p: int, j: int|
            #![trigger bs[p]@[j]]
            0 <= p < bs.len() && 0 <= j < bs[p]@.len() ==> record_key(res, bs[p]@[j])
                == record_key(res, bs[p]@[0]),
{
    assert forall|p: int, j: int|
        #![trigger bs[p]@[j]]
        0 <= p < bs.len() && 0 <= j < bs[p]@.len() implies bs[p]@[j].metadata.date_time is Some
        && record_key(res, bs[p]@[j]) == record_key(res, bs[p]@[0]) by {
        lemma_buckets_prefix_mono(bs, 0, p);
        lemma_buckets_prefix_mono(bs, p + 1, bs.len() as int);
        assert(buckets_prefix_len(bs, p + 1) == buckets_prefix_len(bs, p) + bs[p]@.len());
        assert(bs[p]@[j] == s[buckets_prefix_len(bs, p) + j]);
    }
}

} // verus!
