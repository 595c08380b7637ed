//! Pre-layout filtering of the record set.
//!
//! A filter keeps only records that carry every named metadata field, and
//! optionally truncates to the first N records after filtering. A filter
//! naming an unknown field is a bad request.

use vstd::prelude::*;

use crate::err::Error;
use crate::img::Image;

verus! {

/// A conjunction of "has metadata field" requirements plus an optional
/// truncation count. A field name other than `date_time` and `palette`
/// makes the whole filter a bad request.
pub struct Filter {
    pub has_metadata: Option<Vec<String>>,
    pub limit: Option<usize>,
}

/// The two metadata fields a filter may name.
pub open spec fn known_field(name: Seq<char>) -> bool {
    name == "date_time"@ || name == "palette"@
}

/// Whether every field name the filter carries is a known one.
pub open spec fn names_known(f: Filter) -> bool {
    f.has_metadata is Some ==> (forall|i: int|
        0 <= i < f.has_metadata->0@.len() ==> known_field(#[trigger] f.has_metadata->0@[i]@))
}

/// Whether one named requirement holds of a record; a name that is not
/// known never reaches this test, as [`apply_filter`] rejects it.
pub open spec fn field_present(m: Image, name: Seq<char>) -> bool {
    if name == "date_time"@ {
        m.metadata.date_time is Some
    } else if name == "palette"@ {
        m.metadata.palette is Some
    } else {
        true
    }
}

/// Whether a record passes the filter: every named field is present.
pub open spec fn passes(f: Filter, m: Image) -> bool {
    f.has_metadata is Some ==> (forall|i: int|
        0 <= i < f.has_metadata->0@.len() ==> field_present(m, #[trigger] f.has_metadata->0@[i]@))
}

impl Filter {
    /// Tests one record against the filter.
    pub fn filter(&self, m: &Image) -> (r: bool)
        ensures
            r == passes(*self, *m),
    {
        let names = match &self.has_metadata {
            None => {
                return true;
            },
            Some(names) => names,
        };
        let mut i: usize = 0;
        let n = names.len();
        while i < n
            invariant
                0 <= i <= n,
                n == names@.len(),
                self.has_metadata is Some,
                names@ == self.has_metadata->0@,
                forall|j: int| 0 <= j < i ==> field_present(*m, #[trigger] names@[j]@),
            decreases n - i,
        {
            let name: &String = &names[i];
            if str_is(name, "date_time") {
                if m.metadata.date_time.is_none() {
                    return false;
                }
            } else if str_is(name, "palette") {
                if m.metadata.palette.is_none() {
                    return false;
                }
            } else {
                proof {
                    assert(field_present(*m, names@[i as int]@));
                }
            }
            i += 1;
        }
        true
    }
}

/// Whether the string holds exactly the given literal's characters.
fn str_is(name: &String, lit: &str) -> (r: bool)
    ensures
        r == (name@ == lit@),
{
    let other = String::from_str(lit);
    *name == other
}

/// The subsequence of records passing the filter, in order.
pub open spec fn filtered(f: Filter, s: Seq<Image>) -> Seq<Image> {
    s.filter(|m: Image| passes(f, m))
}

/// Applies the filter to a record list: rejects a filter naming an
/// unknown field, otherwise keeps the passing records in order, then
/// truncates to the first `limit` of them (or all, when fewer pass).
pub fn apply_filter(images: Vec<Image>, f: &Filter) -> (r: Result<Vec<Image>, Error>)
    ensures
        r is Err <==> !names_known(*f),
        r is Err ==> r->Err_0 is BadRequest,
        r is Ok && f.limit is None ==> r->Ok_0@ == filtered(*f, images@),
        r is Ok && f.limit is Some ==> r->Ok_0@ == filtered(*f, images@).take(
            min_int(f.limit->0 as int, filtered(*f, images@).len() as int),
        ),
{
    // Unknown field names are a bad request, never silently ignored.
    if let Some(names) = &f.has_metadata {
        let nn = names.len();
        let mut v: usize = 0;
        while v < nn
            invariant
                0 <= v <= nn,
                nn == names@.len(),
                f.has_metadata is Some,
                names@ == f.has_metadata->0@,
                forall|j: int| 0 <= j < v ==> known_field(#[trigger] names@[j]@),
            decreases nn - v,
        {
            let name: &String = &names[v];
            let date_time = str_is(name, "date_time");
            let palette = str_is(name, "palette");
            if !date_time && !palette {
                proof {
                    assert(!known_field(names@[v as int]@));
                }
                return Err(Error::BadRequest(String::from_str("unknown filter field")));
            }
            v += 1;
        }
    }
    let ghost s0 = images@;
    // Records are moved out one by one from the front.
    let mut rest: Vec<Image> = images;
    let mut kept: Vec<Image> = Vec::new();
    let ghost mut processed: int = 0;
    proof {
        assert(s0.take(0) =~= Seq::<Image>::empty());
        assert(rest@ =~= s0.skip(0));
        reveal(Seq::filter);
    }
    loop
        invariant
            0 <= processed <= s0.len(),
            rest@ == s0.skip(processed),
            kept@ == filtered(*f, s0.take(processed)),
        ensures
            kept@ == filtered(*f, s0),
        decreases s0.len() - processed,
    {
        if rest.len() == 0 {
            proof {
                assert(s0.take(processed) =~= s0);
            }
            break ;
        }
        let m = rest.remove(0);
        proof {
            assert(m == s0[processed]);
            assert(rest@ =~= s0.skip(processed + 1));
            let step = s0.take(processed + 1);
            assert(step =~= s0.take(processed).push(m));
            reveal(Seq::filter);
            assert(step.drop_last() =~= s0.take(processed));
            assert(step.last() == m);
        }
        if f.filter(&m) {
            kept.push(m);
        }
        proof {
            processed = processed + 1;
        }
    }
    match f.limit {
        None => Ok(kept),
        Some(limit) => {
            let mut truncated: Vec<Image> = kept;
            if limit < truncated.len() {
                truncated.truncate(limit);
            }
            proof {
                if limit < kept@.len() {
                    assert(truncated@ == kept@.subrange(0, limit as int));
                    assert(kept@.subrange(0, limit as int) =~= kept@.take(
                        min_int(limit as int, kept@.len() as int),
                    ));
                } else {
                    assert(truncated@ =~= kept@.take(min_int(limit as int, kept@.len() as int)));
                }
            }
            Ok(truncated)
        },
    }
}

/// The smaller of two integers.
pub open spec fn min_int(a: int, b: int) -> int {
    if a <= b {
        a
    } else {
        b
    }
}

} // verus!
