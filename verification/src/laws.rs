//! Cross-cutting guarantees of the pipeline, stated and proved over the
//! same specifications that the executable functions promise.

use vstd::prelude::*;
use crate::impute::spec_year_filter;
use crate::metrics::{distinct_keys, key_group};
use crate::records::{RawRecord, ProcessedRecord};
use crate::report2::{r2_keys, contractor_of};
use crate::validate::{spec_validation_errors, spec_record_valid, spec_year_ok};
use crate::pipeline::spec_clean_ok;

verus! {

/// A filtered sequence holds exactly the members that satisfy the
/// predicate.
pub proof fn lemma_filter_membership<A>(s: Seq<A>, pred: spec_fn(A) -> bool, x: A)
    ensures
        s.filter(pred).contains(x) <==> s.contains(x) && pred(x),
    decreases s.len(),
{
    broadcast use vstd::prelude::Seq::lemma_filter_push;

    if s.len() > 0 {
        let pre = s.drop_last();
        lemma_filter_membership(pre, pred, x);
        assert(s =~= pre.push(s.last()));
        if pred(s.last()) {
            assert(s.filter(pred) =~= pre.filter(pred).push(s.last()));
            assert(s.filter(pred).last() == s.last());
            if s.filter(pred).contains(x) {
                let i = choose|i: int| 0 <= i < s.filter(pred).len() && s.filter(pred)[i] == x;
                if i < pre.filter(pred).len() {
                    assert(pre.filter(pred).contains(x));
                } else {
                    assert(x == s.last());
                }
            }
            if s.contains(x) && pred(x) {
                let i = choose|i: int| 0 <= i < s.len() && s[i] == x;
                if i < pre.len() {
                    assert(pre.contains(x));
                    assert(pre.filter(pred).contains(x));
                    let j = choose|j: int|
                        0 <= j < pre.filter(pred).len() && pre.filter(pred)[j] == x;
                    assert(s.filter(pred)[j] == x);
                } else {
                    assert(s.filter(pred).last() == x);
                }
            }
        } else {
            assert(s.filter(pred) =~= pre.filter(pred));
            if s.contains(x) && pred(x) {
                let i = choose|i: int| 0 <= i < s.len() && s[i] == x;
                if i < pre.len() {
                    assert(pre.contains(x));
                } else {
                    assert(x == s.last());
                    assert(false);
                }
            }
            if s.filter(pred).contains(x) {
                assert(pre.contains(x));
                let i = choose|i: int| 0 <= i < pre.len() && pre[i] == x;
                assert(s[i] == x);
            }
        }
    }
}

/// A raw row whose funding year does not read as a year inside the window
/// always draws a validation error, so it never validates and is never
/// cleaned: the pipeline drops it before any typed record exists.
pub proof fn lemma_validator_rejects_bad_year(r: RawRecord)
    requires
        !spec_year_ok(r.funding_year@),
    ensures
        spec_validation_errors(r).len() >= 1,
        !spec_record_valid(r),
        !spec_clean_ok(r),
{
    assert(spec_validation_errors(r).len() >= 1);
}

/// The year filter keeps exactly the records whose funding year lies in
/// the inclusive window: both boundary years stay, years outside go.
pub proof fn lemma_year_filter_membership(
    s: Seq<ProcessedRecord>,
    a: i32,
    b: i32,
    r: ProcessedRecord,
)
    ensures
        spec_year_filter(s, a, b).contains(r) <==> s.contains(r) && a <= r.funding_year
            && r.funding_year <= b,
{
    lemma_filter_membership(
        s,
        |x: ProcessedRecord| a <= x.funding_year && x.funding_year <= b,
        r,
    );
}

/// A contractor qualifies for the ranking exactly when it appears in the
/// dataset with at least five projects: four projects exclude it, five
/// include it.
pub proof fn lemma_contractor_threshold(s: Seq<ProcessedRecord>, k: Seq<char>)
    ensures
        r2_keys(s).contains(k) <==> distinct_keys(s, contractor_of()).contains(k) && key_group(
            s,
            contractor_of(),
            k,
        ).len() >= 5,
{
    lemma_filter_membership(
        distinct_keys(s, contractor_of()),
        |x: Seq<char>| key_group(s, contractor_of(), x).len() >= 5,
        k,
    );
}

} // verus!
