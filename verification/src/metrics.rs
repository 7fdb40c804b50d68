//! Grouping and per-group metric extraction shared by the report
//! generators: distinct keys in first-appearance order, the group a key
//! selects, and the metric sequences drawn from a group.

use vstd::prelude::*;
use crate::numbers::FX_LIMIT;
use crate::records::{ProcessedRecord, all_wf, copy_record, DELAY_LIMIT};
use crate::text::str_eq;

verus! {

/// The distinct values of `keyf` over `s`, in order of first appearance.
pub open spec fn distinct_keys(
    s: Seq<ProcessedRecord>,
    keyf: spec_fn(ProcessedRecord) -> Seq<char>,
) -> Seq<Seq<char>>
    decreases s.len(),
{
    if s.len() == 0 {
        Seq::<Seq<char>>::empty()
    } else {
        let rest = distinct_keys(s.drop_last(), keyf);
        if rest.contains(keyf(s.last())) {
            rest
        } else {
            rest.push(keyf(s.last()))
        }
    }
}

/// The records of `s` whose key is `k`, in order.
pub open spec fn key_group(
    s: Seq<ProcessedRecord>,
    keyf: spec_fn(ProcessedRecord) -> Seq<char>,
    k: Seq<char>,
) -> Seq<ProcessedRecord> {
    s.filter(|r: ProcessedRecord| keyf(r) == k)
}

/// Whether some element of `v` reads as `s`.
pub fn contains_str(v: &Vec<String>, s: &str) -> (r: bool)
    ensures
        r == v@.map_values(|x: String| x@).contains(s@),
{
    let n: usize = v.len();
    let mut i: usize = 0;
    while i < n
        invariant
            i <= n,
            n == v@.len(),
            forall|k: int| 0 <= k < i ==> (#[trigger] v@[k])@ != s@,
        decreases n - i,
    {
        if str_eq(v[i].as_str(), s) {
            proof {
                assert(v@.map_values(|x: String| x@)[i as int] == s@);
            }
            return true;
        }
        i += 1;
    }
    proof {
        let m = v@.map_values(|x: String| x@);
        assert(forall|k: int| 0 <= k < m.len() ==> m[k] != s@);
    }
    false
}

/// The cost savings of each record, in order.
pub open spec fn savings_of(s: Seq<ProcessedRecord>) -> Seq<i64> {
    s.map_values(|r: ProcessedRecord| r.cost_savings)
}

/// The approved budget of each record, in order.
pub open spec fn budgets_of(s: Seq<ProcessedRecord>) -> Seq<i64> {
    s.map_values(|r: ProcessedRecord| r.approved_budget_for_contract)
}

/// The contract cost of each record, in order.
pub open spec fn costs_of(s: Seq<ProcessedRecord>) -> Seq<i64> {
    s.map_values(|r: ProcessedRecord| r.contract_cost)
}

/// The present completion delays, in record order.
pub open spec fn delays_of(s: Seq<ProcessedRecord>) -> Seq<i64> {
    s.filter(|r: ProcessedRecord| r.completion_delay_days is Some).map_values(
        |r: ProcessedRecord| r.completion_delay_days.unwrap(),
    )
}

/// Extracts the savings column of a group.
pub fn savings_vec(recs: &Vec<ProcessedRecord>) -> (v: Vec<i64>)
    requires
        all_wf(recs@),
    ensures
        v@ == savings_of(recs@),
        forall|k: int| 0 <= k < v@.len() ==> -2 * FX_LIMIT <= #[trigger] v@[k] <= 2 * FX_LIMIT,
{
    let n: usize = recs.len();
    let mut v: Vec<i64> = Vec::new();
    let mut i: usize = 0;
    proof {
        assert(v@ =~= savings_of(recs@.subrange(0, 0)));
    }
    while i < n
        invariant
            i <= n,
            n == recs@.len(),
            all_wf(recs@),
            v@ == savings_of(recs@.subrange(0, i as int)),
            forall|k: int| 0 <= k < v@.len() ==> -2 * FX_LIMIT <= #[trigger] v@[k] <= 2
                * FX_LIMIT,
        decreases n - i,
    {
        v.push(recs[i].cost_savings);
        proof {
            assert(savings_of(recs@.subrange(0, i + 1)) =~= savings_of(
                recs@.subrange(0, i as int),
            ).push(recs@[i as int].cost_savings));
        }
        i += 1;
    }
    proof {
        assert(recs@.subrange(0, n as int) =~= recs@);
    }
    v
}

/// Extracts the budget column of a group.
pub fn budgets_vec(recs: &Vec<ProcessedRecord>) -> (v: Vec<i64>)
    requires
        all_wf(recs@),
    ensures
        v@ == budgets_of(recs@),
        forall|k: int| 0 <= k < v@.len() ==> -FX_LIMIT <= #[trigger] v@[k] <= FX_LIMIT,
{
    let n: usize = recs.len();
    let mut v: Vec<i64> = Vec::new();
    let mut i: usize = 0;
    proof {
        assert(v@ =~= budgets_of(recs@.subrange(0, 0)));
    }
    while i < n
        invariant
            i <= n,
            n == recs@.len(),
            all_wf(recs@),
            v@ == budgets_of(recs@.subrange(0, i as int)),
            forall|k: int| 0 <= k < v@.len() ==> -FX_LIMIT <= #[trigger] v@[k] <= FX_LIMIT,
        decreases n - i,
    {
        v.push(recs[i].approved_budget_for_contract);
        proof {
            assert(budgets_of(recs@.subrange(0, i + 1)) =~= budgets_of(
                recs@.subrange(0, i as int),
            ).push(recs@[i as int].approved_budget_for_contract));
        }
        i += 1;
    }
    proof {
        assert(recs@.subrange(0, n as int) =~= recs@);
    }
    v
}

/// Extracts the contract-cost column of a group.
pub fn costs_vec(recs: &Vec<ProcessedRecord>) -> (v: Vec<i64>)
    requires
        all_wf(recs@),
    ensures
        v@ == costs_of(recs@),
        forall|k: int| 0 <= k < v@.len() ==> -FX_LIMIT <= #[trigger] v@[k] <= FX_LIMIT,
{
    let n: usize = recs.len();
    let mut v: Vec<i64> = Vec::new();
    let mut i: usize = 0;
    proof {
        assert(v@ =~= costs_of(recs@.subrange(0, 0)));
    }
    while i < n
        invariant
            i <= n,
            n == recs@.len(),
            all_wf(recs@),
            v@ == costs_of(recs@.subrange(0, i as int)),
            forall|k: int| 0 <= k < v@.len() ==> -FX_LIMIT <= #[trigger] v@[k] <= FX_LIMIT,
        decreases n - i,
    {
        v.push(recs[i].contract_cost);
        proof {
            assert(costs_of(recs@.subrange(0, i + 1)) =~= costs_of(
                recs@.subrange(0, i as int),
            ).push(recs@[i as int].contract_cost));
        }
        i += 1;
    }
    proof {
        assert(recs@.subrange(0, n as int) =~= recs@);
    }
    v
}

/// Extracts the present delays of a group.
pub fn delays_vec(recs: &Vec<ProcessedRecord>) -> (v: Vec<i64>)
    requires
        all_wf(recs@),
    ensures
        v@ == delays_of(recs@),
        forall|k: int| 0 <= k < v@.len() ==> -DELAY_LIMIT <= #[trigger] v@[k] <= DELAY_LIMIT,
{
    let n: usize = recs.len();
    let mut v: Vec<i64> = Vec::new();
    let mut i: usize = 0;
    proof {
        broadcast use vstd::prelude::Seq::lemma_filter_push;

        assert(recs@.subrange(0, 0) =~= Seq::<ProcessedRecord>::empty());
        assert(v@ =~= delays_of(recs@.subrange(0, 0)));
    }
    while i < n
        invariant
            i <= n,
            n == recs@.len(),
            all_wf(recs@),
            v@ == delays_of(recs@.subrange(0, i as int)),
            forall|k: int| 0 <= k < v@.len() ==> -DELAY_LIMIT <= #[trigger] v@[k] <= DELAY_LIMIT,
        decreases n - i,
    {
        let rec = &recs[i];
        proof {
            broadcast use vstd::prelude::Seq::lemma_filter_push;

            let ghost pre = recs@.subrange(0, i as int);
            let ghost rj = recs@[i as int];
            assert(recs@.subrange(0, i + 1) =~= pre.push(rj));
            let ghost pred = |r: ProcessedRecord| r.completion_delay_days is Some;
            let ghost f = |r: ProcessedRecord| r.completion_delay_days.unwrap();
            if pred(rj) {
                assert(pre.push(rj).filter(pred).map_values(f) =~= pre.filter(pred).map_values(
                    f,
                ).push(f(rj)));
            } else {
                assert(pre.push(rj).filter(pred).map_values(f) =~= pre.filter(pred).map_values(f));
            }
        }
        match rec.completion_delay_days {
            Some(d) => {
                v.push(d);
            },
            None => {},
        }
        i += 1;
    }
    proof {
        assert(recs@.subrange(0, n as int) =~= recs@);
    }
    v
}

/// How many delays exceed thirty days.
pub fn count_over_30(delays: &Vec<i64>) -> (r: usize)
    ensures
        r == delays@.filter(|d: i64| d > 30).len(),
        r <= delays@.len(),
{
    let n: usize = delays.len();
    let mut count: usize = 0;
    let mut i: usize = 0;
    proof {
        broadcast use vstd::prelude::Seq::lemma_filter_push;
        broadcast use vstd::prelude::Seq::lemma_filter_len_push;

        assert(delays@.subrange(0, 0) =~= Seq::<i64>::empty());
        assert(delays@.subrange(0, 0).filter(|d: i64| d > 30).len() == 0);
    }
    while i < n
        invariant
            i <= n,
            n == delays@.len(),
            count <= i,
            count == delays@.subrange(0, i as int).filter(|d: i64| d > 30).len(),
        decreases n - i,
    {
        proof {
            broadcast use vstd::prelude::Seq::lemma_filter_push;

            let ghost pre = delays@.subrange(0, i as int);
            assert(delays@.subrange(0, i + 1) =~= pre.push(delays@[i as int]));
        }
        if delays[i] > 30 {
            count += 1;
        }
        i += 1;
    }
    proof {
        assert(delays@.subrange(0, n as int) =~= delays@);
    }
    count
}

/// How many savings are negative (overruns).
pub fn count_negative(savings: &Vec<i64>) -> (r: usize)
    ensures
        r == savings@.filter(|d: i64| d < 0).len(),
        r <= savings@.len(),
{
    let n: usize = savings.len();
    let mut count: usize = 0;
    let mut i: usize = 0;
    proof {
        broadcast use vstd::prelude::Seq::lemma_filter_push;

        assert(savings@.subrange(0, 0) =~= Seq::<i64>::empty());
        assert(savings@.subrange(0, 0).filter(|d: i64| d < 0).len() == 0);
    }
    while i < n
        invariant
            i <= n,
            n == savings@.len(),
            count <= i,
            count == savings@.subrange(0, i as int).filter(|d: i64| d < 0).len(),
        decreases n - i,
    {
        proof {
            broadcast use vstd::prelude::Seq::lemma_filter_push;

            let ghost pre = savings@.subrange(0, i as int);
            assert(savings@.subrange(0, i + 1) =~= pre.push(savings@[i as int]));
        }
        if savings[i] < 0 {
            count += 1;
        }
        i += 1;
    }
    proof {
        assert(savings@.subrange(0, n as int) =~= savings@);
    }
    count
}

} // verus!
