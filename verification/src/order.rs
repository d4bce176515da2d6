//! The canonical order on scan results, a verified sort, and the laws that
//! make the published sequence deterministic.
//!
//! Rated entries come first, in descending order of their value; ties and all
//! entries without a value are broken by path, ascending; scanned failures
//! (`Error`) precede unscanned files (`Pending`).

use vstd::prelude::*;
use vstd::seq_lib::group_to_multiset_ensures;
use vstd::multiset::{group_multiset_axioms, Multiset};
use crate::outcome::{AnalysisOutcome, ScanResult};
use crate::text::{chars_le, chars_lt, lemma_chars_lt_trans, lemma_chars_lt_trichotomy, str_lt};

verus! {

broadcast use group_to_multiset_ensures, group_multiset_axioms;

/// The coarse sort group of an outcome: rated entries first, then scanned
/// failures, then files not yet scanned.
pub open spec fn outcome_group(o: AnalysisOutcome) -> int {
    match o {
        AnalysisOutcome::Rated(_) => 0,
        AnalysisOutcome::Error => 1,
        AnalysisOutcome::Pending => 2,
    }
}

/// The rating carried by an outcome, for comparisons within the rated group.
pub open spec fn rated_value(o: AnalysisOutcome) -> int {
    match o {
        AnalysisOutcome::Rated(v) => v as int,
        _ => 0,
    }
}

/// Strict canonical order: group, then rating descending, then path
/// ascending.
pub open spec fn result_lt(a: ScanResult, b: ScanResult) -> bool {
    let ga = outcome_group(a.outcome);
    let gb = outcome_group(b.outcome);
    if ga != gb {
        ga < gb
    } else if rated_value(a.outcome) != rated_value(b.outcome) {
        rated_value(a.outcome) > rated_value(b.outcome)
    } else {
        chars_lt(a.path@, b.path@)
    }
}

/// Non-strict canonical order.
pub open spec fn result_le(a: ScanResult, b: ScanResult) -> bool {
    let ga = outcome_group(a.outcome);
    let gb = outcome_group(b.outcome);
    if ga != gb {
        ga < gb
    } else if rated_value(a.outcome) != rated_value(b.outcome) {
        rated_value(a.outcome) > rated_value(b.outcome)
    } else {
        chars_le(a.path@, b.path@)
    }
}

/// A batch in canonical order.
pub open spec fn results_sorted(s: Seq<ScanResult>) -> bool {
    forall|i: int, j: int| 0 <= i < j < s.len() ==> result_le(s[i], s[j])
}

/// No two entries share a path.
pub open spec fn paths_distinct(s: Seq<ScanResult>) -> bool {
    forall|i: int, j: int| 0 <= i < j < s.len() ==> s[i].path@ != s[j].path@
}

/// The canonical order never puts a result strictly before itself.
pub proof fn lemma_result_lt_irreflexive(a: ScanResult)
    ensures
        !result_lt(a, a),
{
    lemma_chars_lt_trichotomy(a.path@, a.path@);
}

/// Law: the canonical order is a strict total order — of two results with
/// distinct paths, exactly one strictly precedes the other.
pub proof fn lemma_result_order_total(a: ScanResult, b: ScanResult)
    requires
        a.path@ != b.path@,
    ensures
        result_lt(a, b) <==> !result_lt(b, a),
{
    lemma_chars_lt_trichotomy(a.path@, b.path@);
}

/// The non-strict order holds in at least one direction between any two
/// results.
pub proof fn lemma_result_le_connected(a: ScanResult, b: ScanResult)
    ensures
        result_le(a, b) || result_le(b, a),
{
    lemma_chars_lt_trichotomy(a.path@, b.path@);
}

/// The non-strict order is reflexive.
pub proof fn lemma_result_le_refl(a: ScanResult)
    ensures
        result_le(a, a),
{
}

/// The non-strict order is transitive.
pub proof fn lemma_result_le_trans(a: ScanResult, b: ScanResult, c: ScanResult)
    requires
        result_le(a, b),
        result_le(b, c),
    ensures
        result_le(a, c),
{
    let ga = outcome_group(a.outcome);
    let gb = outcome_group(b.outcome);
    let gc = outcome_group(c.outcome);
    if ga == gb && gb == gc && rated_value(a.outcome) == rated_value(b.outcome) && rated_value(
        b.outcome,
    ) == rated_value(c.outcome) {
        if chars_lt(a.path@, b.path@) && chars_lt(b.path@, c.path@) {
            lemma_chars_lt_trans(a.path@, b.path@, c.path@);
        }
    }
}

/// Results that precede each other weakly in both directions share a path.
pub proof fn lemma_result_le_antisym_paths(a: ScanResult, b: ScanResult)
    requires
        result_le(a, b),
        result_le(b, a),
    ensures
        a.path@ == b.path@,
        a.outcome == b.outcome || (a.outcome is Error && b.outcome is Error) || (a.outcome
            is Pending && b.outcome is Pending),
{
    lemma_chars_lt_trichotomy(a.path@, b.path@);
}

fn outcome_group_exec(o: &AnalysisOutcome) -> (g: u8)
    ensures
        g as int == outcome_group(*o),
{
    match o {
        AnalysisOutcome::Rated(_) => 0,
        AnalysisOutcome::Error => 1,
        AnalysisOutcome::Pending => 2,
    }
}

/// Decides the canonical non-strict order between two results.
pub fn result_le_exec(a: &ScanResult, b: &ScanResult) -> (r: bool)
    ensures
        r == result_le(*a, *b),
{
    let ga = outcome_group_exec(&a.outcome);
    let gb = outcome_group_exec(&b.outcome);
    if ga != gb {
        ga < gb
    } else {
        let va: u8 = match a.outcome {
            AnalysisOutcome::Rated(v) => v,
            _ => 0,
        };
        let vb: u8 = match b.outcome {
            AnalysisOutcome::Rated(v) => v,
            _ => 0,
        };
        if va != vb {
            va > vb
        } else {
            let r = !str_lt(b.path.as_str(), a.path.as_str());
            proof {
                lemma_chars_lt_trichotomy(a.path@, b.path@);
            }
            r
        }
    }
}

fn min_index(v: &Vec<ScanResult>) -> (m: usize)
    requires
        v@.len() > 0,
    ensures
        m < v@.len(),
        forall|q: int| 0 <= q < v@.len() ==> result_le(v@[m as int], v@[q]),
{
    let mut m: usize = 0;
    let mut j: usize = 1;
    proof {
        lemma_result_le_refl(v@[0]);
    }
    while j < v.len()
        invariant
            m < j <= v@.len(),
            forall|q: int| 0 <= q < j ==> result_le(v@[m as int], v@[q]),
        decreases v@.len() - j,
    {
        if result_le_exec(&v[j], &v[m]) {
            proof {
                assert forall|q: int| 0 <= q < j + 1 implies result_le(v@[j as int], v@[q]) by {
                    if q < j {
                        lemma_result_le_trans(v@[j as int], v@[m as int], v@[q]);
                    } else {
                        lemma_result_le_refl(v@[j as int]);
                    }
                }
            }
            m = j;
        } else {
            proof {
                lemma_result_le_connected(v@[j as int], v@[m as int]);
                lemma_result_le_refl(v@[j as int]);
            }
        }
        j = j + 1;
    }
    m
}

/// Sorts a batch into the canonical order. The output is a permutation of
/// the input (the same results, as a multiset), arranged so that every pair
/// respects the canonical order.
pub fn sort_results(input: Vec<ScanResult>) -> (out: Vec<ScanResult>)
    ensures
        results_sorted(out@),
        out@.to_multiset() == input@.to_multiset(),
{
    let mut rest = input;
    let ghost orig: Seq<ScanResult> = rest@;
    let mut out: Vec<ScanResult> = Vec::new();
    while rest.len() > 0
        invariant
            results_sorted(out@),
            out@.to_multiset().add(rest@.to_multiset()) =~= orig.to_multiset(),
            forall|p: int, q: int|
                0 <= p < out@.len() && 0 <= q < rest@.len() ==> result_le(out@[p], rest@[q]),
        decreases rest@.len(),
    {
        let ghost old_out = out@;
        let ghost old_rest = rest@;
        let m = min_index(&rest);
        let x = rest.remove(m);
        out.push(x);
        proof {
            assert(out@ == old_out.push(x));
            assert(rest@ == old_rest.remove(m as int));
            assert(out@.to_multiset() =~= old_out.to_multiset().insert(x));
            assert(rest@.to_multiset() =~= old_rest.to_multiset().remove(x));
            assert(old_rest.contains(x));
            assert(old_rest.to_multiset().count(x) > 0);
            assert(out@.to_multiset().add(rest@.to_multiset()) =~= orig.to_multiset());
            assert forall|i: int, j: int| 0 <= i < j < out@.len() implies result_le(
                out@[i],
                out@[j],
            ) by {
                if j == out@.len() - 1 {
                    assert(out@[j] == x);
                    assert(result_le(old_out[i], old_rest[m as int]));
                }
            }
            assert forall|p: int, q: int|
                0 <= p < out@.len() && 0 <= q < rest@.len() implies result_le(
                out@[p],
                rest@[q],
            ) by {
                let qq = if q < m { q } else { q + 1 };
                assert(rest@[q] == old_rest[qq]);
                if p < out@.len() - 1 {
                    assert(result_le(old_out[p], old_rest[qq]));
                } else {
                    assert(out@[p] == x);
                    assert(result_le(old_rest[m as int], old_rest[qq]));
                }
            }
        }
    }
    proof {
        assert(rest@.to_multiset() =~= Multiset::<ScanResult>::empty());
        assert(out@.to_multiset() =~= orig.to_multiset());
    }
    out
}

/// Law: the canonical order determines the published sequence uniquely. Any
/// two sorted arrangements of the same results, with no path occurring
/// twice, are the same sequence; in particular, sorting an already sorted
/// batch reproduces it exactly, so sorting is idempotent.
pub proof fn lemma_sorted_permutation_unique(x: Seq<ScanResult>, y: Seq<ScanResult>)
    requires
        results_sorted(x),
        results_sorted(y),
        x.to_multiset() == y.to_multiset(),
        paths_distinct(x),
    ensures
        x == y,
    decreases x.len(),
{
    assert(x.len() == y.len()) by {
        assert(x.to_multiset().len() == x.len());
        assert(y.to_multiset().len() == y.len());
    }
    if x.len() == 0 {
        assert(x =~= y);
    } else {
        assert(y.contains(y[0]));
        assert(y.to_multiset().count(y[0]) > 0);
        assert(x.to_multiset().count(y[0]) > 0);
        assert(x.contains(y[0]));
        let i = choose|i: int| 0 <= i < x.len() && x[i] == y[0];
        assert(x.contains(x[0]));
        assert(x.to_multiset().count(x[0]) > 0);
        assert(y.to_multiset().count(x[0]) > 0);
        assert(y.contains(x[0]));
        let j = choose|j: int| 0 <= j < y.len() && y[j] == x[0];
        assert(result_le(x[0], y[0])) by {
            if i != 0 {
                assert(result_le(x[0], x[i]));
            } else {
                lemma_result_le_refl(x[0]);
            }
        }
        assert(result_le(y[0], x[0])) by {
            if j != 0 {
                assert(result_le(y[0], y[j]));
            } else {
                lemma_result_le_refl(y[0]);
            }
        }
        lemma_result_le_antisym_paths(x[0], y[0]);
        assert(i == 0) by {
            if i != 0 {
                assert(x[0].path@ != x[i].path@);
            }
        }
        assert(x[0] == y[0]);
        assert(x.drop_first().to_multiset() == y.drop_first().to_multiset()) by {
            assert(x.remove(0) =~= x.drop_first());
            assert(y.remove(0) =~= y.drop_first());
            assert(x.remove(0).to_multiset() =~= x.to_multiset().remove(x[0]));
            assert(y.remove(0).to_multiset() =~= y.to_multiset().remove(y[0]));
            assert(x.drop_first().to_multiset() =~= y.drop_first().to_multiset());
        }
        assert(results_sorted(x.drop_first())) by {
            assert forall|p: int, q: int|
                0 <= p < q < x.drop_first().len() implies result_le(
                x.drop_first()[p],
                x.drop_first()[q],
            ) by {
                assert(x.drop_first()[p] == x[p + 1]);
                assert(x.drop_first()[q] == x[q + 1]);
            }
        }
        assert(results_sorted(y.drop_first())) by {
            assert forall|p: int, q: int|
                0 <= p < q < y.drop_first().len() implies result_le(
                y.drop_first()[p],
                y.drop_first()[q],
            ) by {
                assert(y.drop_first()[p] == y[p + 1]);
                assert(y.drop_first()[q] == y[q + 1]);
            }
        }
        assert(paths_distinct(x.drop_first())) by {
            assert forall|p: int, q: int|
                0 <= p < q < x.drop_first().len() implies x.drop_first()[p].path@
                != x.drop_first()[q].path@ by {
                assert(x.drop_first()[p] == x[p + 1]);
                assert(x.drop_first()[q] == x[q + 1]);
            }
        }
        lemma_sorted_permutation_unique(x.drop_first(), y.drop_first());
        assert forall|p: int| 0 <= p < x.len() implies x[p] == y[p] by {
            if p > 0 {
                assert(x[p] == x.drop_first()[p - 1]);
                assert(y[p] == y.drop_first()[p - 1]);
            }
        }
        assert(x =~= y);
    }
}

} // verus!
