use vstd::prelude::*;

verus! {

/// How one verification unit ended.
#[derive(Debug, Clone, Copy, PartialEq, Eq, Structural)]
pub enum UnitOutcome {
    /// The probe reached the endpoint.
    Reachable,
    /// The probe failed: refused, timed out, or the endpoint did not parse.
    Unreachable,
    /// The configuration never named both directives; nothing was probed.
    NoEndpoint,
    /// The configuration could not be opened or read.
    ContentError,
}

/// The outcome of a unit: `None` when its configuration yielded no
/// endpoint, so nothing was probed, else whether the probe reached it.
pub open spec fn outcome_spec(probed: Option<bool>) -> UnitOutcome {
    match probed {
        None => UnitOutcome::NoEndpoint,
        Some(true) => UnitOutcome::Reachable,
        Some(false) => UnitOutcome::Unreachable,
    }
}

/// How a unit whose configuration was read ended, from the result of its
/// probe, or `None` when there was no endpoint to probe.
pub fn outcome_of(probed: Option<bool>) -> (r: UnitOutcome)
    ensures
        r == outcome_spec(probed),
{
    match probed {
        None => UnitOutcome::NoEndpoint,
        Some(true) => UnitOutcome::Reachable,
        Some(false) => UnitOutcome::Unreachable,
    }
}

/// The totals of a batch and the units that succeeded, by their place in
/// the batch.
#[derive(Debug, Clone, PartialEq, Eq)]
pub struct BatchReport {
    pub total: usize,
    pub successful: usize,
    pub succeeded: Vec<usize>,
}

/// The places of the reachable units, in order.
pub open spec fn success_indices(s: Seq<UnitOutcome>) -> Seq<usize>
    decreases s.len(),
{
    if s.len() == 0 {
        Seq::empty()
    } else {
        let before = success_indices(s.drop_last());
        if s.last() == UnitOutcome::Reachable {
            before.push((s.len() - 1) as usize)
        } else {
            before
        }
    }
}

/// Tallies the outcomes of a batch: every unit counts as attempted, and the
/// reachable ones, and only they, count as successful.
pub fn tally_outcomes(outcomes: &[UnitOutcome]) -> (r: BatchReport)
    ensures
        r.total == outcomes.len(),
        r.succeeded@ == success_indices(outcomes@),
        r.successful == r.succeeded.len(),
{
    let mut succeeded: Vec<usize> = Vec::new();
    let mut i: usize = 0;
    while i < outcomes.len()
        invariant
            i <= outcomes.len(),
            succeeded@ == success_indices(outcomes@.take(i as int)),
            succeeded.len() <= i,
        decreases outcomes.len() - i,
    {
        proof {
            assert(outcomes@.take(i + 1).drop_last() =~= outcomes@.take(i as int));
        }
        if outcomes[i] == UnitOutcome::Reachable {
            succeeded.push(i);
        }
        i = i + 1;
    }
    proof {
        assert(outcomes@.take(i as int) =~= outcomes@);
    }
    let successful = succeeded.len();
    BatchReport { total: outcomes.len(), successful, succeeded }
}

/// A place is listed as a success exactly when that unit was reachable.
pub proof fn lemma_success_indices(s: Seq<UnitOutcome>, j: usize)
    requires
        s.len() <= usize::MAX,
    ensures
        success_indices(s).contains(j) <==> j < s.len() && s[j as int] == UnitOutcome::Reachable,
    decreases s.len(),
{
    if s.len() > 0 {
        let p = s.drop_last();
        let q = success_indices(p);
        lemma_success_indices(p, j);
        lemma_indices_below(p);
        if j < s.len() - 1 {
            assert(p[j as int] == s[j as int]);
        }
        if s.last() == UnitOutcome::Reachable {
            let last = (s.len() - 1) as usize;
            let q2 = q.push(last);
            assert(q2[q.len() as int] == last);
            if q2.contains(j) {
                let k = choose|k: int| 0 <= k < q2.len() && q2[k] == j;
                if k < q.len() {
                    assert(q[k] == j);
                }
            }
            if q.contains(j) {
                let k = choose|k: int| 0 <= k < q.len() && q[k] == j;
                assert(q2[k] == j);
            }
        } else if q.contains(j) {
            let k = choose|k: int| 0 <= k < q.len() && q[k] == j;
            assert(q[k] < p.len());
        }
    }
}

/// Every listed place lies within the batch.
proof fn lemma_indices_below(s: Seq<UnitOutcome>)
    requires
        s.len() <= usize::MAX,
    ensures
        forall|k: int|
            0 <= k < success_indices(s).len() ==> (#[trigger] success_indices(s)[k]) < s.len(),
    decreases s.len(),
{
    if s.len() > 0 {
        let p = s.drop_last();
        lemma_indices_below(p);
        let q = success_indices(p);
        if s.last() == UnitOutcome::Reachable {
            assert forall|k: int| 0 <= k < q.len() + 1 implies (#[trigger] q.push(
                (s.len() - 1) as usize,
            )[k]) < s.len() by {
                if k < q.len() {
                    assert(q[k] < p.len());
                }
            }
        }
    }
}

/// A unit that fails, even for want of its content, leaves the rest of the
/// batch alone: the batch keeps its size, that unit is no success, and every
/// other unit is a success exactly as before.
pub proof fn lemma_failure_isolated(s: Seq<UnitOutcome>, i: int, failure: UnitOutcome)
    requires
        s.len() <= usize::MAX,
        0 <= i < s.len(),
        failure != UnitOutcome::Reachable,
    ensures
        s.update(i, failure).len() == s.len(),
        !success_indices(s.update(i, failure)).contains(i as usize),
        forall|j: int|
            0 <= j < s.len() && j != i ==> (success_indices(s.update(i, failure)).contains(
                j as usize,
            ) <==> #[trigger] success_indices(s).contains(j as usize)),
{
    let t = s.update(i, failure);
    lemma_success_indices(t, i as usize);
    assert forall|j: int| 0 <= j < s.len() && j != i implies (success_indices(t).contains(
        j as usize,
    ) <==> #[trigger] success_indices(s).contains(j as usize)) by {
        lemma_success_indices(t, j as usize);
        lemma_success_indices(s, j as usize);
    }
}

} // verus!
