use vstd::prelude::*;

verus! {

/// How many verification units may run at once by default.
pub const DEFAULT_CEILING: u64 = 1000;

/// The admission gate's state: the ceiling, the tickets held, and the
/// waiters in the order in which they asked.
pub struct GateModel {
    pub ceiling: nat,
    pub outstanding: nat,
    pub waiting: Seq<u64>,
}

/// No more tickets are held than the ceiling allows.
pub open spec fn gate_ok(m: GateModel) -> bool {
    &&& m.ceiling > 0
    &&& m.outstanding <= m.ceiling
}

/// A request for a ticket: granted at once while fewer tickets than the
/// ceiling are held, else the requester joins the end of the queue.
pub open spec fn acquire_model(m: GateModel, waiter: u64) -> (GateModel, bool) {
    if m.outstanding < m.ceiling {
        (GateModel { outstanding: m.outstanding + 1, ..m }, true)
    } else {
        (GateModel { waiting: m.waiting.push(waiter), ..m }, false)
    }
}

/// A ticket given back: one ticket fewer is held and, if anyone waits,
/// exactly one waiter, the first, leaves the queue and is woken to ask again.
pub open spec fn release_model(m: GateModel) -> (GateModel, Option<u64>) {
    if m.waiting.len() > 0 {
        (
            GateModel {
                outstanding: (m.outstanding - 1) as nat,
                waiting: m.waiting.drop_first(),
                ..m
            },
            Some(m.waiting[0]),
        )
    } else {
        (GateModel { outstanding: (m.outstanding - 1) as nat, ..m }, None)
    }
}

/// One release followed by the repeated request of the waiter it woke, with
/// no other request between them.
pub open spec fn handoff(m: GateModel) -> GateModel {
    match release_model(m).1 {
        Some(w) => acquire_model(release_model(m).0, w).0,
        None => release_model(m).0,
    }
}

/// The state after `n` hand-offs in a row.
pub open spec fn handoff_times(m: GateModel, n: nat) -> GateModel
    decreases n,
{
    if n == 0 {
        m
    } else {
        handoff(handoff_times(m, (n - 1) as nat))
    }
}

/// The state after requests for `ids`, in order.
pub open spec fn acquire_all(m: GateModel, ids: Seq<u64>) -> GateModel
    decreases ids.len(),
{
    if ids.len() == 0 {
        m
    } else {
        acquire_model(acquire_all(m, ids.drop_last()), ids.last()).0
    }
}

/// A counting semaphore that bounds how many verification units run at
/// once. Waiters are named by the caller and woken in the order they asked.
pub struct AdmissionGate {
    ceiling: u64,
    outstanding: u64,
    waiting: Vec<u64>,
}

impl AdmissionGate {
    pub closed spec fn model(&self) -> GateModel {
        GateModel {
            ceiling: self.ceiling as nat,
            outstanding: self.outstanding as nat,
            waiting: self.waiting@,
        }
    }

    pub open spec fn well_formed(&self) -> bool {
        gate_ok(self.model())
    }

    /// An admission gate with no ticket held, allowing `ceiling` at once.
    pub fn new(ceiling: u64) -> (r: Self)
        requires
            ceiling > 0,
        ensures
            r.well_formed(),
            r.model() == (GateModel { ceiling: ceiling as nat, outstanding: 0, waiting: Seq::empty() }),
    {
        AdmissionGate { ceiling, outstanding: 0, waiting: Vec::new() }
    }

    /// The largest number of tickets held at once.
    pub fn ceiling(&self) -> (r: u64)
        ensures
            r == self.model().ceiling,
    {
        self.ceiling
    }

    /// The number of tickets held now.
    pub fn outstanding(&self) -> (r: u64)
        ensures
            r == self.model().outstanding,
    {
        self.outstanding
    }

    /// The number of requesters waiting for a ticket.
    pub fn waiting_count(&self) -> (r: usize)
        ensures
            r == self.model().waiting.len(),
    {
        self.waiting.len()
    }

    /// Asks for a ticket on behalf of `waiter`: `true` when it is granted
    /// now, `false` when `waiter` is queued until a release wakes it to ask
    /// again.
    pub fn acquire(&mut self, waiter: u64) -> (granted: bool)
        requires
            old(self).well_formed(),
        ensures
            final(self).well_formed(),
            (final(self).model(), granted) == acquire_model(old(self).model(), waiter),
    {
        if self.outstanding < self.ceiling {
            self.outstanding = self.outstanding + 1;
            true
        } else {
            self.waiting.push(waiter);
            false
        }
    }

    /// Gives a ticket back: one ticket fewer is held, and the longest
    /// waiter, if any, leaves the queue and is named so that it can be woken.
    pub fn release(&mut self) -> (woken: Option<u64>)
        requires
            old(self).well_formed(),
            old(self).model().outstanding > 0,
        ensures
            final(self).well_formed(),
            (final(self).model(), woken) == release_model(old(self).model()),
    {
        self.outstanding = self.outstanding - 1;
        if self.waiting.len() > 0 {
            let w = self.waiting.remove(0);
            proof {
                assert(self.waiting@ =~= old(self).waiting@.drop_first());
            }
            Some(w)
        } else {
            None
        }
    }
}

/// Every request and every release keeps the tickets held within the
/// ceiling; a release lowers their count by exactly one.
pub proof fn lemma_gate_stays_bounded(m: GateModel, waiter: u64)
    requires
        gate_ok(m),
    ensures
        gate_ok(acquire_model(m, waiter).0),
        acquire_model(m, waiter).0.outstanding <= m.ceiling,
        m.outstanding > 0 ==> gate_ok(release_model(m).0),
        m.outstanding > 0 ==> release_model(m).0.outstanding == m.outstanding - 1,
{
}

/// A run of hand-offs from a full admission gate keeps every ticket held and
/// serves the waiters in the order they asked.
proof fn lemma_handoff_run(m: GateModel, n: nat)
    requires
        gate_ok(m),
        m.outstanding == m.ceiling,
        n <= m.waiting.len(),
    ensures
        handoff_times(m, n) == (GateModel { waiting: m.waiting.skip(n as int), ..m }),
    decreases n,
{
    if n > 0 {
        lemma_handoff_run(m, (n - 1) as nat);
        let prev = handoff_times(m, (n - 1) as nat);
        assert(prev.waiting.drop_first() =~= m.waiting.skip(n as int));
    } else {
        assert(m.waiting.skip(0) =~= m.waiting);
    }
}

/// No waiter starves once requests stop arriving: from a full admission
/// gate, the waiter in place `k` of the queue is woken by the `k + 1`-th
/// release, when each earlier woken waiter has asked again, and its own
/// repeated request is granted.
pub proof fn lemma_waiter_admitted(m: GateModel, k: nat)
    requires
        gate_ok(m),
        m.outstanding == m.ceiling,
        k < m.waiting.len(),
    ensures
        release_model(handoff_times(m, k)).1 == Some(m.waiting[k as int]),
        acquire_model(release_model(handoff_times(m, k)).0, m.waiting[k as int]).1,
        handoff_times(m, k + 1).outstanding == m.ceiling,
        gate_ok(handoff_times(m, k + 1)),
{
    lemma_handoff_run(m, k);
    lemma_handoff_run(m, k + 1);
}

/// With a ceiling of `n`, `n + extra` requests on a fresh admission gate
/// admit `n` and queue the rest in order; `extra` hand-offs then admit every
/// one of them, with `n` tickets held and nobody left waiting.
pub proof fn lemma_batch_admission(n: nat, extra: nat, ids: Seq<u64>)
    requires
        n > 0,
        ids.len() == n + extra,
    ensures
        ({
            let fresh = GateModel { ceiling: n, outstanding: 0, waiting: Seq::empty() };
            &&& gate_ok(acquire_all(fresh, ids))
            &&& acquire_all(fresh, ids).outstanding == n
            &&& acquire_all(fresh, ids).waiting == ids.skip(n as int)
            &&& handoff_times(acquire_all(fresh, ids), extra).waiting.len() == 0
            &&& handoff_times(acquire_all(fresh, ids), extra).outstanding == n
        }),
{
    let fresh = GateModel { ceiling: n, outstanding: 0, waiting: Seq::empty() };
    lemma_acquire_all(fresh, ids);
    lemma_handoff_run(acquire_all(fresh, ids), extra);
}

proof fn lemma_acquire_all(m: GateModel, ids: Seq<u64>)
    requires
        gate_ok(m),
        m.outstanding == 0,
        m.waiting.len() == 0,
    ensures
        gate_ok(acquire_all(m, ids)),
        acquire_all(m, ids).ceiling == m.ceiling,
        ids.len() <= m.ceiling ==> acquire_all(m, ids).outstanding == ids.len()
            && acquire_all(m, ids).waiting.len() == 0,
        ids.len() >= m.ceiling ==> acquire_all(m, ids).outstanding == m.ceiling
            && acquire_all(m, ids).waiting == ids.skip(m.ceiling as int),
    decreases ids.len(),
{
    if ids.len() > 0 {
        lemma_acquire_all(m, ids.drop_last());
        if ids.len() > m.ceiling {
            assert(ids.drop_last().skip(m.ceiling as int).push(ids.last()) =~= ids.skip(
                m.ceiling as int,
            ));
        } else if ids.len() == m.ceiling {
            assert(ids.skip(m.ceiling as int) =~= Seq::<u64>::empty());
        }
    }
}

} // verus!
