use vstd::prelude::*;
use crate::outcome::{Outcome, ProbeResult};

verus! {

/// Where one target of a run stands.
#[derive(Debug, PartialEq, Eq)]
pub enum Slot {
    /// Not yet handed to a probing unit.
    Waiting,
    /// Handed to a probing unit, whose result has not come back.
    Running,
    /// Its result has been collected.
    Done { outcome: Outcome, elapsed_ns: u64 },
}

/// The number of targets that are being probed.
pub open spec fn count_running(s: Seq<Slot>) -> nat
    decreases s.len(),
{
    if s.len() == 0 {
        0
    } else {
        count_running(s.drop_last()) + if s.last() is Running {
            1nat
        } else {
            0nat
        }
    }
}

/// Every target's result has been collected.
pub open spec fn all_done(s: Seq<Slot>) -> bool {
    forall|i: int| 0 <= i < s.len() ==> #[trigger] s[i] is Done
}

/// `running` units in flight stay within the limit (none: unbounded).
pub open spec fn within_limit(limit: Option<u64>, running: nat) -> bool {
    match limit {
        Some(l) => running <= l,
        None => true,
    }
}

/// One more unit may start beside `running` others.
pub open spec fn may_launch(limit: Option<u64>, running: nat) -> bool {
    match limit {
        Some(l) => running < l,
        None => true,
    }
}

/// The message of the outcome recorded for a target whose unit crashed.
pub open spec fn crash_message() -> Seq<char> {
    "probing unit crashed before reporting"@
}

proof fn lemma_count_running_update(s: Seq<Slot>, i: int, v: Slot)
    requires
        0 <= i < s.len(),
    ensures
        count_running(s.update(i, v)) == count_running(s) - (if s[i] is Running {
            1int
        } else {
            0int
        }) + (if v is Running {
            1int
        } else {
            0int
        }),
    decreases s.len(),
{
    let t = s.update(i, v);
    if i == s.len() - 1 {
        assert(t.drop_last() =~= s.drop_last());
    } else {
        assert(t.drop_last() =~= s.drop_last().update(i, v));
        lemma_count_running_update(s.drop_last(), i, v);
    }
}

proof fn lemma_count_running_zero(s: Seq<Slot>)
    ensures
        count_running(s) == 0 <==> forall|i: int| 0 <= i < s.len() ==> !(#[trigger] s[i] is Running),
    decreases s.len(),
{
    if s.len() > 0 {
        let t = s.drop_last();
        lemma_count_running_zero(t);
        if forall|i: int| 0 <= i < s.len() ==> !(#[trigger] s[i] is Running) {
            assert(!(s[s.len() - 1] is Running));
            assert forall|i: int| 0 <= i < t.len() implies !(#[trigger] t[i] is Running) by {
                assert(!(s[i] is Running));
            }
        }
        if count_running(s) == 0 {
            assert forall|i: int| 0 <= i < s.len() implies !(#[trigger] s[i] is Running) by {
                if i < t.len() {
                    assert(t[i] == s[i]);
                }
            }
        }
    }
}

proof fn lemma_count_running_bound(s: Seq<Slot>)
    ensures
        count_running(s) <= s.len(),
    decreases s.len(),
{
    if s.len() > 0 {
        lemma_count_running_bound(s.drop_last());
    }
}

/// The dispatch of a run's targets to probing units, at most `limit` of them
/// at a time, and the collection of exactly one result per target. Targets
/// are handed out in order; results come back in any order.
pub struct Dispatcher {
    targets: Vec<String>,
    slots: Vec<Slot>,
    limit: Option<u64>,
    next: usize,
    running: usize,
}

impl Dispatcher {
    /// The targets of the run, in the order given.
    pub closed spec fn targets(&self) -> Seq<String> {
        self.targets@
    }

    /// Where each target stands.
    pub closed spec fn slots(&self) -> Seq<Slot> {
        self.slots@
    }

    /// The bound on units in flight; none means unbounded.
    pub closed spec fn limit(&self) -> Option<u64> {
        self.limit
    }

    /// How many targets have been handed out: those before this index.
    pub closed spec fn launched(&self) -> nat {
        self.next as nat
    }

    pub closed spec fn wf(&self) -> bool {
        &&& self.targets@.len() == self.slots@.len()
        &&& self.next <= self.slots@.len()
        &&& forall|i: int| 0 <= i < self.next ==> !(#[trigger] self.slots@[i] is Waiting)
        &&& forall|i: int|
            self.next <= i < self.slots@.len() ==> #[trigger] self.slots@[i] is Waiting
        &&& self.running == count_running(self.slots@)
        &&& within_limit(self.limit, count_running(self.slots@))
        &&& self.limit != Some(0u64)
    }

    /// A run over `targets`, none of them handed out yet.
    pub fn new(targets: Vec<String>, limit: Option<u64>) -> (r: Dispatcher)
        requires
            limit != Some(0u64),
        ensures
            r.wf(),
            r.targets() == targets@,
            r.limit() == limit,
            r.launched() == 0,
            r.slots().len() == targets@.len(),
            forall|i: int| 0 <= i < targets@.len() ==> #[trigger] r.slots()[i] is Waiting,
            count_running(r.slots()) == 0,
    {
        let mut slots: Vec<Slot> = Vec::new();
        let n = targets.len();
        let mut i: usize = 0;
        while i < n
            invariant
                i <= n,
                n == targets@.len(),
                slots@.len() == i,
                forall|j: int| 0 <= j < i ==> #[trigger] slots@[j] is Waiting,
            decreases n - i,
        {
            slots.push(Slot::Waiting);
            i = i + 1;
        }
        proof {
            lemma_count_running_zero(slots@);
        }
        Dispatcher { targets, slots, limit, next: 0, running: 0 }
    }

    /// The number of targets in the run.
    pub fn len(&self) -> (r: usize)
        requires
            self.wf(),
        ensures
            r == self.targets().len(),
    {
        self.targets.len()
    }

    /// The `i`-th target.
    pub fn target(&self, i: usize) -> (r: &String)
        requires
            self.wf(),
            i < self.targets().len(),
        ensures
            *r == self.targets()[i as int],
    {
        &self.targets[i]
    }

    /// The number of units in flight.
    pub fn in_flight(&self) -> (r: usize)
        requires
            self.wf(),
        ensures
            r == count_running(self.slots()),
    {
        self.running
    }

    /// Hands out the next waiting target, if there is one and a unit may
    /// start within the limit; the caller then probes it.
    pub fn launch_next(&mut self) -> (r: Option<usize>)
        requires
            old(self).wf(),
        ensures
            final(self).wf(),
            final(self).targets() == old(self).targets(),
            final(self).limit() == old(self).limit(),
            r is Some == (old(self).launched() < old(self).slots().len() && may_launch(
                old(self).limit(),
                count_running(old(self).slots()),
            )),
            match r {
                Some(i) => {
                    &&& i == old(self).launched()
                    &&& final(self).launched() == i + 1
                    &&& final(self).slots() == old(self).slots().update(i as int, Slot::Running)
                    &&& count_running(final(self).slots()) == count_running(old(self).slots()) + 1
                },
                None => final(self).slots() == old(self).slots() && final(self).launched()
                    == old(self).launched(),
            },
    {
        let can_start = match self.limit {
            Some(l) => (self.running as u64) < l,
            None => true,
        };
        if self.next < self.slots.len() && can_start {
            let i = self.next;
            proof {
                lemma_count_running_update(self.slots@, i as int, Slot::Running);
                lemma_count_running_bound(self.slots@.update(i as int, Slot::Running));
            }
            self.slots.set(i, Slot::Running);
            self.next = i + 1;
            self.running = self.running + 1;
            Some(i)
        } else {
            None
        }
    }

    /// Collects the result of target `i`, which took `elapsed_ns`
    /// nanoseconds. Accepted, and `true` returned, only where target `i` is
    /// being probed; anything else (an unknown index, a second result) leaves
    /// the run unchanged.
    pub fn report(&mut self, i: usize, outcome: Outcome, elapsed_ns: u64) -> (accepted: bool)
        requires
            old(self).wf(),
        ensures
            final(self).wf(),
            final(self).targets() == old(self).targets(),
            final(self).limit() == old(self).limit(),
            final(self).launched() == old(self).launched(),
            accepted == (i < old(self).slots().len() && old(self).slots()[i as int] is Running),
            accepted ==> final(self).slots() == old(self).slots().update(
                i as int,
                Slot::Done { outcome, elapsed_ns },
            ),
            accepted ==> count_running(final(self).slots()) + 1 == count_running(old(self).slots()),
            !accepted ==> final(self).slots() == old(self).slots(),
    {
        if i < self.slots.len() && matches!(self.slots[i], Slot::Running) {
            proof {
                lemma_count_running_update(self.slots@, i as int, Slot::Done { outcome, elapsed_ns });
            }
            self.slots.set(i, Slot::Done { outcome, elapsed_ns });
            self.running = self.running - 1;
            true
        } else {
            false
        }
    }

    /// Collects, for target `i` whose unit crashed before reporting, a
    /// failure that says so; accepted as `report` accepts.
    pub fn report_crash(&mut self, i: usize, elapsed_ns: u64) -> (accepted: bool)
        requires
            old(self).wf(),
        ensures
            final(self).wf(),
            final(self).targets() == old(self).targets(),
            final(self).limit() == old(self).limit(),
            final(self).launched() == old(self).launched(),
            accepted == (i < old(self).slots().len() && old(self).slots()[i as int] is Running),
            accepted ==> exists|m: String|
                m@ == crash_message() && final(self).slots() == old(self).slots().update(
                    i as int,
                    Slot::Done { outcome: Outcome::Failure { message: m }, elapsed_ns },
                ),
            !accepted ==> final(self).slots() == old(self).slots(),
    {
        let message = "probing unit crashed before reporting".to_owned();
        proof {
            reveal_strlit("probing unit crashed before reporting");
        }
        let ghost m = message;
        let accepted = self.report(i, Outcome::Failure { message }, elapsed_ns);
        assert(accepted ==> final(self).slots() == old(self).slots().update(
            i as int,
            Slot::Done { outcome: Outcome::Failure { message: m }, elapsed_ns },
        ));
        accepted
    }

    /// Whether every target's result has been collected.
    pub fn is_complete(&self) -> (r: bool)
        requires
            self.wf(),
        ensures
            r == all_done(self.slots()),
    {
        proof {
            lemma_count_running_zero(self.slots@);
            if all_done(self.slots@) && self.next < self.slots@.len() {
                assert(self.slots@[self.next as int] is Done);
            }
            if self.next == self.slots@.len() && self.running == 0 {
                assert forall|i: int| 0 <= i < self.slots@.len() implies #[trigger] self.slots@[i] is Done by {
                    assert(!(self.slots@[i] is Running));
                    assert(!(self.slots@[i] is Waiting));
                }
            }
            if all_done(self.slots@) {
                assert forall|i: int| 0 <= i < self.slots@.len() implies !(#[trigger] self.slots@[i] is Running) by {
                    assert(self.slots@[i] is Done);
                }
            }
        }
        self.next == self.slots.len() && self.running == 0
    }

    /// The collected results, one per target and in the order of the
    /// targets, once every target's result has been collected.
    pub fn into_results(self) -> (r: Vec<ProbeResult>)
        requires
            self.wf(),
            all_done(self.slots()),
        ensures
            r@.len() == self.targets().len(),
            forall|i: int|
                0 <= i < r@.len() ==> {
                    &&& (#[trigger] r@[i]).target == self.targets()[i]
                    &&& self.slots()[i] == Slot::Done {
                        outcome: r@[i].outcome,
                        elapsed_ns: r@[i].elapsed_ns,
                    }
                },
    {
        let ghost old_targets = self.targets@;
        let ghost old_slots = self.slots@;
        let Dispatcher { mut targets, mut slots, .. } = self;
        let n = slots.len();
        let mut results: Vec<ProbeResult> = Vec::new();
        let mut i: usize = 0;
        while i < n
            invariant
                i <= n,
                n == old_slots.len(),
                old_targets.len() == n,
                targets@.len() == n,
                slots@.len() == n,
                all_done(old_slots),
                forall|j: int| i <= j < n ==> #[trigger] slots@[j] == old_slots[j],
                forall|j: int| i <= j < n ==> #[trigger] targets@[j] == old_targets[j],
                results@.len() == i,
                forall|j: int|
                    0 <= j < i ==> {
                        &&& (#[trigger] results@[j]).target == old_targets[j]
                        &&& old_slots[j] == Slot::Done {
                            outcome: results@[j].outcome,
                            elapsed_ns: results@[j].elapsed_ns,
                        }
                    },
            decreases n - i,
        {
            let mut slot = Slot::Waiting;
            slots.set_and_swap(i, &mut slot);
            let mut target = String::new();
            targets.set_and_swap(i, &mut target);
            assert(old_slots[i as int] is Done);
            match slot {
                Slot::Done { outcome, elapsed_ns } => {
                    results.push(ProbeResult { target, outcome, elapsed_ns });
                },
                _ => {},
            }
            i = i + 1;
        }
        results
    }
}

/// A run never stalls: until every result is in, either another target can
/// be handed out or some unit is in flight, whose result is awaited.
pub proof fn law_run_progresses(d: &Dispatcher)
    requires
        d.wf(),
        !all_done(d.slots()),
    ensures
        (d.launched() < d.slots().len() && may_launch(d.limit(), count_running(d.slots())))
            || count_running(d.slots()) > 0,
{
    lemma_count_running_zero(d.slots());
    if count_running(d.slots()) == 0 && d.launched() == d.slots().len() {
        assert forall|i: int| 0 <= i < d.slots().len() implies #[trigger] d.slots()[i] is Done by {
            assert(!(d.slots()[i] is Running));
        }
    }
}

/// The units in flight never exceed the limit.
pub proof fn law_in_flight_within_limit(d: &Dispatcher)
    requires
        d.wf(),
    ensures
        within_limit(d.limit(), count_running(d.slots())),
{
}

} // verus!
