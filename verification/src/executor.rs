//! The call-plan executor: stages in order, fan-out within a stage,
//! per-leg retry until success.
//!
//! The executor is a state machine.  The driver asks which legs of the
//! current stage are still pending, performs those calls, and hands the
//! outcomes back; the executor appends trace records and advances to the
//! next stage once every leg of the current one has succeeded.  Records
//! are appended in fan-out index order within a round, with a callee's
//! own trace placed before the caller's record of the call, and the
//! trace is exactly the concatenation of the per-stage segments in stage
//! order.

use vstd::prelude::*;

use crate::model::{CallRecord, CallRecordV, Timestamp};

verus! {

/// One call target of a stage: the service to call and the method on it.
#[derive(Clone)]
pub struct CallTarget {
    pub service_name: String,
    pub method_name: String,
}

/// Mathematical image of a [`CallTarget`].
pub struct CallTargetV {
    pub service_name: Seq<char>,
    pub method_name: Seq<char>,
}

impl View for CallTarget {
    type V = CallTargetV;

    open spec fn view(&self) -> CallTargetV {
        CallTargetV { service_name: self.service_name@, method_name: self.method_name@ }
    }
}

impl DeepView for CallTarget {
    type V = CallTargetV;

    open spec fn deep_view(&self) -> CallTargetV {
        self.view()
    }
}

/// What one attempt of one leg came back with: whether it succeeded,
/// when the response arrived, and — on success — the callee's own trace.
pub struct LegOutcome {
    pub ok: bool,
    pub received_at: Timestamp,
    pub sub_trace: Vec<CallRecord>,
}

/// Mathematical image of a [`LegOutcome`].
pub struct LegOutcomeV {
    pub ok: bool,
    pub received_at: Timestamp,
    pub sub_trace: Seq<CallRecordV>,
}

impl View for LegOutcome {
    type V = LegOutcomeV;

    open spec fn view(&self) -> LegOutcomeV {
        LegOutcomeV {
            ok: self.ok,
            received_at: self.received_at,
            sub_trace: self.sub_trace.deep_view(),
        }
    }
}

impl DeepView for LegOutcome {
    type V = LegOutcomeV;

    open spec fn deep_view(&self) -> LegOutcomeV {
        self.view()
    }
}

/// The records one retry round appends, walking the legs from index
/// `l` in fan-out order: a leg that already succeeded is passed over, a
/// pending leg consumes the next outcome, and a successful outcome's
/// sub-trace is placed immediately before the leg's own record.
pub open spec fn round_records(
    legs: Seq<CallTargetV>,
    succ: Seq<bool>,
    outs: Seq<LegOutcomeV>,
    l: int,
) -> Seq<CallRecordV>
    decreases legs.len() - l,
{
    if l < 0 || l >= legs.len() {
        Seq::empty()
    } else if l < succ.len() && succ[l] {
        round_records(legs, succ, outs, l + 1)
    } else if outs.len() == 0 {
        Seq::empty()
    } else {
        let rec = CallRecordV {
            method_name: legs[l].method_name,
            response_received_at: outs[0].received_at,
            was_an_error: !outs[0].ok,
        };
        (if outs[0].ok {
            outs[0].sub_trace + seq![rec]
        } else {
            seq![rec]
        }) + round_records(legs, succ, outs.drop_first(), l + 1)
    }
}

/// The success flags after one retry round: each pending leg takes its
/// outcome's verdict, the rest keep theirs.
pub open spec fn round_success(succ: Seq<bool>, outs: Seq<LegOutcomeV>, l: int) -> Seq<bool>
    decreases succ.len() - l,
{
    if l < 0 || l >= succ.len() {
        succ
    } else if succ[l] {
        round_success(succ, outs, l + 1)
    } else if outs.len() == 0 {
        succ
    } else {
        round_success(succ.update(l, outs[0].ok), outs.drop_first(), l + 1)
    }
}

/// Every flag set.
pub open spec fn all_true(s: Seq<bool>) -> bool {
    forall|q: int| 0 <= q < s.len() ==> s[q]
}

/// The segment holds at least one successful record carrying `name`.
pub open spec fn leg_closed(seg: Seq<CallRecordV>, name: Seq<char>) -> bool {
    exists|x: int|
        0 <= x < seg.len() && !(#[trigger] seg[x]).was_an_error && seg[x].method_name == name
}

/// A segment closes a stage when every leg has at least one successful
/// record carrying its method name.
pub open spec fn stage_closed(legs: Seq<CallTargetV>, seg: Seq<CallRecordV>) -> bool {
    forall|i: int| 0 <= i < legs.len() ==> leg_closed(seg, (#[trigger] legs[i]).method_name)
}

/// Number of legs still pending.
pub open spec fn count_pending(s: Seq<bool>) -> int
    decreases s.len(),
{
    if s.len() == 0 {
        0
    } else {
        count_pending(s.drop_last()) + if s.last() {
            0int
        } else {
            1int
        }
    }
}

/// The execution state of one method invocation's call plan.
pub struct PlanRun {
    pub plan: Vec<Vec<CallTarget>>,
    pub stage: usize,
    pub succeeded: Vec<bool>,
    pub trace: Vec<CallRecord>,
    pub segs: Ghost<Seq<Seq<CallRecordV>>>,
    pub cur: Ghost<Seq<CallRecordV>>,
}

impl PlanRun {
    /// Internal consistency of the run.
    pub open spec fn wf(&self) -> bool {
        &&& self.stage <= self.plan@.len()
        &&& self.segs@.len() == self.stage
        &&& self.trace.deep_view() == self.segs@.flatten() + self.cur@
        &&& (self.stage < self.plan@.len() ==> self.succeeded@.len() == self.plan@[
            self.stage as int
        ]@.len())
        &&& (self.stage == self.plan@.len() ==> self.cur@ == Seq::<CallRecordV>::empty())
        &&& (forall|s: int|
            0 <= s < self.stage ==> stage_closed(
                (#[trigger] self.plan@[s]).deep_view(),
                self.segs@[s],
            ))
        &&& (self.stage < self.plan@.len() ==> forall|i: int|
            0 <= i < self.succeeded@.len() && (#[trigger] self.succeeded@[i]) ==> leg_closed(
                self.cur@,
                self.plan@[self.stage as int]@[i]@.method_name,
            ))
    }

    /// Whether every stage has drained.
    pub open spec fn spec_done(&self) -> bool {
        self.stage == self.plan@.len()
    }

    /// Start executing a plan: at its first stage, nothing succeeded,
    /// empty trace.
    pub fn start(plan: Vec<Vec<CallTarget>>) -> (r: PlanRun)
        ensures
            r.wf(),
            r.plan@ == plan@,
            r.stage == 0,
            r.trace.deep_view() == Seq::<CallRecordV>::empty(),
            r.segs@ == Seq::<Seq<CallRecordV>>::empty(),
            r.cur@ == Seq::<CallRecordV>::empty(),
            plan@.len() == 0 ==> r.spec_done(),
            plan@.len() > 0 ==> r.succeeded@.len() == plan@[0]@.len() && forall|q: int|
                0 <= q < r.succeeded@.len() ==> !r.succeeded@[q],
    {
        let mut succeeded: Vec<bool> = Vec::new();
        if plan.len() > 0 {
            let want: usize = plan[0].len();
            for z in 0..want
                invariant
                    succeeded@.len() == z,
                    forall|q: int| 0 <= q < z ==> !succeeded@[q],
            {
                succeeded.push(false);
            }
        }
        let r = PlanRun {
            plan,
            stage: 0,
            succeeded,
            trace: Vec::new(),
            segs: Ghost(Seq::empty()),
            cur: Ghost(Seq::empty()),
        };
        proof {
            assert(r.segs@.flatten() + r.cur@ =~= Seq::<CallRecordV>::empty());
            assert(r.trace.deep_view() =~= Seq::<CallRecordV>::empty());
        }
        r
    }

    /// Whether the plan has drained: every leg of every stage succeeded.
    pub fn is_done(&self) -> (b: bool)
        ensures
            b == self.spec_done(),
    {
        self.stage == self.plan.len()
    }

    /// The legs of the current stage still awaiting a success, as
    /// `(fan-out index, target)` pairs in fan-out index order.
    pub fn pending(&self) -> (v: Vec<(usize, CallTarget)>)
        requires
            self.wf(),
            !self.spec_done(),
        ensures
            v@.len() == count_pending(self.succeeded@),
            forall|x: int|
                0 <= x < v@.len() ==> {
                    let i = (#[trigger] v@[x]).0 as int;
                    &&& i < self.plan@[self.stage as int]@.len()
                    &&& !self.succeeded@[i]
                    &&& v@[x].1@ == self.plan@[self.stage as int]@[i]@
                },
            forall|x1: int, x2: int| 0 <= x1 < x2 < v@.len() ==> v@[x1].0 < v@[x2].0,
    {
        let legs = &self.plan[self.stage];
        let n: usize = legs.len();
        let mut v: Vec<(usize, CallTarget)> = Vec::new();
        for i in 0..n
            invariant
                n == legs@.len(),
                legs@ == self.plan@[self.stage as int]@,
                n == self.succeeded@.len(),
                v@.len() == count_pending(self.succeeded@.take(i as int)),
                forall|x: int|
                    0 <= x < v@.len() ==> {
                        let q = (#[trigger] v@[x]).0 as int;
                        &&& q < i
                        &&& q < legs@.len()
                        &&& !self.succeeded@[q]
                        &&& v@[x].1@ == legs@[q]@
                    },
                forall|x1: int, x2: int| 0 <= x1 < x2 < v@.len() ==> v@[x1].0 < v@[x2].0,
        {
            proof {
                assert(self.succeeded@.take(i + 1).drop_last() =~= self.succeeded@.take(i as int));
            }
            if !self.succeeded[i] {
                let target = CallTarget {
                    service_name: legs[i].service_name.clone(),
                    method_name: legs[i].method_name.clone(),
                };
                v.push((i, target));
            }
        }
        proof {
            assert(self.succeeded@.take(n as int) =~= self.succeeded@);
        }
        v
    }

    /// Apply the outcomes of one retry round.
    ///
    /// `outcomes` lists one outcome per pending leg, in fan-out index
    /// order.  The round appends exactly [`round_records`]: for each
    /// pending leg in that order, a successful outcome's sub-trace
    /// first, then one record carrying the leg's method name, the
    /// outcome's arrival time and whether it failed.  The success flags
    /// become exactly [`round_success`], and the stage closes and the
    /// run moves on exactly when that leaves every leg succeeded.
    pub fn apply_round(&mut self, outcomes: Vec<LegOutcome>)
        requires
            old(self).wf(),
            !old(self).spec_done(),
            outcomes@.len() == count_pending(old(self).succeeded@),
        ensures
            final(self).wf(),
            final(self).plan@ == old(self).plan@,
            final(self).trace.deep_view() == old(self).trace.deep_view() + round_records(
                old(self).plan@[old(self).stage as int].deep_view(),
                old(self).succeeded@,
                outcomes.deep_view(),
                0,
            ),
            ({
                let appended = round_records(
                    old(self).plan@[old(self).stage as int].deep_view(),
                    old(self).succeeded@,
                    outcomes.deep_view(),
                    0,
                );
                let newsucc = round_success(old(self).succeeded@, outcomes.deep_view(), 0);
                if all_true(newsucc) {
                    &&& final(self).stage == old(self).stage + 1
                    &&& final(self).segs@ == old(self).segs@.push(old(self).cur@ + appended)
                    &&& final(self).cur@ == Seq::<CallRecordV>::empty()
                    &&& (final(self).stage < old(self).plan@.len() ==> {
                        &&& final(self).succeeded@.len() == old(self).plan@[
                            final(self).stage as int
                        ]@.len()
                        &&& forall|q: int|
                            0 <= q < final(self).succeeded@.len() ==> !final(self).succeeded@[q]
                    })
                } else {
                    &&& final(self).stage == old(self).stage
                    &&& final(self).segs@ == old(self).segs@
                    &&& final(self).cur@ == old(self).cur@ + appended
                    &&& final(self).succeeded@ == newsucc
                }
            }),
    {
        let ghost plan0 = self.plan@;
        let ghost outs_entry = outcomes.deep_view();
        let ghost succ_entry = self.succeeded@;
        let ghost cur_entry = self.cur@;
        let ghost legsv = self.plan@[self.stage as int].deep_view();
        let ghost appended = round_records(legsv, succ_entry, outs_entry, 0);
        let nplan: usize = self.plan.len();
        let legs_len: usize = self.plan[self.stage].len();
        let mut outcomes = outcomes;
        let ghost stage0 = self.stage as int;
        proof {
            assert(self.succeeded@.skip(0) =~= self.succeeded@);
            assert(legsv.len() == legs_len);
            assert(forall|q: int|
                0 <= q < legs_len ==> (#[trigger] legsv[q]) == plan0[stage0]@[q]@);
        }
        for i in 0..legs_len
            invariant
                self.stage == stage0,
                self.plan@ == plan0,
                stage0 < plan0.len(),
                legs_len == plan0[stage0]@.len(),
                legsv == plan0[stage0].deep_view(),
                legsv.len() == legs_len,
                forall|q: int|
                    0 <= q < legs_len ==> (#[trigger] legsv[q]) == plan0[stage0]@[q]@,
                succ_entry.len() == legs_len,
                self.succeeded@.len() == legs_len,
                self.segs@ == old(self).segs@,
                self.segs@.len() == stage0,
                self.trace.deep_view() == self.segs@.flatten() + self.cur@,
                forall|s: int|
                    0 <= s < stage0 ==> stage_closed(
                        (#[trigger] plan0[s]).deep_view(),
                        self.segs@[s],
                    ),
                forall|q: int|
                    0 <= q < legs_len && (#[trigger] self.succeeded@[q]) ==> leg_closed(
                        self.cur@,
                        plan0[stage0]@[q]@.method_name,
                    ),
                outcomes@.len() == count_pending(self.succeeded@.skip(i as int)),
                forall|k: int| i <= k < legs_len ==> self.succeeded@[k] == succ_entry[k],
                self.cur@ + round_records(legsv, succ_entry, outcomes.deep_view(), i as int)
                    == cur_entry + round_records(legsv, succ_entry, outs_entry, 0),
                round_success(succ_entry, outs_entry, 0) == round_success(
                    self.succeeded@,
                    outcomes.deep_view(),
                    i as int,
                ),
        {
            proof {
                assert(self.succeeded@.skip(i as int).drop_first() =~= self.succeeded@.skip(i + 1));
                lemma_count_pending_first(self.succeeded@.skip(i as int));
                assert(self.succeeded@.skip(i as int)[0] == self.succeeded@[i as int]);
                lemma_count_pending_nonneg(self.succeeded@.skip(i + 1));
            }
            if !self.succeeded[i] {
                let ghost outs_cur = outcomes.deep_view();
                let ghost succ_cur = self.succeeded@;
                let out = outcomes.remove(0);
                proof {
                    assert(outcomes@ =~= outcomes@);
                    assert(outcomes.deep_view() =~= outs_cur.drop_first()) by {
                        assert(forall|k: int|
                            0 <= k < outcomes@.len() ==> outcomes.deep_view()[k] == outs_cur[k
                                + 1]);
                    }
                    assert(out.deep_view() == outs_cur[0]);
                }
                let ghost cur0 = self.cur@;
                let ghost trace0 = self.trace.deep_view();
                let mut sub = out.sub_trace;
                let ghost subv = sub.deep_view();
                proof {
                    assert(subv == outs_cur[0].sub_trace);
                }
                if out.ok {
                    self.trace.append(&mut sub);
                    proof {
                        assert(self.trace.deep_view() =~= trace0 + subv);
                    }
                }
                let own = CallRecord {
                    method_name: self.plan[self.stage][i].method_name.clone(),
                    response_received_at: out.received_at,
                    was_an_error: !out.ok,
                };
                let ghost ownv = own@;
                self.trace.push(own);
                proof {
                    assert(ownv == CallRecordV {
                        method_name: legsv[i as int].method_name,
                        response_received_at: outs_cur[0].received_at,
                        was_an_error: !outs_cur[0].ok,
                    });
                    if out.ok {
                        assert(self.trace.deep_view() =~= trace0 + subv + seq![ownv]);
                        self.cur = Ghost(cur0 + subv + seq![ownv]);
                    } else {
                        assert(self.trace.deep_view() =~= trace0 + seq![ownv]);
                        self.cur = Ghost(cur0 + seq![ownv]);
                    }
                    assert(self.trace.deep_view() =~= self.segs@.flatten() + self.cur@);
                    assert(forall|x: int| 0 <= x < cur0.len() ==> self.cur@[x] == cur0[x]);
                    // one unfolding of the round's record spec at this leg
                    assert(!succ_entry[i as int]);
                    assert(round_records(legsv, succ_entry, outs_cur, i as int) == (if outs_cur[
                        0
                    ].ok {
                        outs_cur[0].sub_trace + seq![ownv]
                    } else {
                        seq![ownv]
                    }) + round_records(legsv, succ_entry, outs_cur.drop_first(), i + 1));
                    if out.ok {
                        assert(self.cur@ =~= cur0 + (outs_cur[0].sub_trace + seq![ownv]));
                    } else {
                        assert(self.cur@ =~= cur0 + seq![ownv]);
                    }
                    assert(self.cur@ + round_records(legsv, succ_entry, outcomes.deep_view(), i
                        + 1) =~= cur0 + round_records(legsv, succ_entry, outs_cur, i as int));
                }
                if out.ok {
                    let ghost suc0 = self.succeeded@;
                    self.succeeded.set(i, true);
                    proof {
                        assert(self.cur@[self.cur@.len() - 1] == ownv);
                        assert(!ownv.was_an_error);
                        assert(ownv.method_name == plan0[stage0]@[i as int]@.method_name);
                        assert forall|q: int|
                            0 <= q < legs_len && (#[trigger] self.succeeded@[q]) implies leg_closed(
                            self.cur@,
                            plan0[stage0]@[q]@.method_name,
                        ) by {
                            if q == i as int {
                                let last = self.cur@.len() - 1;
                                assert(0 <= last < self.cur@.len()
                                    && !self.cur@[last].was_an_error && self.cur@[last].method_name
                                    == plan0[stage0]@[q]@.method_name);
                            } else {
                                assert(suc0[q]);
                                assert(leg_closed(cur0, plan0[stage0]@[q]@.method_name));
                                let x = choose|x: int|
                                    0 <= x < cur0.len() && !(#[trigger] cur0[x]).was_an_error
                                        && cur0[x].method_name == plan0[stage0]@[q]@.method_name;
                                assert(self.cur@[x] == cur0[x]);
                            }
                        }
                        assert(self.succeeded@.skip(i + 1) =~= suc0.skip(i + 1));
                        assert(self.succeeded@ =~= succ_cur.update(i as int, outs_cur[0].ok));
                    }
                } else {
                    proof {
                        assert forall|q: int|
                            0 <= q < legs_len && (#[trigger] self.succeeded@[q]) implies leg_closed(
                            self.cur@,
                            plan0[stage0]@[q]@.method_name,
                        ) by {
                            assert(leg_closed(cur0, plan0[stage0]@[q]@.method_name));
                            let x = choose|x: int|
                                0 <= x < cur0.len() && !(#[trigger] cur0[x]).was_an_error
                                    && cur0[x].method_name == plan0[stage0]@[q]@.method_name;
                            assert(self.cur@[x] == cur0[x]);
                        }
                        assert(self.succeeded@ =~= succ_cur.update(i as int, outs_cur[0].ok));
                    }
                }
                proof {
                    // one unfolding of the success spec at this leg
                    assert(!succ_cur[i as int]);
                    assert(round_success(succ_cur, outs_cur, i as int) == round_success(
                        succ_cur.update(i as int, outs_cur[0].ok),
                        outs_cur.drop_first(),
                        i + 1,
                    ));
                }
            } else {
                proof {
                    assert(succ_entry[i as int]);
                    assert(round_records(legsv, succ_entry, outcomes.deep_view(), i as int)
                        == round_records(legsv, succ_entry, outcomes.deep_view(), i + 1));
                    assert(round_success(self.succeeded@, outcomes.deep_view(), i as int)
                        == round_success(self.succeeded@, outcomes.deep_view(), i + 1));
                }
            }
        }
        proof {
            assert(self.succeeded@.skip(legs_len as int) =~= Seq::<bool>::empty());
            assert(round_records(legsv, succ_entry, outcomes.deep_view(), legs_len as int)
                =~= Seq::<CallRecordV>::empty());
            assert(self.cur@ + Seq::<CallRecordV>::empty() =~= self.cur@);
            assert(self.cur@ == cur_entry + appended);
            assert(round_success(self.succeeded@, outcomes.deep_view(), legs_len as int)
                == self.succeeded@);
            assert(self.succeeded@ == round_success(succ_entry, outs_entry, 0));
            assert(self.trace.deep_view() =~= old(self).trace.deep_view() + appended);
        }
        // close the stage if every leg has now succeeded
        let mut all_ok = true;
        for q in 0..legs_len
            invariant
                self.succeeded@.len() == legs_len,
                all_ok ==> forall|q2: int| 0 <= q2 < q ==> self.succeeded@[q2],
                !all_ok ==> exists|q2: int| 0 <= q2 < legs_len && !self.succeeded@[q2],
        {
            if !self.succeeded[q] {
                all_ok = false;
            }
        }
        proof {
            assert(all_ok == all_true(self.succeeded@));
        }
        if all_ok {
            proof {
                assert(plan0[stage0].deep_view().len() == plan0[stage0]@.len());
                assert forall|i: int| 0 <= i < plan0[stage0].deep_view().len() implies leg_closed(
                    self.cur@,
                    (#[trigger] plan0[stage0].deep_view()[i]).method_name,
                ) by {
                    assert(self.succeeded@[i]);
                    assert(leg_closed(self.cur@, plan0[stage0]@[i]@.method_name));
                    assert(plan0[stage0].deep_view()[i].method_name
                        == plan0[stage0]@[i]@.method_name);
                }
                assert(stage_closed(plan0[stage0].deep_view(), self.cur@));
                let segs0 = self.segs@;
                let curfull = self.cur@;
                self.segs = Ghost(segs0.push(curfull));
                self.cur = Ghost(Seq::empty());
                segs0.lemma_flatten_push(curfull);
                assert(self.trace.deep_view() =~= self.segs@.flatten() + self.cur@);
                assert(forall|s2: int| 0 <= s2 < segs0.len() ==> self.segs@[s2] == segs0[s2]);
            }
            self.stage = self.stage + 1;
            if self.stage < self.plan.len() {
                let want: usize = self.plan[self.stage].len();
                let mut fresh: Vec<bool> = Vec::new();
                for z in 0..want
                    invariant
                        fresh@.len() == z,
                        forall|q2: int| 0 <= q2 < z ==> !fresh@[q2],
                {
                    fresh.push(false);
                }
                self.succeeded = fresh;
            }
        }
    }

    /// Hand back the finished trace together with its per-stage
    /// segmentation: the trace is the concatenation of one closed
    /// segment per stage, in stage order.
    pub fn into_trace(self) -> (r: (Vec<CallRecord>, Ghost<Seq<Seq<CallRecordV>>>))
        requires
            self.wf(),
            self.spec_done(),
        ensures
            r.1@.len() == self.plan@.len(),
            r.0.deep_view() == r.1@.flatten(),
            forall|s: int|
                0 <= s < r.1@.len() ==> stage_closed(
                    (#[trigger] self.plan@[s]).deep_view(),
                    r.1@[s],
                ),
    {
        proof {
            assert(self.trace.deep_view() =~= self.segs@.flatten());
        }
        (self.trace, self.segs)
    }
}

proof fn lemma_count_pending_nonneg(s: Seq<bool>)
    ensures
        count_pending(s) >= 0,
    decreases s.len(),
{
    if s.len() > 0 {
        lemma_count_pending_nonneg(s.drop_last());
    }
}

proof fn lemma_count_pending_first(s: Seq<bool>)
    requires
        s.len() > 0,
    ensures
        count_pending(s) == count_pending(s.drop_first()) + if s[0] {
            0int
        } else {
            1int
        },
    decreases s.len(),
{
    if s.len() == 1 {
        assert(s.drop_first() =~= Seq::<bool>::empty());
        assert(s.drop_last() =~= Seq::<bool>::empty());
    } else {
        assert(s.drop_last().drop_first() =~= s.drop_first().drop_last());
        assert(s.drop_first().last() == s.last());
        assert(s.drop_last()[0] == s[0]);
        lemma_count_pending_first(s.drop_last());
    }
}

/// Where a record of stage `s` sits in the flattened trace.
pub open spec fn flat_index(segs: Seq<Seq<CallRecordV>>, s: int, k: int) -> int {
    segs.take(s).flatten().len() + k
}

proof fn lemma_flatten_take_step(segs: Seq<Seq<CallRecordV>>, s: int)
    requires
        0 <= s < segs.len(),
    ensures
        segs.take(s + 1).flatten() == segs.take(s).flatten() + segs[s],
{
    assert(segs.take(s + 1) =~= segs.take(s).push(segs[s]));
    segs.take(s).lemma_flatten_push(segs[s]);
    assert(segs.take(s).push(segs[s]).flatten() =~= segs.take(s).flatten() + segs[s]);
}

proof fn lemma_flatten_take_prefix(segs: Seq<Seq<CallRecordV>>, s: int)
    requires
        0 <= s <= segs.len(),
    ensures
        segs.take(s).flatten().len() <= segs.flatten().len(),
        forall|x: int|
            0 <= x < segs.take(s).flatten().len() ==> segs.flatten()[x]
                == segs.take(s).flatten()[x],
    decreases segs.len() - s,
{
    if s == segs.len() {
        assert(segs.take(s) =~= segs);
    } else {
        lemma_flatten_take_step(segs, s);
        lemma_flatten_take_prefix(segs, s + 1);
    }
}

/// Each record of each stage appears in the flattened trace at its
/// `flat_index`.
pub proof fn lemma_flat_at(segs: Seq<Seq<CallRecordV>>, s: int, k: int)
    requires
        0 <= s < segs.len(),
        0 <= k < segs[s].len(),
    ensures
        0 <= flat_index(segs, s, k) < segs.flatten().len(),
        segs.flatten()[flat_index(segs, s, k)] == segs[s][k],
{
    lemma_flatten_take_step(segs, s);
    assert(segs.take(s + 1).flatten()[flat_index(segs, s, k)] == segs[s][k]);
    lemma_flatten_take_prefix(segs, s + 1);
}

/// Stage order: any record of an earlier stage sits strictly before any
/// record of a later stage in the flattened trace.
pub proof fn lemma_stage_order(segs: Seq<Seq<CallRecordV>>, s1: int, k1: int, s2: int, k2: int)
    requires
        0 <= s1 < s2 < segs.len(),
        0 <= k1 < segs[s1].len(),
        0 <= k2 < segs[s2].len(),
    ensures
        flat_index(segs, s1, k1) < flat_index(segs, s2, k2),
        segs.flatten()[flat_index(segs, s1, k1)] == segs[s1][k1],
        segs.flatten()[flat_index(segs, s2, k2)] == segs[s2][k2],
    decreases s2 - s1,
{
    lemma_flat_at(segs, s1, k1);
    lemma_flat_at(segs, s2, k2);
    lemma_flatten_take_step(segs, s1);
    if s1 + 1 == s2 {
    } else {
        lemma_take_len_monotone(segs, s1 + 1, s2);
    }
}

proof fn lemma_take_len_monotone(segs: Seq<Seq<CallRecordV>>, a: int, b: int)
    requires
        0 <= a <= b <= segs.len(),
    ensures
        segs.take(a).flatten().len() <= segs.take(b).flatten().len(),
    decreases b - a,
{
    if a < b {
        lemma_flatten_take_step(segs, a);
        lemma_take_len_monotone(segs, a + 1, b);
    }
}

/// Retry closure: in a finished run, every leg of every stage has at
/// least one successful record in the trace — the one its stage segment
/// closed with.
pub proof fn lemma_retry_closure(
    plan: Seq<Vec<CallTarget>>,
    segs: Seq<Seq<CallRecordV>>,
    s: int,
    i: int,
)
    requires
        segs.len() == plan.len(),
        forall|s2: int|
            0 <= s2 < segs.len() ==> stage_closed((#[trigger] plan[s2]).deep_view(), segs[s2]),
        0 <= s < plan.len(),
        0 <= i < plan[s]@.len(),
    ensures
        exists|x: int|
            0 <= x < segs.flatten().len() && !(#[trigger] segs.flatten()[x]).was_an_error
                && segs.flatten()[x].method_name == plan[s]@[i]@.method_name,
{
    assert(stage_closed(plan[s].deep_view(), segs[s]));
    assert(plan[s].deep_view()[i] == plan[s]@[i]@);
    assert(leg_closed(segs[s], plan[s].deep_view()[i].method_name));
    let k = choose|k: int|
        0 <= k < segs[s].len() && !(#[trigger] segs[s][k]).was_an_error && segs[s][k].method_name
            == plan[s].deep_view()[i].method_name;
    lemma_flat_at(segs, s, k);
    let fx = flat_index(segs, s, k);
    assert(0 <= fx < segs.flatten().len() && !segs.flatten()[fx].was_an_error
        && segs.flatten()[fx].method_name == plan[s]@[i]@.method_name);
}

} // verus!
