//! When which worker sends which request: the requests are numbered, and each
//! worker takes every so many-th batch of them.
use vstd::prelude::*;

verus! {

/// The most connections of a run.
pub const MAX_CONNECTIONS: usize = 4096;

/// The most requests of a batch.
pub const MAX_PIPELINE: usize = 1024;

/// A batch of requests that are sent together.
#[derive(Clone, Copy)]
pub struct Job {
    /// The number of the first.
    pub sequence: u64,
    /// How many they are.
    pub count: usize,
}

/// The plan of a run.
pub struct Plan {
    pub connections: nat,
    pub pipeline: nat,
    /// The requests of the run.
    pub total: nat,
}

impl Plan {
    pub open spec fn wf(self) -> bool {
        0 < self.connections && 0 < self.pipeline
    }

    /// The number of the first request in the `k`-th batch of a worker.
    pub open spec fn start(self, id: nat, k: nat) -> nat {
        (k * self.connections + id) * self.pipeline
    }

    /// The `k`-th batch of a worker: the number of its first request and how
    /// many they are.
    pub open spec fn job(self, id: nat, k: nat) -> Option<(nat, nat)> {
        let start = self.start(id, k);
        if start >= self.total {
            None
        } else if self.total - start < self.pipeline {
            Some((start, (self.total - start) as nat))
        } else {
            Some((start, self.pipeline))
        }
    }

    /// Whether the `k`-th batch of a worker holds the request `r`.
    pub open spec fn holds(self, id: nat, k: nat, r: nat) -> bool {
        self.job(id, k) matches Some((start, count)) && start <= r < start + count
    }
}

/// The batches of one worker, in their order.
pub struct Schedule {
    sequence: u64,
    stride: u64,
    total: u64,
    pipeline: usize,
    given: Ghost<ScheduleView>,
}

pub struct ScheduleView {
    pub plan: Plan,
    pub id: nat,
    /// The batches that were given out.
    pub given: nat,
}

impl View for Schedule {
    type V = ScheduleView;

    closed spec fn view(&self) -> ScheduleView {
        self.given@
    }
}

impl Schedule {
    pub closed spec fn wf(&self) -> bool {
        let view = self.given@;
        &&& view.plan.wf()
        &&& view.plan.total == self.total
        &&& view.plan.pipeline == self.pipeline
        &&& self.stride == view.plan.connections * view.plan.pipeline
        &&& self.sequence < self.total ==> self.sequence == view.plan.start(view.id, view.given)
        &&& self.sequence >= self.total ==> view.plan.start(view.id, view.given) >= self.total
    }

    /// The batches of the worker with the number `id`.
    pub fn new(id: usize, connections: usize, pipeline: usize, total: u64) -> (res: Schedule)
        requires
            id < connections <= MAX_CONNECTIONS,
            0 < pipeline <= MAX_PIPELINE,
        ensures
            res.wf(),
            res@ == (ScheduleView {
                plan: Plan {
                    connections: connections as nat,
                    pipeline: pipeline as nat,
                    total: total as nat,
                },
                id: id as nat,
                given: 0,
            }),
    {
        let ghost plan = Plan {
            connections: connections as nat,
            pipeline: pipeline as nat,
            total: total as nat,
        };
        assert(connections * pipeline <= 4096 * 1024) by (nonlinear_arith)
            requires
                connections <= 4096,
                pipeline <= 1024,
        ;
        assert(id * pipeline <= 4096 * 1024) by (nonlinear_arith)
            requires
                id <= 4096,
                pipeline <= 1024,
        ;
        assert(plan.start(id as nat, 0) == id * pipeline) by (nonlinear_arith)
            requires
                plan.start(id as nat, 0) == (0 * plan.connections + id) * plan.pipeline,
                plan.pipeline == pipeline,
        ;
        Schedule {
            sequence: id as u64 * pipeline as u64,
            stride: connections as u64 * pipeline as u64,
            total,
            pipeline,
            given: Ghost(ScheduleView { plan, id: id as nat, given: 0 }),
        }
    }

    /// The next batch.
    pub fn next(&mut self) -> (res: Option<Job>)
        requires
            old(self).wf(),
        ensures
            final(self).wf(),
            match res {
                Some(job) => {
                    &&& old(self)@.plan.job(old(self)@.id, old(self)@.given) == Some(
                        (job.sequence as nat, job.count as nat),
                    )
                    &&& final(self)@ == (ScheduleView {
                        given: old(self)@.given + 1,
                        ..old(self)@
                    })
                },
                None => {
                    &&& old(self)@.plan.job(old(self)@.id, old(self)@.given) is None
                    &&& final(self)@ == old(self)@
                },
            },
    {
        if self.sequence >= self.total {
            return None;
        }
        let left = self.total - self.sequence;
        let count = if left < self.pipeline as u64 {
            left as usize
        } else {
            self.pipeline
        };
        let job = Job { sequence: self.sequence, count };
        let ghost view = self.given@;
        proof {
            let k = view.given as int;
            let c = view.plan.connections as int;
            let p = view.plan.pipeline as int;
            let id = view.id as int;
            assert(((k + 1) * c + id) * p == (k * c + id) * p + c * p) by (nonlinear_arith);
        }
        if left <= self.stride {
            self.sequence = self.total;
        } else {
            self.sequence = self.sequence + self.stride;
        }
        self.given = Ghost(ScheduleView { given: view.given + 1, ..view });
        Some(job)
    }
}

/// Every request of a run is in exactly one batch of one worker.
pub proof fn law_every_request_is_sent_once(plan: Plan, r: nat)
    requires
        plan.wf(),
        r < plan.total,
    ensures
        exists|id: nat, k: nat| id < plan.connections && #[trigger] plan.holds(id, k, r),
        forall|id: nat, k: nat, other: nat, j: nat|
            id < plan.connections && other < plan.connections && #[trigger] plan.holds(id, k, r)
                && #[trigger] plan.holds(other, j, r) ==> id == other && k == j,
{
    let q = r / plan.pipeline;
    let id = q % plan.connections;
    let k = q / plan.connections;
    vstd::arithmetic::div_mod::lemma_fundamental_div_mod(r as int, plan.pipeline as int);
    vstd::arithmetic::div_mod::lemma_fundamental_div_mod(q as int, plan.connections as int);
    assert(k * plan.connections == plan.connections * k) by (nonlinear_arith);
    assert(q * plan.pipeline == plan.pipeline * q) by (nonlinear_arith);
    assert(plan.start(id, k) == q * plan.pipeline);
    assert(plan.holds(id, k, r));
    assert forall|id: nat, k: nat, other: nat, j: nat|
        id < plan.connections && other < plan.connections && #[trigger] plan.holds(id, k, r)
            && #[trigger] plan.holds(other, j, r) implies id == other && k == j by {
        lemma_batch(plan, id, k, r);
        lemma_batch(plan, other, j, r);
    }
}

/// The batch of a request tells its worker and place.
proof fn lemma_batch(plan: Plan, id: nat, k: nat, r: nat)
    requires
        plan.wf(),
        id < plan.connections,
        plan.holds(id, k, r),
    ensures
        k * plan.connections + id == r / plan.pipeline,
        k == (r / plan.pipeline) / plan.connections,
        id == (r / plan.pipeline) % plan.connections,
{
    let b = k * plan.connections + id;
    let p = plan.pipeline as int;
    vstd::arithmetic::div_mod::lemma_fundamental_div_mod_converse(
        r as int,
        p,
        b as int,
        r - b * p,
    );
    vstd::arithmetic::div_mod::lemma_fundamental_div_mod_converse(
        b as int,
        plan.connections as int,
        k as int,
        id as int,
    );
}

/// No batch holds a number that is no request of the run.
pub proof fn law_nothing_else_is_sent(plan: Plan, id: nat, k: nat, r: nat)
    requires
        plan.holds(id, k, r),
    ensures
        r < plan.total,
{
}

/// The batches go to the workers in turn, a full one at a time, and only the
/// last of all is shorter.
pub proof fn law_batches_go_round(plan: Plan, r: nat)
    requires
        plan.wf(),
        r < plan.total,
    ensures
        ({
            let batch = r / plan.pipeline;
            let start = batch * plan.pipeline;
            let left = (plan.total - start) as nat;
            plan.job(batch % plan.connections, batch / plan.connections) == Some(
                (
                    start,
                    if left < plan.pipeline {
                        left
                    } else {
                        plan.pipeline
                    },
                ),
            )
        }),
{
    let q = r / plan.pipeline;
    let id = q % plan.connections;
    let k = q / plan.connections;
    vstd::arithmetic::div_mod::lemma_fundamental_div_mod(r as int, plan.pipeline as int);
    vstd::arithmetic::div_mod::lemma_fundamental_div_mod(q as int, plan.connections as int);
    assert(k * plan.connections == plan.connections * k) by (nonlinear_arith);
    assert(q * plan.pipeline == plan.pipeline * q) by (nonlinear_arith);
}

/// A worker has no more batches once its next would begin beyond the last
/// request.
pub proof fn law_batches_end(plan: Plan, id: nat, k: nat)
    ensures
        plan.job(id, k) is None <==> (k * plan.connections + id) * plan.pipeline >= plan.total,
        MAX_CONNECTIONS == 4096 && MAX_PIPELINE == 1024,
{
}

} // verus!
