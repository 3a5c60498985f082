//! A cooperative fan-out/fan-in pipeline with the same external contract as
//! the thread-backed parallel engine.
//!
//! The three stages — feeder, worker pool, collector — communicate through
//! two queues: the feeder moves input records into the work queue (bounded
//! by the job count, which models channel backpressure), a worker takes any
//! queued record, resolves it, and moves it to the done queue, and the
//! collector files each done record into its output slot.  Each stage
//! advances by its own step method, and the pipeline's invariant is
//! preserved by every step, so the guarantee below holds under *every*
//! interleaving of the stages, not just the one `run` happens to drive:
//! when the pipeline has drained, every input record has produced exactly
//! one resolved output record.

use vstd::prelude::*;
use crate::ip::{Ip, IpView};
use crate::iplist::IpList;
use crate::res::{
    deterministic, engine_post, lemma_engine_post_from_pre, pointwise_solved, solve_name, Solver,
};

verus! {

/// Does `v` resolve the input record `orig` under capability `k`?  The
/// address is kept, and a deterministic capability pins the name.
pub open spec fn resolves(v: IpView, orig: IpView, k: crate::res::ResType) -> bool {
    v.ip == orig.ip && (deterministic(k) ==> v.name == solve_name(k, orig.ip))
}

/// The cooperative pipeline over one batch.
pub struct Pipeline {
    /// The input batch; read only.
    input: IpList,
    /// How many input records the feeder has queued so far.
    fed: usize,
    /// The work queue: records awaiting a worker, tagged with their index.
    work: Vec<(usize, Ip)>,
    /// The done queue: resolved records awaiting collection.
    done: Vec<(usize, Ip)>,
    /// One output slot per input record.
    out: Vec<Option<Ip>>,
    /// The shared capability handle.
    solver: Solver,
    /// The work queue's capacity: the job count.
    cap: usize,
}

impl Pipeline {
    /// The batch being resolved.
    pub closed spec fn batch(self) -> Seq<IpView> {
        self.input@
    }

    /// The chosen capability.
    pub closed spec fn kind(self) -> crate::res::ResType {
        self.solver.kind
    }

    /// Records the feeder has not queued yet.
    pub closed spec fn to_feed(self) -> int {
        self.input@.len() - self.fed
    }

    /// Records waiting in the work queue.
    pub closed spec fn queued(self) -> int {
        self.work@.len() as int
    }

    /// Resolved records waiting in the done queue.
    pub closed spec fn finished(self) -> int {
        self.done@.len() as int
    }

    /// The work queue's capacity.
    pub closed spec fn capacity(self) -> int {
        self.cap as int
    }

    /// Is input record `i` waiting in the work queue?
    spec fn in_work(self, i: int) -> bool {
        exists|j: int| 0 <= j < self.work@.len() && (#[trigger] self.work@[j]).0 == i
    }

    /// Is input record `i` waiting in the done queue?
    spec fn in_done(self, i: int) -> bool {
        exists|j: int| 0 <= j < self.done@.len() && (#[trigger] self.done@[j]).0 == i
    }

    /// The pipeline's invariant: queues and slots refer to fed records
    /// only; queued records are untouched input records; done records and
    /// filled slots resolve their input record; and every fed record is in
    /// the work queue, in the done queue, or already in its output slot.
    pub closed spec fn wf(self) -> bool {
        &&& self.out@.len() == self.input@.len()
        &&& self.fed <= self.input@.len()
        &&& 1 <= self.cap
        &&& forall|j: int| 0 <= j < self.work@.len() ==> {
            &&& (#[trigger] self.work@[j]).0 < self.fed
            &&& self.work@[j].1@ == self.input@[self.work@[j].0 as int]
        }
        &&& forall|j: int| 0 <= j < self.done@.len() ==> {
            &&& (#[trigger] self.done@[j]).0 < self.fed
            &&& resolves(self.done@[j].1@, self.input@[self.done@[j].0 as int], self.solver.kind)
        }
        &&& forall|i: int| 0 <= i < self.out@.len() ==> match #[trigger] self.out@[i] {
            Some(r) => i < self.fed && resolves(r@, self.input@[i], self.solver.kind),
            None => true,
        }
        &&& forall|i: int| 0 <= i < self.fed ==> #[trigger] self.in_work(i) || self.in_done(i)
            || self.out@[i] is Some
    }

    /// Sets a fresh pipeline up over a batch; nothing is queued yet.
    pub fn new(input: IpList, njobs: usize, solver: Solver) -> (p: Self)
        requires
            1 <= njobs,
        ensures
            p.wf(),
            p.batch() == input@,
            p.kind() == solver.kind,
            p.to_feed() == input@.len(),
            p.queued() == 0,
            p.finished() == 0,
            p.capacity() == njobs,
    {
        let n = input.len();
        let mut out: Vec<Option<Ip>> = Vec::new();
        let mut i: usize = 0;
        while i < n
            invariant
                i <= n,
                out@.len() == i,
                forall|k: int| 0 <= k < i ==> (#[trigger] out@[k]) is None,
            decreases n - i,
        {
            out.push(None);
            i = i + 1;
        }
        Pipeline { input, fed: 0, work: Vec::new(), done: Vec::new(), out, solver, cap: njobs }
    }

    /// Feeder step: queues the next input record, respecting the work
    /// queue's capacity.
    pub fn feed(&mut self)
        requires
            old(self).wf(),
            old(self).to_feed() > 0,
            old(self).queued() < old(self).capacity(),
        ensures
            final(self).wf(),
            final(self).batch() == old(self).batch(),
            final(self).kind() == old(self).kind(),
            final(self).capacity() == old(self).capacity(),
            final(self).to_feed() == old(self).to_feed() - 1,
            final(self).queued() == old(self).queued() + 1,
            final(self).finished() == old(self).finished(),
    {
        let n = self.input.len();
        let i = self.fed;
        let rec = self.input.get(i).clone();
        self.work.push((i, rec));
        self.fed = i + 1;
        proof {
            assert forall|q: int| 0 <= q < self.fed implies #[trigger] self.in_work(q)
                || self.in_done(q) || self.out@[q] is Some by {
                if q < i {
                    if old(self).in_work(q) {
                        let j = choose|j: int|
                            0 <= j < old(self).work@.len() && (#[trigger] old(self).work@[j]).0
                                == q;
                        assert(self.work@[j].0 == q);
                    } else if old(self).in_done(q) {
                        let j = choose|j: int|
                            0 <= j < old(self).done@.len() && (#[trigger] old(self).done@[j]).0
                                == q;
                        assert(self.done@[j].0 == q);
                    }
                } else {
                    assert(self.work@[self.work@.len() - 1].0 == q);
                }
            }
        }
    }

    /// Worker step: takes the queued record at position `j` — workers race,
    /// so any position may finish first — resolves it, and queues the
    /// result for collection.
    pub fn work_one(&mut self, j: usize)
        requires
            old(self).wf(),
            j < old(self).queued(),
        ensures
            final(self).wf(),
            final(self).batch() == old(self).batch(),
            final(self).kind() == old(self).kind(),
            final(self).capacity() == old(self).capacity(),
            final(self).to_feed() == old(self).to_feed(),
            final(self).queued() == old(self).queued() - 1,
            final(self).finished() == old(self).finished() + 1,
    {
        let (i, rec) = self.work.remove(j);
        let solved = self.solver.solve(&rec);
        self.done.push((i, solved));
        proof {
            assert forall|q: int| 0 <= q < self.fed implies #[trigger] self.in_work(q)
                || self.in_done(q) || self.out@[q] is Some by {
                if old(self).in_work(q) {
                    let j0 = choose|j0: int|
                        0 <= j0 < old(self).work@.len() && (#[trigger] old(self).work@[j0]).0 == q;
                    if j0 < j {
                        assert(self.work@[j0].0 == q);
                    } else if j0 > j {
                        assert(self.work@[j0 - 1].0 == q);
                    } else {
                        assert(self.done@[self.done@.len() - 1].0 == q);
                    }
                } else if old(self).in_done(q) {
                    let j0 = choose|j0: int|
                        0 <= j0 < old(self).done@.len() && (#[trigger] old(self).done@[j0]).0 == q;
                    assert(self.done@[j0].0 == q);
                }
            }
        }
    }

    /// Collector step: files the oldest resolved record into its output
    /// slot.
    pub fn collect_one(&mut self)
        requires
            old(self).wf(),
            old(self).finished() > 0,
        ensures
            final(self).wf(),
            final(self).batch() == old(self).batch(),
            final(self).kind() == old(self).kind(),
            final(self).capacity() == old(self).capacity(),
            final(self).to_feed() == old(self).to_feed(),
            final(self).queued() == old(self).queued(),
            final(self).finished() == old(self).finished() - 1,
    {
        let (i, rec) = self.done.remove(0);
        self.out[i] = Some(rec);
        proof {
            assert forall|q: int| 0 <= q < self.fed implies #[trigger] self.in_work(q)
                || self.in_done(q) || self.out@[q] is Some by {
                if old(self).in_work(q) {
                    let j0 = choose|j0: int|
                        0 <= j0 < old(self).work@.len() && (#[trigger] old(self).work@[j0]).0 == q;
                    assert(self.work@[j0].0 == q);
                } else if old(self).in_done(q) {
                    let j0 = choose|j0: int|
                        0 <= j0 < old(self).done@.len() && (#[trigger] old(self).done@[j0]).0 == q;
                    if j0 > 0 {
                        assert(self.done@[j0 - 1].0 == q);
                    } else {
                        assert(self.out@[q] is Some);
                    }
                }
            }
        }
    }

    /// Drives the pipeline until it has drained, preferring collection,
    /// then the newest queued record — so completion order differs from
    /// arrival order — then feeding.  Any other schedule would do: each
    /// step preserves the invariant on its own.
    pub fn run(&mut self)
        requires
            old(self).wf(),
        ensures
            final(self).wf(),
            final(self).batch() == old(self).batch(),
            final(self).kind() == old(self).kind(),
            final(self).to_feed() == 0,
            final(self).queued() == 0,
            final(self).finished() == 0,
    {
        let ghost b = old(self).batch();
        let ghost k = old(self).kind();
        loop
            invariant
                self.wf(),
                self.batch() == b,
                self.kind() == k,
            ensures
                self.wf(),
                self.batch() == b,
                self.kind() == k,
                self.to_feed() == 0,
                self.queued() == 0,
                self.finished() == 0,
            decreases 3 * self.to_feed() + 2 * self.queued() + self.finished(),
        {
            if self.done.len() > 0 {
                self.collect_one();
            } else if self.work.len() > 0 {
                let j = self.work.len() - 1;
                self.work_one(j);
            } else if self.fed < self.input.len() {
                self.feed();
            } else {
                break;
            }
        }
    }

    /// Hands the collected batch out, canonically sorted.  Every input
    /// record has produced exactly one output record.
    pub fn finish(self) -> (r: IpList)
        requires
            self.wf(),
            self.to_feed() == 0,
            self.queued() == 0,
            self.finished() == 0,
        ensures
            engine_post(self.batch(), self.kind(), r@),
    {
        let n = self.input.len();
        let mut m: Vec<Ip> = Vec::new();
        let mut i: usize = 0;
        while i < n
            invariant
                self.wf(),
                self.to_feed() == 0,
                self.queued() == 0,
                self.finished() == 0,
                n == self.batch().len(),
                i <= n,
                m@.len() == i,
                forall|q: int| 0 <= q < i ==> resolves(
                    (#[trigger] m@[q])@,
                    self.batch()[q],
                    self.kind(),
                ),
            decreases n - i,
        {
            match &self.out[i] {
                Some(rec) => {
                    m.push(rec.clone());
                },
                None => {
                    proof {
                        assert(self.in_work(i as int) || self.in_done(i as int)
                            || self.out@[i as int] is Some);
                        assert(false);
                    }
                },
            }
            i = i + 1;
        }
        let mut out = IpList(m);
        let ghost pre = out@;
        out.sort();
        proof {
            assert(pointwise_solved(self.batch(), pre, self.kind()));
            lemma_engine_post_from_pre(self.batch(), self.kind(), pre, out@);
        }
        out
    }
}

/// The cooperative engine: same observable contract as the other engines,
/// with channel sends and receives replaced by cooperative queue steps.
pub fn pipeline_solve(ipl: &IpList, njobs: usize, res: &Solver) -> (r: IpList)
    requires
        1 <= njobs,
    ensures
        engine_post(ipl@, res.kind, r@),
{
    let mut p = Pipeline::new(ipl.clone(), njobs, *res);
    p.run();
    p.finish()
}

} // verus!
