//! A loaded model session, driven one DDK call at a time.
//!
//! The session decides; its driver performs. Each public operation
//! (`load`, `prepare_io`, `dispatch`) starts a plan and answers with the
//! first [`Step`]: a DDK [`Call`] to perform, or the final result. The
//! driver performs the call and hands its outcome back to `resume`, which
//! records it and answers with the next step. The session owns the IO
//! tensors the driver built (of type `T`) and keeps them cached across
//! dispatches for as long as shapes and dtypes are unchanged.

use vstd::prelude::*;

use crate::cache::{side, slot_keys, CachedIo, IoCache, IoKind, Key};
use crate::effect::{
    acts_on, all_ops, apply_op, apply_ops, keys_valid, lemma_apply_concat, lemma_apply_op_valid,
    lemma_dispatch_after_prepare, lemma_dispatch_plan_props, lemma_dispatch_reaches_slots,
    lemma_inert, lemma_load_keeps_keys, lemma_load_plan_props, lemma_one_shot_plan_props,
    lemma_prepare_input_failure_spares_outputs, lemma_prepare_plan_props,
    lemma_prepare_reaches_slots, lemma_prepare_unchanged_is_noop, lemma_spares_keys, op_sound,
    plan_ready, process_last, ready, runs_inference, spares, touches, untouched,
};
use crate::error::Result;
use crate::io::{InputDesc, OutputDesc};
use crate::plan::{
    accepts, build_dispatch, build_load, build_prepare, check_reply, dispatch_plan, fault,
    input_keys, input_slots, load_plan, output_keys, output_slots, prepare_plan, reconcile_plan,
    then, Call, Op, Plan, Reply,
};

verus! {

/// What a session needs next from its driver.
#[derive(Debug)]
pub enum Step {
    /// Perform this DDK call and hand its outcome to `resume`.
    Call(Call),
    /// The operation is over, with this result.
    Done(Result<()>),
}

/// The position of the first call in `ops` at or after `from`, or the length
/// of `ops` if there is none.
pub open spec fn next_call(ops: Seq<Op>, from: int) -> int
    decreases ops.len() - from,
{
    if from >= ops.len() {
        ops.len() as int
    } else if ops[from] is Call {
        from
    } else {
        next_call(ops, from + 1)
    }
}

/// The step a session answers with when it has reached position `k` of a
/// plan: the call there, or the plan's result past its end.
pub open spec fn step_at(ops: Seq<Op>, end: Result<()>, k: int) -> Step {
    if k < ops.len() {
        Step::Call(ops[k]->Call_0)
    } else {
        Step::Done(end)
    }
}

/// The next call at or after `from` lies between `from` and the end, and
/// is a call.
pub proof fn lemma_next_call_bounds(ops: Seq<Op>, from: int)
    requires
        0 <= from,
    ensures
        next_call(ops, from) <= ops.len(),
        from <= ops.len() ==> from <= next_call(ops, from),
        next_call(ops, from) < ops.len() ==> ops[next_call(ops, from)] is Call,
    decreases ops.len() - from,
{
    if from < ops.len() && !(ops[from] is Call) {
        lemma_next_call_bounds(ops, from + 1);
    }
}

/// The tensors in `tensors` (cached under `keys`) that a plan `ops` never
/// initialised are still the ones in `held`, at the same positions.
pub open spec fn keeps_untouched<T>(
    keys: (Seq<Key>, Seq<Key>),
    tensors: (Seq<T>, Seq<T>),
    held: (Seq<T>, Seq<T>),
    ops: Seq<Op>,
) -> bool {
    forall|k: IoKind, i: int|
        0 <= i < side(keys, k).len() && i < side(held, k).len() && untouched(ops, k, i)
            ==> #[trigger] side(tensors, k)[i] == side(held, k)[i]
}

/// Operations that never initialise a slot's tensor have no prefix that
/// does.
pub proof fn lemma_untouched_take(ops: Seq<Op>, n: int)
    requires
        0 <= n <= ops.len(),
    ensures
        forall|k: IoKind, i: int| untouched(ops, k, i) ==> #[trigger] untouched(ops.take(n), k, i),
{
    assert forall|k: IoKind, i: int| untouched(ops, k, i) implies #[trigger] untouched(
        ops.take(n),
        k,
        i,
    ) by {
        assert forall|j: int| 0 <= j < ops.take(n).len() implies !touches(
            #[trigger] ops.take(n)[j],
            k,
            i,
        ) by {
            assert(ops.take(n)[j] == ops[j]);
        }
    }
}

struct Job<T> {
    ops: Vec<Op>,
    end: Result<()>,
    next: usize,
    inputs: Vec<(Vec<u32>, i32)>,
    outputs: Vec<(Vec<u32>, i32)>,
    start: Ghost<(Seq<Key>, Seq<Key>)>,
    start_tensors: Ghost<(Seq<T>, Seq<T>)>,
}

spec fn job_targets<T>(j: Job<T>) -> (Seq<Key>, Seq<Key>) {
    (slot_keys(j.inputs@), slot_keys(j.outputs@))
}

/// The state of `cache` when `j` has done its operations before `pos`: the
/// keys are those the plan leads to, the plan ends holding its targets when
/// it succeeds, it is sound and each of its calls can be performed, and every
/// tensor not initialised so far is the one cached when the plan started.
spec fn job_inv_at<T>(cache: IoCache<T>, j: Job<T>, pos: int) -> bool {
    let t = job_targets(j);
    &&& 0 <= pos <= j.ops@.len()
    &&& cache.keys() == apply_ops(j.start@, j.ops@.take(pos), t)
    &&& j.end is Ok ==> apply_ops(j.start@, j.ops@, t) == t
    &&& all_ops(j.ops@, |op: Op| op_sound(op, t))
    &&& plan_ready(j.start@, j.ops@, t)
    &&& process_last((j.ops@, j.end))
    &&& forall|k: IoKind| #[trigger] side(j.start_tensors@, k).len() == side(j.start@, k).len()
    &&& keeps_untouched(cache.keys(), cache.tensors(), j.start_tensors@, j.ops@.take(pos))
}

/// A loaded model session, reusable across many inferences: the IO tensors
/// it has cached, and the operation in progress, if any.
pub struct Session<T> {
    io_cache: IoCache<T>,
    job: Option<Job<T>>,
}

impl<T> Session<T> {
    /// The keys of the cached input and output tensors.
    pub closed spec fn keys(self) -> (Seq<Key>, Seq<Key>) {
        self.io_cache.keys()
    }

    /// The cached input and output tensors, in slot order.
    pub closed spec fn tensors(self) -> (Seq<T>, Seq<T>) {
        self.io_cache.tensors()
    }

    /// The tensor cached at position `index` of the `kind` half.
    pub open spec fn tensor_at(self, kind: IoKind, index: int) -> T {
        side(self.tensors(), kind)[index]
    }

    /// Whether an operation is in progress, waiting for the outcome of a call.
    pub closed spec fn busy(self) -> bool {
        self.job is Some
    }

    /// The operations of the plan in progress.
    pub closed spec fn ops(self) -> Seq<Op> {
        self.job->Some_0.ops@
    }

    /// The result the plan in progress ends in if all its calls succeed.
    pub closed spec fn end(self) -> Result<()> {
        self.job->Some_0.end
    }

    /// The position, in the plan in progress, of the call being waited for.
    pub closed spec fn next(self) -> int {
        self.job->Some_0.next as int
    }

    /// The cache keys when the plan in progress started.
    pub closed spec fn start(self) -> (Seq<Key>, Seq<Key>) {
        self.job->Some_0.start@
    }

    /// The cached tensors when the plan in progress started.
    pub closed spec fn start_tensors(self) -> (Seq<T>, Seq<T>) {
        self.job->Some_0.start_tensors@
    }

    /// The input and output slots the plan in progress works towards.
    pub closed spec fn targets(self) -> (Seq<Key>, Seq<Key>) {
        job_targets(self.job->Some_0)
    }

    /// The call being waited for.
    pub open spec fn pending(self) -> Call {
        self.ops()[self.next()]->Call_0
    }

    /// Well-formedness: every cached key is valid; and while an operation is
    /// in progress, the call waited for is a call of its plan, the cache
    /// reflects the plan's operations before it, and the tensors it has not
    /// initialised are those cached when it started.
    pub closed spec fn wf(self) -> bool {
        &&& keys_valid(self.io_cache.keys())
        &&& match self.job {
            None => true,
            Some(j) => {
                &&& j.next < j.ops@.len()
                &&& j.ops@[j.next as int] is Call
                &&& job_inv_at(self.io_cache, j, j.next as int)
            },
        }
    }

    /// A well-formed session holds valid keys, and the call it waits for can
    /// be performed on its cache: an input it asks to write has a cached
    /// tensor, and an inference it asks to run counts exactly the cached
    /// tensors, which are then those of the slots the operation works
    /// towards, in order.
    pub proof fn lemma_wf(self)
        requires
            self.wf(),
        ensures
            keys_valid(self.keys()),
            self.busy() ==> ready(self.pending(), self.keys()),
            self.busy() && self.pending() is Process ==> self.keys() == self.targets(),
            forall|k: IoKind| #[trigger] side(self.keys(), k).len() == side(self.tensors(), k).len(),
    {
        self.io_cache.lemma_sides(IoKind::Input);
        self.io_cache.lemma_sides(IoKind::Output);
        if let Some(j) = self.job {
            let n = j.next as int;
            let ops = j.ops@;
            assert(ops[n] is Call);
            if ops[n]->Call_0 is Process {
                let p = (ops, j.end);
                assert(runs_inference(p.0[n]));
                assert(n == ops.len() - 1 && j.end is Ok);
                assert(ops.drop_last() =~= ops.take(n));
                assert(apply_ops(j.start@, ops, job_targets(j)) == apply_op(
                    apply_ops(j.start@, ops.drop_last(), job_targets(j)),
                    ops.last(),
                    job_targets(j),
                ));
            }
        }
    }

    /// Every cached key is valid (its rank fits `i32`, its dtype code is
    /// known), and the call waited for, if any, can be performed on the
    /// cache: an input it writes has a cached tensor, and an inference it
    /// runs counts exactly the cached tensors, which are those created for
    /// the slots the operation works towards, in order.
    pub open spec fn sound(self) -> bool {
        &&& keys_valid(self.keys())
        &&& self.busy() ==> ready(self.pending(), self.keys())
        &&& self.busy() && self.pending() is Process ==> self.keys() == self.targets()
    }

    /// `self` has just started, from cache keys `start` holding tensors
    /// `held`, the plan `plan` working towards `targets`, and answered
    /// `step`; every tensor still cached sits where it sat.
    pub open spec fn started(
        self,
        step: Step,
        plan: Plan,
        start: (Seq<Key>, Seq<Key>),
        held: (Seq<T>, Seq<T>),
        targets: (Seq<Key>, Seq<Key>),
    ) -> bool {
        let k = next_call(plan.0, 0);
        &&& self.sound()
        &&& self.keys() == apply_ops(start, plan.0.take(k), targets)
        &&& step == step_at(plan.0, plan.1, k)
        &&& k < plan.0.len() ==> {
            &&& self.busy()
            &&& self.ops() == plan.0
            &&& self.end() == plan.1
            &&& self.next() == k
            &&& self.start() == start
            &&& self.start_tensors() == held
            &&& self.targets() == targets
        }
        &&& k >= plan.0.len() ==> !self.busy()
        &&& forall|kind: IoKind| #[trigger] side(self.keys(), kind).len() <= side(held, kind).len()
        &&& forall|kind: IoKind, i: int|
            0 <= i < side(self.keys(), kind).len() ==> #[trigger] self.tensor_at(kind, i) == side(
                held,
                kind,
            )[i]
    }
}

fn is_call(op: &Op) -> (r: bool)
    ensures
        r == (*op is Call),
{
    match op {
        Op::Call(_) => true,
        Op::Truncate(..) => false,
    }
}

fn copy_slots(slots: &[(Vec<u32>, i32)]) -> (r: Vec<(Vec<u32>, i32)>)
    ensures
        slot_keys(r@) == slot_keys(slots@),
        r@.len() == slots@.len(),
{
    let mut r: Vec<(Vec<u32>, i32)> = Vec::new();
    for i in 0..slots.len()
        invariant
            r@.len() == i,
            forall|j: int|
                0 <= j < i ==> (#[trigger] r@[j]).0@ == slots@[j].0@ && r@[j].1 == slots@[j].1,
    {
        let shape = vstd::slice::slice_to_vec(slots[i].0.as_slice());
        r.push((shape, slots[i].1));
    }
    assert(slot_keys(r@) =~= slot_keys(slots@));
    r
}

/// Records the successful outcome `reply` of `call` in `cache`: a finished
/// tensor for a target slot (among `inputs` and `outputs`) takes the place
/// of that slot, created for the slot's shape and dtype; nothing else moves.
fn record<T>(
    cache: &mut IoCache<T>,
    call: Call,
    reply: Reply<T>,
    inputs: &Vec<(Vec<u32>, i32)>,
    outputs: &Vec<(Vec<u32>, i32)>,
)
    requires
        accepts(call, reply),
        fault(call, reply) is None,
    ensures
        final(cache).keys() == apply_op(
            old(cache).keys(),
            Op::Call(call),
            (slot_keys(inputs@), slot_keys(outputs@)),
        ),
        forall|k: IoKind, i: int|
            0 <= i < side(final(cache).keys(), k).len() && !touches(Op::Call(call), k, i) ==> i
                < side(old(cache).keys(), k).len() && #[trigger] side(final(cache).tensors(), k)[i]
                == side(old(cache).tensors(), k)[i],
        reply matches Reply::Tensor(x) ==> (call matches Call::InitTensor { kind, index, .. } ==> (
        index < side((slot_keys(inputs@), slot_keys(outputs@)), kind).len() && index < side(
            final(cache).keys(),
            kind,
        ).len() ==> side(final(cache).tensors(), kind)[index as int] == x)),
{
    let ghost pre = *cache;
    let ghost t = (slot_keys(inputs@), slot_keys(outputs@));
    proof {
        pre.lemma_sides(IoKind::Input);
        pre.lemma_sides(IoKind::Output);
    }
    if let Reply::Tensor(tensor) = reply {
        if let Call::InitTensor { kind, index, .. } = call {
            let slots = match kind {
                IoKind::Input => inputs,
                IoKind::Output => outputs,
            };
            assert(slot_keys(slots@).len() == slots@.len());
            assert(slot_keys(slots@) == side(t, kind));
            if index < slots.len() && index <= cache.slots_ref(kind).len() {
                let shape = vstd::slice::slice_to_vec(slots[index].0.as_slice());
                let dtype = slots[index].1;
                assert(side(t, kind)[index as int] == (shape@, dtype));
                cache.install(kind, index, CachedIo { tensor, shape, dtype });
            }
        }
    }
    proof {
        cache.lemma_sides(IoKind::Input);
        cache.lemma_sides(IoKind::Output);
        assert forall|k: IoKind, i: int|
            0 <= i < side(cache.keys(), k).len() && !touches(Op::Call(call), k, i) implies i
                < side(pre.keys(), k).len() && #[trigger] side(cache.tensors(), k)[i] == side(
                pre.tensors(),
                k,
            )[i] by {
            cache.lemma_sides(k);
            pre.lemma_sides(k);
            assert(cache.slots(k)@[i] == pre.slots(k)@[i]);
        }
    }
}

/// One more operation `ops[n]`, which moved no tensor it did not
/// initialise, keeps the tensors that `ops` never initialises.
proof fn lemma_untouched_step<T>(
    pre: IoCache<T>,
    mid: IoCache<T>,
    held: (Seq<T>, Seq<T>),
    ops: Seq<Op>,
    n: int,
)
    requires
        0 <= n < ops.len(),
        keeps_untouched(pre.keys(), pre.tensors(), held, ops.take(n)),
        forall|k: IoKind, i: int|
            0 <= i < side(mid.keys(), k).len() && !touches(ops[n], k, i) ==> i < side(
                pre.keys(),
                k,
            ).len() && #[trigger] side(mid.tensors(), k)[i] == side(pre.tensors(), k)[i],
    ensures
        keeps_untouched(mid.keys(), mid.tensors(), held, ops.take(n + 1)),
{
    lemma_untouched_take(ops.take(n + 1), n);
    assert(ops.take(n + 1).take(n) =~= ops.take(n));
    assert forall|k: IoKind, i: int|
        0 <= i < side(mid.keys(), k).len() && i < side(held, k).len() && untouched(
            ops.take(n + 1),
            k,
            i,
        ) implies #[trigger] side(mid.tensors(), k)[i] == side(held, k)[i] by {
        assert(ops.take(n + 1)[n] == ops[n]);
        assert(!touches(ops[n], k, i));
        assert(side(mid.tensors(), k)[i] == side(pre.tensors(), k)[i]);
        assert(untouched(ops.take(n), k, i));
    }
}

/// A session whose cache holds a prefix of `before` holds every tensor it
/// still caches where `before` held it.
proof fn lemma_held_in_place<T>(before: IoCache<T>, after: Session<T>)
    requires
        IoCache::keeps_prefix(before, after.io_cache),
    ensures
        forall|kind: IoKind| #[trigger] side(after.keys(), kind).len() <= side(before.tensors(), kind).len(),
        forall|kind: IoKind, i: int|
            0 <= i < side(after.keys(), kind).len() ==> #[trigger] after.tensor_at(kind, i) == side(
                before.tensors(),
                kind,
            )[i],
{
    lemma_prefix_tensors(before, after.io_cache);
    assert forall|kind: IoKind| #[trigger] side(after.keys(), kind).len() <= side(
        before.tensors(),
        kind,
    ).len() by {
        before.lemma_sides(kind);
        after.io_cache.lemma_sides(kind);
        assert(after.io_cache.slots(kind)@.len() <= before.slots(kind)@.len());
    }
    assert forall|kind: IoKind, i: int| 0 <= i < side(after.keys(), kind).len() implies #[trigger] after.tensor_at(
        kind,
        i,
    ) == side(before.tensors(), kind)[i] by {
        assert(side(after.io_cache.tensors(), kind)[i] == side(before.tensors(), kind)[i]);
    }
}

proof fn lemma_prefix_tensors<T>(a: IoCache<T>, b: IoCache<T>)
    requires
        IoCache::keeps_prefix(a, b),
    ensures
        forall|k: IoKind, i: int|
            0 <= i < side(b.keys(), k).len() ==> i < side(a.keys(), k).len() && #[trigger] side(
                b.tensors(),
                k,
            )[i] == side(a.tensors(), k)[i],
{
    a.lemma_sides(IoKind::Input);
    a.lemma_sides(IoKind::Output);
    b.lemma_sides(IoKind::Input);
    b.lemma_sides(IoKind::Output);
    assert forall|k: IoKind, i: int| 0 <= i < side(b.keys(), k).len() implies i < side(
        a.keys(),
        k,
    ).len() && #[trigger] side(b.tensors(), k)[i] == side(a.tensors(), k)[i] by {
        assert(b.slots(k)@.len() <= a.slots(k)@.len());
        assert(b.slots(k)@[i] == a.slots(k)@[i]);
    }
}

impl<T> Session<T> {
    /// Runs the operations of `job` from position `job.next` that need no
    /// DDK call, up to its next call, and answers with that call, or with
    /// the job's result once all its operations are done.
    fn settle(&mut self, job: Job<T>) -> (step: Step)
        requires
            old(self).job is None,
            keys_valid(old(self).io_cache.keys()),
            job_inv_at(old(self).io_cache, job, job.next as int),
        ensures
            final(self).wf(),
            IoCache::keeps_prefix(old(self).io_cache, final(self).io_cache),
            ({
                let k = next_call(job.ops@, job.next as int);
                &&& final(self).keys() == apply_ops(job.start@, job.ops@.take(k), job_targets(job))
                &&& keeps_untouched(
                    final(self).keys(),
                    final(self).tensors(),
                    job.start_tensors@,
                    job.ops@.take(k),
                )
                &&& step == step_at(job.ops@, job.end, k)
                &&& k < job.ops@.len() ==> {
                    &&& final(self).busy()
                    &&& final(self).ops() == job.ops@
                    &&& final(self).end() == job.end
                    &&& final(self).next() == k
                    &&& final(self).start() == job.start@
                    &&& final(self).start_tensors() == job.start_tensors@
                    &&& final(self).targets() == job_targets(job)
                }
                &&& k >= job.ops@.len() ==> !final(self).busy()
            }),
    {
        let mut job = job;
        let ghost t = job_targets(job);
        let ghost from = job.next as int;
        let mut k = job.next;
        while k < job.ops.len() && !is_call(&job.ops[k])
            invariant
                from <= k <= job.ops@.len(),
                self.job is None,
                job_targets(job) == t,
                job.next == from,
                next_call(job.ops@, from) == next_call(job.ops@, k as int),
                keys_valid(self.io_cache.keys()),
                job_inv_at(self.io_cache, job, k as int),
                IoCache::keeps_prefix(old(self).io_cache, self.io_cache),
            decreases job.ops@.len() - k,
        {
            let op = job.ops[k];
            let ghost before = self.io_cache;
            match op {
                Op::Truncate(kind, n) => {
                    self.io_cache.truncate(kind, n);
                },
                Op::Call(_) => {},
            }
            proof {
                assert(job.ops@.take(k + 1) =~= job.ops@.take(k as int).push(op));
                assert(job.ops@.take(k + 1).drop_last() =~= job.ops@.take(k as int));
                assert(op_sound(job.ops@[k as int], t));
                lemma_apply_op_valid(before.keys(), op, t);
                lemma_prefix_tensors(before, self.io_cache);
                lemma_untouched_take(job.ops@.take(k + 1), k as int);
                assert(job.ops@.take(k + 1).take(k as int) =~= job.ops@.take(k as int));
            }
            k = k + 1;
        }
        if k < job.ops.len() {
            let call = match job.ops[k] {
                Op::Call(c) => c,
                Op::Truncate(..) => {
                    // `is_call` held when the loop stopped before the end
                    assert(false);
                    return Step::Done(Ok(()));
                },
            };
            job.next = k;
            self.job = Some(job);
            Step::Call(call)
        } else {
            assert(job.ops@.take(k as int) =~= job.ops@);
            Step::Done(job.end)
        }
    }

    /// Starts `job` from its first operation.
    fn start_job(&mut self, job: Job<T>) -> (step: Step)
        requires
            keys_valid(old(self).io_cache.keys()),
            job.next == 0,
            old(self).io_cache.keys() == job.start@,
            old(self).io_cache.tensors() == job.start_tensors@,
            job.end is Ok ==> apply_ops(job.start@, job.ops@, job_targets(job)) == job_targets(
                job,
            ),
            all_ops(job.ops@, |op: Op| op_sound(op, job_targets(job))),
            plan_ready(job.start@, job.ops@, job_targets(job)),
            process_last((job.ops@, job.end)),
        ensures
            final(self).wf(),
            final(self).started(
                step,
                (job.ops@, job.end),
                job.start@,
                job.start_tensors@,
                job_targets(job),
            ),
    {
        self.job = None;
        proof {
            assert(job.ops@.take(0) =~= Seq::<Op>::empty());
            self.io_cache.lemma_sides(IoKind::Input);
            self.io_cache.lemma_sides(IoKind::Output);
            assert forall|k: IoKind| #[trigger] side(job.start_tensors@, k).len() == side(
                job.start@,
                k,
            ).len() by {
                self.io_cache.lemma_sides(k);
            }
        }
        let ghost before = self.io_cache;
        let step = self.settle(job);
        proof {
            self.lemma_wf();
            lemma_held_in_place(before, *self);
        }
        step
    }

    /// Starts loading a prebuilt offline model of `model_bytes` into the NPU
    /// model manager: answers with a new session, whose IO cache is empty,
    /// and its first step.
    pub fn load(model_bytes: &[u8]) -> (r: (Self, Step))
        ensures
            r.0.wf(),
            r.0.started(
                r.1,
                load_plan(model_bytes@.len()),
                (Seq::<Key>::empty(), Seq::<Key>::empty()),
                (Seq::<T>::empty(), Seq::<T>::empty()),
                (Seq::<Key>::empty(), Seq::<Key>::empty()),
            ),
    {
        let (ops, end) = build_load(model_bytes.len());
        let ghost empty = (Seq::<Key>::empty(), Seq::<Key>::empty());
        let mut session = Session { io_cache: IoCache::new(), job: None };
        let job = Job {
            ops,
            end,
            next: 0,
            inputs: Vec::new(),
            outputs: Vec::new(),
            start: Ghost(empty),
            start_tensors: Ghost(session.io_cache.tensors()),
        };
        proof {
            assert(job_targets(job) =~= empty);
            assert(session.io_cache.tensors() =~= (Seq::<T>::empty(), Seq::<T>::empty()));
            assert(keys_valid(session.io_cache.keys()));
            lemma_load_keeps_keys(empty, model_bytes@.len(), empty);
            lemma_load_plan_props(model_bytes@.len(), empty, empty);
        }
        let step = session.start_job(job);
        (session, step)
    }

    /// Starts pre-creating the DDK IO tensors for `input_slots` and
    /// `output_slots` (`(shape, dtype)` pairs), so that a later dispatch with
    /// the same shapes and dtypes creates none. Tensors whose shape and dtype
    /// are unchanged are kept in place; the others are recreated. Any
    /// operation in progress is abandoned.
    pub fn prepare_io(
        &mut self,
        input_slots: &[(Vec<u32>, i32)],
        output_slots: &[(Vec<u32>, i32)],
    ) -> (step: Step)
        requires
            old(self).wf(),
        ensures
            final(self).wf(),
            final(self).started(
                step,
                prepare_plan(old(self).keys(), slot_keys(input_slots@), slot_keys(output_slots@)),
                old(self).keys(),
                old(self).tensors(),
                (slot_keys(input_slots@), slot_keys(output_slots@)),
            ),
            step == Step::Done(Ok(())) ==> final(self).keys() == (
                slot_keys(input_slots@),
                slot_keys(output_slots@),
            ),
    {
        proof {
            self.lemma_wf();
        }
        let inputs = copy_slots(input_slots);
        let outputs = copy_slots(output_slots);
        assert(inputs@.len() == inputs.len() && outputs@.len() == outputs.len());
        let (ops, end) = build_prepare(&self.io_cache, &inputs, &outputs);
        let ghost plan = (ops@, end);
        let ghost start = self.io_cache.keys();
        let ghost targets = (slot_keys(inputs@), slot_keys(outputs@));
        let job = Job {
            ops,
            end,
            next: 0,
            inputs,
            outputs,
            start: Ghost(self.io_cache.keys()),
            start_tensors: Ghost(self.io_cache.tensors()),
        };
        proof {
            assert(slot_keys(inputs@).len() == inputs@.len());
            assert(slot_keys(outputs@).len() == outputs@.len());
            if end is Ok {
                lemma_prepare_reaches_slots(start, targets.0, targets.1);
            }
            lemma_prepare_plan_props(start, targets.0, targets.1);
        }
        let step = self.start_job(job);
        proof {
            lemma_next_call_bounds(plan.0, 0);
            assert(plan.0.take(plan.0.len() as int) =~= plan.0);
        }
        step
    }

    /// Starts one inference over `inputs` and `outputs` on the loaded model:
    /// the IO tensors are reused in place when shapes and dtypes are
    /// unchanged and recreated otherwise. When the answer is `Done(Ok(()))`,
    /// the results are ready in the output tensors (see `read_back`). Any
    /// operation in progress is abandoned.
    pub fn dispatch(&mut self, inputs: &[InputDesc<'_>], outputs: &[OutputDesc<'_>]) -> (step: Step)
        requires
            old(self).wf(),
        ensures
            final(self).wf(),
            final(self).started(
                step,
                dispatch_plan(old(self).keys(), inputs@, outputs@),
                old(self).keys(),
                old(self).tensors(),
                (input_keys(inputs@), output_keys(outputs@)),
            ),
            step == Step::Done(Ok(())) ==> final(self).keys() == (
                input_keys(inputs@),
                output_keys(outputs@),
            ),
    {
        proof {
            self.lemma_wf();
        }
        let (ops, end, in_slots, out_slots) = build_dispatch(&self.io_cache, inputs, outputs);
        let ghost plan = (ops@, end);
        let ni = inputs.len();
        let no = outputs.len();
        let job = Job {
            ops,
            end,
            next: 0,
            inputs: in_slots,
            outputs: out_slots,
            start: Ghost(self.io_cache.keys()),
            start_tensors: Ghost(self.io_cache.tensors()),
        };
        proof {
            if end is Ok {
                lemma_dispatch_reaches_slots(self.io_cache.keys(), inputs@, outputs@);
            }
            lemma_dispatch_plan_props(self.io_cache.keys(), inputs@, outputs@);
        }
        let step = self.start_job(job);
        proof {
            lemma_next_call_bounds(plan.0, 0);
            assert(plan.0.take(plan.0.len() as int) =~= plan.0);
        }
        step
    }
}

impl<T> Session<T> {
    /// The number of tensors cached in the `kind` half.
    pub fn cached_len(&self, kind: IoKind) -> (n: usize)
        ensures
            n == side(self.keys(), kind).len(),
            n == side(self.tensors(), kind).len(),
    {
        proof {
            self.io_cache.lemma_sides(kind);
        }
        self.io_cache.slots_ref(kind).len()
    }

    /// The tensor cached at position `index` of the `kind` half.
    pub fn tensor(&self, kind: IoKind, index: usize) -> (t: &T)
        requires
            index < side(self.keys(), kind).len(),
        ensures
            *t == self.tensor_at(kind, index as int),
    {
        proof {
            self.io_cache.lemma_sides(kind);
        }
        &self.io_cache.slots_ref(kind)[index].tensor
    }

    /// Records the outcome `reply` of the call being waited for, and answers
    /// with the next step. The driver must hand back an outcome the call can
    /// have (see `accepts`).
    ///
    /// A failed call (a null handle, or a non-zero status) ends the operation
    /// with the error for that call, and leaves the cache as it was. A
    /// successful one is recorded (a finished tensor takes the place of its
    /// slot, and no other tensor moves) and the session moves on to the next
    /// call, or ends the operation with its result. Throughout an operation,
    /// a tensor cached at a slot that the operation's plan never initialises
    /// stays where it was when the operation started, and a half of the cache
    /// that the plan never works on (see `spares`) keeps its keys and its
    /// tensors.
    pub fn resume(&mut self, reply: Reply<T>) -> (step: Step)
        requires
            old(self).wf(),
            old(self).busy(),
            accepts(old(self).pending(), reply),
        ensures
            final(self).wf(),
            match fault(old(self).pending(), reply) {
                Some(e) => {
                    &&& step == Step::Done(Err(e))
                    &&& !final(self).busy()
                    &&& final(self).keys() == old(self).keys()
                    &&& final(self).tensors() == old(self).tensors()
                },
                None => {
                    let k = next_call(old(self).ops(), old(self).next() + 1);
                    &&& final(self).keys() == apply_ops(
                        old(self).start(),
                        old(self).ops().take(k),
                        old(self).targets(),
                    )
                    &&& step == step_at(old(self).ops(), old(self).end(), k)
                    &&& k < old(self).ops().len() ==> {
                        &&& final(self).busy()
                        &&& final(self).ops() == old(self).ops()
                        &&& final(self).end() == old(self).end()
                        &&& final(self).next() == k
                        &&& final(self).start() == old(self).start()
                        &&& final(self).start_tensors() == old(self).start_tensors()
                        &&& final(self).targets() == old(self).targets()
                    }
                    &&& k >= old(self).ops().len() ==> !final(self).busy()
                },
            },
            step == Step::Done(Ok(())) ==> final(self).keys() == old(self).targets(),
            forall|kind: IoKind, i: int|
                0 <= i < side(final(self).keys(), kind).len() && i < side(old(self).keys(), kind).len()
                    && !touches(Op::Call(old(self).pending()), kind, i)
                    ==> #[trigger] final(self).tensor_at(kind, i) == old(self).tensor_at(kind, i),
            keeps_untouched(
                final(self).keys(),
                final(self).tensors(),
                old(self).start_tensors(),
                old(self).ops(),
            ),
            reply matches Reply::Tensor(t) ==> (old(self).pending() matches Call::InitTensor {
                kind,
                index,
                ..
            } ==> ({
                &&& index < side(old(self).targets(), kind).len()
                &&& index < side(final(self).keys(), kind).len()
            } ==> final(self).tensor_at(kind, index as int) == t)),
            forall|kind: IoKind|
                #[trigger] spares(old(self).ops(), kind) ==> side(final(self).keys(), kind) == side(
                    old(self).keys(),
                    kind,
                ) && side(final(self).tensors(), kind) == side(old(self).tensors(), kind),
            final(self).sound(),
    {
        let mut job = match self.job.take() {
            Some(j) => j,
            None => {
                assert(false);
                return Step::Done(Ok(()));
            },
        };
        let ghost t = job_targets(job);
        let next = job.next;
        let n_ops = job.ops.len();
        assert(next < n_ops);
        let call = match job.ops[next] {
            Op::Call(c) => c,
            Op::Truncate(..) => {
                assert(false);
                return Step::Done(Ok(()));
            },
        };
        proof {
            lemma_untouched_take(job.ops@, next as int);
        }
        if let Some(e) = check_reply(&call, &reply) {
            proof {
                self.lemma_wf();
            }
            return Step::Done(Err(e));
        }
        let ghost reply0 = reply;
        let ghost pre = self.io_cache;
        record(&mut self.io_cache, call, reply, &job.inputs, &job.outputs);
        let ghost mid = self.io_cache;
        proof {
            let op = job.ops@[next as int];
            assert(job.ops@.take(next + 1) =~= job.ops@.take(next as int).push(op));
            assert(job.ops@.take(next + 1).drop_last() =~= job.ops@.take(next as int));
            assert(op_sound(op, t));
            lemma_apply_op_valid(pre.keys(), op, t);
            lemma_untouched_step(pre, mid, job.start_tensors@, job.ops@, next as int);
        }
        let ghost ops = job.ops@;
        let ghost start = job.start@;
        let ghost end = job.end;
        let ghost start_tensors = job.start_tensors@;
        job.next = next + 1;
        let step = self.settle(job);
        proof {
            lemma_prefix_tensors(mid, self.io_cache);
            assert forall|kind: IoKind, i: int|
                0 <= i < side(self.keys(), kind).len() && i < side(old(self).keys(), kind).len()
                    && !touches(Op::Call(call), kind, i) implies #[trigger] self.tensor_at(kind, i)
                == old(self).tensor_at(kind, i) by {
                assert(side(self.io_cache.tensors(), kind)[i] == side(mid.tensors(), kind)[i]);
                assert(side(mid.tensors(), kind)[i] == side(pre.tensors(), kind)[i]);
            }
            if let Reply::Tensor(x) = reply0 {
                if let Call::InitTensor { kind, index, .. } = call {
                    let i = index as int;
                    if i < side(t, kind).len() && i < side(self.io_cache.keys(), kind).len() {
                        assert(side(self.io_cache.tensors(), kind)[i] == side(mid.tensors(), kind)[i]);
                    }
                }
            }
            lemma_next_call_bounds(ops, next + 1);
            let k = next_call(ops, next + 1);
            lemma_untouched_take(ops, k);
            if step == Step::Done(Ok(())) {
                assert(ops.take(ops.len() as int) =~= ops);
            }
            self.lemma_wf();
            old(self).lemma_wf();
            assert forall|kind: IoKind| #[trigger] spares(ops, kind) implies side(self.keys(), kind)
                == side(old(self).keys(), kind) && side(self.tensors(), kind) == side(
                old(self).tensors(),
                kind,
            ) by {
                lemma_spares_keys(start, ops, t, kind);
                assert(side(self.keys(), kind) == side(start, kind));
                assert(side(old(self).keys(), kind) == side(start, kind));
                assert(!acts_on(ops[next as int], kind));
                assert forall|i: int| 0 <= i < side(self.tensors(), kind).len() implies side(
                    self.tensors(),
                    kind,
                )[i] == side(old(self).tensors(), kind)[i] by {
                    assert(!touches(Op::Call(call), kind, i));
                    assert(self.tensor_at(kind, i) == old(self).tensor_at(kind, i));
                }
                assert(side(self.tensors(), kind) =~= side(old(self).tensors(), kind));
            }
        }
        step
    }
}

/// The tensors of the `kind` half of a session that has just started from
/// `before` are those of `before` when its keys there are unchanged.
proof fn lemma_started_side<T>(
    before: Session<T>,
    after: Session<T>,
    step: Step,
    plan: Plan,
    targets: (Seq<Key>, Seq<Key>),
    kind: IoKind,
)
    requires
        before.wf(),
        after.wf(),
        after.started(step, plan, before.keys(), before.tensors(), targets),
        side(after.keys(), kind) == side(before.keys(), kind),
    ensures
        side(after.tensors(), kind) == side(before.tensors(), kind),
{
    before.lemma_wf();
    after.lemma_wf();
    assert(side(after.keys(), kind).len() == side(after.tensors(), kind).len());
    assert(side(before.keys(), kind).len() == side(before.tensors(), kind).len());
    assert forall|i: int| 0 <= i < side(after.tensors(), kind).len() implies side(
        after.tensors(),
        kind,
    )[i] == side(before.tensors(), kind)[i] by {
        assert(after.tensor_at(kind, i) == side(before.tensors(), kind)[i]);
    }
    assert(side(after.tensors(), kind) =~= side(before.tensors(), kind));
}

/// Law: preparing the slots a session already holds (as after preparing
/// them, or after an inference with those shapes and dtypes) makes no DDK
/// call and ends at once in success, leaving the session as it was, its
/// cached tensors included.
pub proof fn lemma_prepare_held_slots_keeps_session<T>(
    before: Session<T>,
    after: Session<T>,
    step: Step,
    inputs: Seq<Key>,
    outputs: Seq<Key>,
)
    requires
        before.wf(),
        after.wf(),
        before.keys() == (inputs, outputs),
        after.started(
            step,
            prepare_plan(before.keys(), inputs, outputs),
            before.keys(),
            before.tensors(),
            (inputs, outputs),
        ),
    ensures
        step == Step::Done(Ok(())),
        !after.busy(),
        after.keys() == before.keys(),
        after.tensors() == before.tensors(),
{
    lemma_prepare_unchanged_is_noop(inputs, outputs);
    let p = prepare_plan(before.keys(), inputs, outputs);
    assert(p.0.take(0) =~= p.0);
    lemma_started_side(before, after, step, p, (inputs, outputs), IoKind::Input);
    lemma_started_side(before, after, step, p, (inputs, outputs), IoKind::Output);
}

/// Law: an inference whose inputs and outputs have the shapes and dtypes the
/// session already holds (as after preparing them, or after a previous
/// inference with the same shapes and dtypes) creates, drops and replaces no
/// tensor: it starts on the very tensors the session held, and its plan
/// spares both halves of the cache, so no outcome handed to `resume` moves
/// them either: the inference runs on the same tensors.
pub proof fn lemma_same_shapes_reuse_tensors<T>(
    before: Session<T>,
    after: Session<T>,
    step: Step,
    inputs: Seq<InputDesc>,
    outputs: Seq<OutputDesc>,
)
    requires
        before.wf(),
        after.wf(),
        before.keys() == (input_keys(inputs), output_keys(outputs)),
        after.started(
            step,
            dispatch_plan(before.keys(), inputs, outputs),
            before.keys(),
            before.tensors(),
            (input_keys(inputs), output_keys(outputs)),
        ),
    ensures
        after.keys() == before.keys(),
        after.tensors() == before.tensors(),
        spares(dispatch_plan(before.keys(), inputs, outputs).0, IoKind::Input),
        spares(dispatch_plan(before.keys(), inputs, outputs).0, IoKind::Output),
{
    let t = (input_keys(inputs), output_keys(outputs));
    let p = dispatch_plan(before.keys(), inputs, outputs);
    lemma_dispatch_after_prepare(inputs, outputs);
    lemma_next_call_bounds(p.0, 0);
    let k = next_call(p.0, 0);
    assert forall|j: int| 0 <= j < p.0.take(k).len() implies (#[trigger] p.0.take(k)[j]) is Call
        && !(p.0.take(k)[j]->Call_0 is InitTensor) by {
        assert(p.0.take(k)[j] == p.0[j]);
    }
    lemma_inert(before.keys(), p.0.take(k), t);
    lemma_started_side(before, after, step, p, t, IoKind::Input);
    lemma_started_side(before, after, step, p, t, IoKind::Output);
    assert forall|kind: IoKind, j: int| 0 <= j < p.0.len() implies !#[trigger] acts_on(
        p.0[j],
        kind,
    ) by {}
    assert(spares(p.0, IoKind::Input));
    assert(spares(p.0, IoKind::Output));
}

/// Law: when preparing the input half fails, the output half of the
/// session (its keys and its tensors) is left as it was: the operation
/// started by `prepare_io` ends in an error, and its plan never works on
/// the output half, so no outcome handed to `resume` changes it either.
pub proof fn lemma_prepare_input_failure_keeps_outputs<T>(
    before: Session<T>,
    after: Session<T>,
    step: Step,
    inputs: Seq<Key>,
    outputs: Seq<Key>,
)
    requires
        before.wf(),
        after.wf(),
        reconcile_plan(IoKind::Input, side(before.keys(), IoKind::Input), inputs).1 is Err,
        after.started(
            step,
            prepare_plan(before.keys(), inputs, outputs),
            before.keys(),
            before.tensors(),
            (inputs, outputs),
        ),
    ensures
        prepare_plan(before.keys(), inputs, outputs).1 is Err,
        spares(prepare_plan(before.keys(), inputs, outputs).0, IoKind::Output),
        side(after.keys(), IoKind::Output) == side(before.keys(), IoKind::Output),
        side(after.tensors(), IoKind::Output) == side(before.tensors(), IoKind::Output),
{
    let t = (inputs, outputs);
    let p = prepare_plan(before.keys(), inputs, outputs);
    lemma_prepare_input_failure_spares_outputs(before.keys(), inputs, outputs);
    lemma_next_call_bounds(p.0, 0);
    lemma_spares_keys(before.keys(), p.0, t, IoKind::Output);
    lemma_started_side(before, after, step, p, t, IoKind::Output);
}

/// Starts a one-shot inference: load the model in `model_bytes`, then run
/// one inference over `inputs` and `outputs` on it. Answers with the new
/// session and its first step; the session is meant to be dropped once the
/// results are read back. Prefer `Session` for repeated inference.
pub fn dispatch<T>(
    model_bytes: &[u8],
    inputs: &[InputDesc<'_>],
    outputs: &[OutputDesc<'_>],
) -> (r: (Session<T>, Step))
    ensures
        r.0.wf(),
        r.0.started(
            r.1,
            then(
                load_plan(model_bytes@.len()),
                dispatch_plan((Seq::<Key>::empty(), Seq::<Key>::empty()), inputs@, outputs@),
            ),
            (Seq::<Key>::empty(), Seq::<Key>::empty()),
            (Seq::<T>::empty(), Seq::<T>::empty()),
            (input_keys(inputs@), output_keys(outputs@)),
        ),
        r.1 == Step::Done(Ok(())) ==> r.0.keys() == (input_keys(inputs@), output_keys(outputs@)),
{
    let ghost empty = (Seq::<Key>::empty(), Seq::<Key>::empty());
    let mut session: Session<T> = Session { io_cache: IoCache::new(), job: None };
    let ni = inputs.len();
    let no = outputs.len();
    let (mut ops, load_end) = build_load(model_bytes.len());
    let ghost lp = load_plan(model_bytes@.len());
    let ghost dp = dispatch_plan(empty, inputs@, outputs@);
    let (end, in_slots, out_slots) = if load_end.is_ok() {
        let (mut more, end, in_slots, out_slots) = build_dispatch(&session.io_cache, inputs, outputs);
        ops.append(&mut more);
        (end, in_slots, out_slots)
    } else {
        (load_end, input_slots(inputs), output_slots(outputs))
    };
    let ghost plan = (ops@, end);
    let ghost targets = (input_keys(inputs@), output_keys(outputs@));
    proof {
        assert(plan == then(lp, dp));
        if end is Ok {
            lemma_apply_concat(empty, lp.0, dp.0, targets);
            lemma_load_keeps_keys(empty, model_bytes@.len(), targets);
            lemma_dispatch_reaches_slots(empty, inputs@, outputs@);
        }
        lemma_one_shot_plan_props(model_bytes@.len(), inputs@, outputs@);
        assert(session.io_cache.tensors() =~= (Seq::<T>::empty(), Seq::<T>::empty()));
        assert(keys_valid(session.io_cache.keys()));
    }
    let job = Job {
        ops,
        end,
        next: 0,
        inputs: in_slots,
        outputs: out_slots,
        start: Ghost(empty),
        start_tensors: Ghost(session.io_cache.tensors()),
    };
    let step = session.start_job(job);
    proof {
        lemma_next_call_bounds(plan.0, 0);
        assert(plan.0.take(plan.0.len() as int) =~= plan.0);
    }
    (session, step)
}

} // verus!
