//! What a plan does to the keys of the IO cache, and the laws that follow.

use vstd::prelude::*;

use crate::cache::{installed, lemma_with_side, side, truncated, with_side, IoKind, Key};
use crate::plan::{
    calls, create_plan, dispatch_plan, done, feed_one, feed_plan, input_keys, load_plan,
    output_keys, prepare_plan, process_plan, reconcile_plan, slot_plan, slots_plan, then, Call,
    Op, Plan,
};
use crate::dtype::{dtype_of, is_known_dtype};
use crate::error::{Error, Result};
use crate::io::{InputDesc, OutputDesc};

verus! {

/// The cache keys after operation `op` of a plan succeeded, starting from
/// `st`, where `targets` are the slots the plan works towards: a truncation
/// shortens its half, and an initialised tensor takes the key of its slot
/// (a tensor for a slot that is not a target, or that lies past the end of
/// its half, is not kept).
pub open spec fn apply_op(
    st: (Seq<Key>, Seq<Key>),
    op: Op,
    targets: (Seq<Key>, Seq<Key>),
) -> (Seq<Key>, Seq<Key>) {
    match op {
        Op::Truncate(kind, n) => with_side(st, kind, truncated(side(st, kind), n as int)),
        Op::Call(Call::InitTensor { kind, index, .. }) => if index < side(targets, kind).len()
            && index <= side(st, kind).len() {
            with_side(
                st,
                kind,
                installed(side(st, kind), index as int, side(targets, kind)[index as int]),
            )
        } else {
            st
        },
        _ => st,
    }
}

/// The cache keys after the operations `ops` succeeded, starting from `st`.
pub open spec fn apply_ops(
    st: (Seq<Key>, Seq<Key>),
    ops: Seq<Op>,
    targets: (Seq<Key>, Seq<Key>),
) -> (Seq<Key>, Seq<Key>)
    decreases ops.len(),
{
    if ops.len() == 0 {
        st
    } else {
        apply_op(apply_ops(st, ops.drop_last(), targets), ops.last(), targets)
    }
}

/// Applying operations in two parts is applying them all at once.
pub proof fn lemma_apply_concat(
    st: (Seq<Key>, Seq<Key>),
    a: Seq<Op>,
    b: Seq<Op>,
    t: (Seq<Key>, Seq<Key>),
)
    ensures
        apply_ops(st, a + b, t) == apply_ops(apply_ops(st, a, t), b, t),
    decreases b.len(),
{
    if b.len() == 0 {
        assert(a + b =~= a);
    } else {
        lemma_apply_concat(st, a, b.drop_last(), t);
        assert((a + b).drop_last() =~= a + b.drop_last());
        assert((a + b).last() == b.last());
    }
}

/// Every operation is a call other than `InitTensor`: none of them changes
/// the cache keys.
pub open spec fn inert(ops: Seq<Op>) -> bool {
    forall|i: int|
        0 <= i < ops.len() ==> (#[trigger] ops[i]) is Call && !(ops[i]->Call_0 is InitTensor)
}

/// Operations that are all calls other than `InitTensor` leave the cache
/// keys as they are.
pub proof fn lemma_inert(st: (Seq<Key>, Seq<Key>), ops: Seq<Op>, t: (Seq<Key>, Seq<Key>))
    requires
        inert(ops),
    ensures
        apply_ops(st, ops, t) == st,
    decreases ops.len(),
{
    if ops.len() > 0 {
        assert forall|i: int| 0 <= i < ops.drop_last().len() implies (#[trigger] ops.drop_last()[i]) is Call
            && !(ops.drop_last()[i]->Call_0 is InitTensor) by {
            assert(ops.drop_last()[i] == ops[i]);
        }
        lemma_inert(st, ops.drop_last(), t);
        assert(ops.last() == ops[ops.len() - 1]);
    }
}

proof fn lemma_feed_inert(inputs: Seq<InputDesc>, n: nat)
    ensures
        inert(feed_plan(inputs, n).0),
    decreases n,
{
    if n > 0 {
        lemma_feed_inert(inputs, (n - 1) as nat);
        let a = feed_plan(inputs, (n - 1) as nat);
        let b = feed_one(n - 1, inputs[n - 1].data@.len());
        if a.1 is Ok {
            assert forall|i: int| 0 <= i < (a.0 + b.0).len() implies (#[trigger] (a.0 + b.0)[i]) is Call
                && !((a.0 + b.0)[i]->Call_0 is InitTensor) by {
                if i < a.0.len() {
                    assert((a.0 + b.0)[i] == a.0[i]);
                } else {
                    assert((a.0 + b.0)[i] == b.0[i - a.0.len()]);
                }
            }
        }
    }
}

/// Loading a model does not touch the cache keys.
pub proof fn lemma_load_keeps_keys(st: (Seq<Key>, Seq<Key>), len: nat, t: (Seq<Key>, Seq<Key>))
    ensures
        apply_ops(st, load_plan(len).0, t) == st,
{
    let p = load_plan(len);
    assert forall|i: int| 0 <= i < p.0.len() implies (#[trigger] p.0[i]) is Call && !(
    p.0[i]->Call_0 is InitTensor) by {}
    lemma_inert(st, p.0, t);
}

proof fn lemma_single(st: (Seq<Key>, Seq<Key>), op: Op, t: (Seq<Key>, Seq<Key>))
    ensures
        apply_ops(st, seq![op], t) == apply_op(st, op, t),
{
    let ops = seq![op];
    assert(ops.drop_last() =~= Seq::<Op>::empty());
    assert(apply_ops(st, ops.drop_last(), t) == st);
    assert(ops.last() == op);
}

proof fn lemma_create_effect(
    kind: IoKind,
    index: int,
    key: Key,
    st: (Seq<Key>, Seq<Key>),
    t: (Seq<Key>, Seq<Key>),
)
    requires
        0 <= index < side(t, kind).len(),
        index <= side(st, kind).len(),
        index <= usize::MAX,
        create_plan(kind, index, key).1 is Ok,
    ensures
        apply_ops(st, create_plan(kind, index, key).0, t) == with_side(
            st,
            kind,
            installed(side(st, kind), index, side(t, kind)[index]),
        ),
{
    let p = create_plan(kind, index, key);
    let a = seq![
        Op::Call(
            Call::CreateDimension { kind, index: index as usize, rank: key.0.len() as i32 },
        ),
        Op::Call(Call::CreateTensor { kind, index: index as usize }),
    ];
    let dt = crate::dtype::dtype_of(key.1)->Some_0;
    let b = seq![Op::Call(Call::InitTensor { kind, index: index as usize, dtype: dt })];
    assert(p.0 =~= a + b);
    lemma_apply_concat(st, a, b, t);
    assert forall|i: int| 0 <= i < a.len() implies (#[trigger] a[i]) is Call && !(
    a[i]->Call_0 is InitTensor) by {}
    lemma_inert(st, a, t);
    lemma_single(st, b[0], t);
    assert(b =~= seq![b[0]]);
}

proof fn lemma_slots_effect(
    kind: IoKind,
    c: Seq<Key>,
    s: Seq<Key>,
    n: nat,
    st1: (Seq<Key>, Seq<Key>),
    t: (Seq<Key>, Seq<Key>),
)
    requires
        n <= s.len() <= usize::MAX,
        slots_plan(kind, c, s, n).1 is Ok,
        side(t, kind) == s,
        side(st1, kind) == c.take(if c.len() <= s.len() {
            c.len() as int
        } else {
            s.len() as int
        }),
    ensures
        ({
            let m = if c.len() <= s.len() {
                c.len() as int
            } else {
                s.len() as int
            };
            let st2 = apply_ops(st1, slots_plan(kind, c, s, n).0, t);
            let r = side(st2, kind);
            &&& st2 == with_side(st1, kind, r)
            &&& r.len() == (if n <= m {
                m
            } else {
                n as int
            })
            &&& forall|i: int| 0 <= i < n ==> r[i] == s[i]
            &&& forall|i: int| n <= i < m ==> r[i] == c[i]
        }),
    decreases n,
{
    let m = if c.len() <= s.len() {
        c.len() as int
    } else {
        s.len() as int
    };
    if n == 0 {
        lemma_with_side(st1, kind, side(st1, kind), kind);
    } else {
        let k = (n - 1) as nat;
        let a = slots_plan(kind, c, s, k);
        let b = slot_plan(kind, c, s, k as int);
        assert(a.1 is Ok);
        lemma_slots_effect(kind, c, s, k, st1, t);
        lemma_apply_concat(st1, a.0, b.0, t);
        let mid = apply_ops(st1, a.0, t);
        let rm = side(mid, kind);
        if k < c.len() && c[k as int] == s[k as int] {
            assert(b.0 =~= Seq::<Op>::empty());
        } else {
            assert(b.1 is Ok);
            lemma_create_effect(kind, k as int, s[k as int], mid, t);
            let r2 = installed(rm, k as int, s[k as int]);
            lemma_with_side(st1, kind, rm, kind);
            lemma_with_side(st1, kind, r2, kind);
        }
    }
}

proof fn lemma_reconcile_effect(
    kind: IoKind,
    st: (Seq<Key>, Seq<Key>),
    s: Seq<Key>,
    t: (Seq<Key>, Seq<Key>),
)
    requires
        side(t, kind) == s,
        s.len() <= usize::MAX,
        reconcile_plan(kind, side(st, kind), s).1 is Ok,
    ensures
        apply_ops(st, reconcile_plan(kind, side(st, kind), s).0, t) == with_side(st, kind, s),
{
    let c = side(st, kind);
    let trunc = if c.len() > s.len() {
        calls(seq![Op::Truncate(kind, s.len() as usize)])
    } else {
        done()
    };
    let sp = slots_plan(kind, c, s, s.len());
    assert(reconcile_plan(kind, c, s).0 =~= trunc.0 + sp.0);
    lemma_apply_concat(st, trunc.0, sp.0, t);
    let st1 = apply_ops(st, trunc.0, t);
    let m = if c.len() <= s.len() {
        c.len() as int
    } else {
        s.len() as int
    };
    if c.len() > s.len() {
        lemma_single(st, Op::Truncate(kind, s.len() as usize), t);
    } else {
        assert(c.take(m) =~= c);
    }
    lemma_with_side(st, kind, c.take(m), kind);
    lemma_with_side(st, kind, c, kind);
    lemma_slots_effect(kind, c, s, s.len(), st1, t);
    let st2 = apply_ops(st1, sp.0, t);
    assert(side(st2, kind) =~= s);
    lemma_with_side(st1, kind, side(st2, kind), kind);
    lemma_with_side(st, kind, c.take(m), kind);
}

// ---------------------------------------------------------------------------
// Properties of every operation of a plan
// ---------------------------------------------------------------------------

/// Every operation of `ops` has property `p`.
pub open spec fn all_ops(ops: Seq<Op>, p: spec_fn(Op) -> bool) -> bool {
    forall|j: int| 0 <= j < ops.len() ==> p(#[trigger] ops[j])
}

proof fn lemma_all_concat(a: Seq<Op>, b: Seq<Op>, p: spec_fn(Op) -> bool)
    requires
        all_ops(a, p),
        all_ops(b, p),
    ensures
        all_ops(a + b, p),
{
    assert forall|j: int| 0 <= j < (a + b).len() implies p(#[trigger] (a + b)[j]) by {
        if j < a.len() {
            assert((a + b)[j] == a[j]);
        } else {
            assert((a + b)[j] == b[j - a.len()]);
        }
    }
}

proof fn lemma_all_then(a: Plan, b: Plan, p: spec_fn(Op) -> bool)
    requires
        all_ops(a.0, p),
        a.1 is Ok ==> all_ops(b.0, p),
    ensures
        all_ops(then(a, b).0, p),
{
    if a.1 is Ok {
        lemma_all_concat(a.0, b.0, p);
    }
}

proof fn lemma_all_slots(
    kind: IoKind,
    c: Seq<Key>,
    s: Seq<Key>,
    n: nat,
    p: spec_fn(Op) -> bool,
)
    requires
        forall|i: int| 0 <= i < n ==> all_ops(#[trigger] slot_plan(kind, c, s, i).0, p),
    ensures
        all_ops(slots_plan(kind, c, s, n).0, p),
    decreases n,
{
    if n > 0 {
        lemma_all_slots(kind, c, s, (n - 1) as nat, p);
        assert(all_ops(slot_plan(kind, c, s, n - 1).0, p));
        lemma_all_then(slots_plan(kind, c, s, (n - 1) as nat), slot_plan(kind, c, s, n - 1), p);
    }
}

proof fn lemma_all_reconcile(kind: IoKind, c: Seq<Key>, s: Seq<Key>, p: spec_fn(Op) -> bool)
    requires
        p(Op::Truncate(kind, s.len() as usize)),
        forall|i: int| 0 <= i < s.len() ==> all_ops(#[trigger] slot_plan(kind, c, s, i).0, p),
    ensures
        all_ops(reconcile_plan(kind, c, s).0, p),
{
    lemma_all_slots(kind, c, s, s.len(), p);
    let trunc = if c.len() > s.len() {
        calls(seq![Op::Truncate(kind, s.len() as usize)])
    } else {
        done()
    };
    assert(all_ops(trunc.0, p)) by {
        if c.len() > s.len() {
            assert(trunc.0[0] == Op::Truncate(kind, s.len() as usize));
        }
    }
    lemma_all_then(trunc, slots_plan(kind, c, s, s.len()), p);
}

proof fn lemma_all_feed(inputs: Seq<InputDesc>, n: nat, p: spec_fn(Op) -> bool)
    requires
        forall|i: int|
            0 <= i < n ==> all_ops(#[trigger] feed_one(i, inputs[i].data@.len()).0, p),
    ensures
        all_ops(feed_plan(inputs, n).0, p),
    decreases n,
{
    if n > 0 {
        lemma_all_feed(inputs, (n - 1) as nat, p);
        assert(all_ops(feed_one(n - 1, inputs[n - 1].data@.len()).0, p));
        lemma_all_then(
            feed_plan(inputs, (n - 1) as nat),
            feed_one(n - 1, inputs[n - 1].data@.len()),
            p,
        );
    }
}

/// Whether `op` initialises the tensor for slot `i` of `kind`.
pub open spec fn touches(op: Op, kind: IoKind, i: int) -> bool {
    match op {
        Op::Call(Call::InitTensor { kind: k, index, .. }) => k == kind && index as int == i,
        _ => false,
    }
}

/// No operation of `ops` initialises a tensor for slot `i` of `kind`: a
/// tensor cached there is never replaced by `ops`.
pub open spec fn untouched(ops: Seq<Op>, kind: IoKind, i: int) -> bool {
    all_ops(ops, |op: Op| !touches(op, kind, i))
}

/// Whether `op` may change the `kind` half of the cache: it shortens that
/// half, or initialises a tensor for one of its slots.
pub open spec fn acts_on(op: Op, kind: IoKind) -> bool {
    match op {
        Op::Truncate(k, _) => k == kind,
        Op::Call(Call::InitTensor { kind: k, .. }) => k == kind,
        _ => false,
    }
}

/// No operation of `ops` may change the `kind` half of the cache.
pub open spec fn spares(ops: Seq<Op>, kind: IoKind) -> bool {
    all_ops(ops, |op: Op| !acts_on(op, kind))
}

/// Operations that spare a half leave its keys as they are.
pub proof fn lemma_spares_keys(
    st: (Seq<Key>, Seq<Key>),
    ops: Seq<Op>,
    t: (Seq<Key>, Seq<Key>),
    kind: IoKind,
)
    requires
        spares(ops, kind),
    ensures
        side(apply_ops(st, ops, t), kind) == side(st, kind),
        forall|n: int| 0 <= n <= ops.len() ==> side(#[trigger] apply_ops(st, ops.take(n), t), kind)
            == side(st, kind),
    decreases ops.len(),
{
    if ops.len() > 0 {
        assert forall|j: int| 0 <= j < ops.drop_last().len() implies !acts_on(
            #[trigger] ops.drop_last()[j],
            kind,
        ) by {
            assert(ops.drop_last()[j] == ops[j]);
        }
        lemma_spares_keys(st, ops.drop_last(), t, kind);
        let mid = apply_ops(st, ops.drop_last(), t);
        let op = ops.last();
        assert(!acts_on(ops[ops.len() - 1], kind));
        match op {
            Op::Truncate(k, n) => {
                lemma_with_side(mid, k, truncated(side(mid, k), n as int), kind);
            },
            Op::Call(Call::InitTensor { kind: k, index, .. }) => {
                if index < side(t, k).len() && index <= side(mid, k).len() {
                    lemma_with_side(
                        mid,
                        k,
                        installed(side(mid, k), index as int, side(t, k)[index as int]),
                        kind,
                    );
                }
            },
            _ => {},
        }
        assert forall|n: int| 0 <= n <= ops.len() implies side(
            #[trigger] apply_ops(st, ops.take(n), t),
            kind,
        ) == side(st, kind) by {
            if n == ops.len() {
                assert(ops.take(n) =~= ops);
            } else {
                assert(ops.take(n) =~= ops.drop_last().take(n));
            }
        }
    } else {
        assert forall|n: int| 0 <= n <= ops.len() implies side(
            #[trigger] apply_ops(st, ops.take(n), t),
            kind,
        ) == side(st, kind) by {
            assert(ops.take(n) =~= ops);
        }
    }
}

/// Law: when preparing the input half fails, the output half is never
/// processed: the plan is the failed input reconciliation alone, and none of
/// its operations may change the output half.
pub proof fn lemma_prepare_input_failure_spares_outputs(
    cache: (Seq<Key>, Seq<Key>),
    inputs: Seq<Key>,
    outputs: Seq<Key>,
)
    requires
        reconcile_plan(IoKind::Input, cache.0, inputs).1 is Err,
    ensures
        prepare_plan(cache, inputs, outputs) == reconcile_plan(IoKind::Input, cache.0, inputs),
        prepare_plan(cache, inputs, outputs).1 is Err,
        spares(prepare_plan(cache, inputs, outputs).0, IoKind::Output),
{
    lemma_reconcile_spares_other(IoKind::Input, cache.0, inputs, IoKind::Output);
}

/// Law: reconciling one half of the cache never works on the other half:
/// whether it succeeds or fails, the other half's keys and tensors stay as
/// they are (see `resume`).
pub proof fn lemma_reconcile_spares_other(kind: IoKind, c: Seq<Key>, s: Seq<Key>, other: IoKind)
    requires
        other != kind,
    ensures
        spares(reconcile_plan(kind, c, s).0, other),
{
    let p = |op: Op| !acts_on(op, other);
    assert forall|i: int| 0 <= i < s.len() implies all_ops(
        #[trigger] slot_plan(kind, c, s, i).0,
        p,
    ) by {
        let sp = slot_plan(kind, c, s, i);
        assert forall|j: int| 0 <= j < sp.0.len() implies p(#[trigger] sp.0[j]) by {}
    }
    lemma_all_reconcile(kind, c, s, p);
}

/// A key the DDK can hold a tensor for: its rank fits `i32` and its dtype
/// code is known.
pub open spec fn key_valid(k: Key) -> bool {
    k.0.len() <= i32::MAX && is_known_dtype(k.1)
}

/// Every key of both halves is valid.
pub open spec fn keys_valid(st: (Seq<Key>, Seq<Key>)) -> bool {
    forall|kind: IoKind, i: int|
        0 <= i < side(st, kind).len() ==> key_valid(#[trigger] side(st, kind)[i])
}

/// `op` only initialises tensors for target slots with valid keys, with the
/// data type of their key.
pub open spec fn op_sound(op: Op, t: (Seq<Key>, Seq<Key>)) -> bool {
    match op {
        Op::Call(Call::InitTensor { kind, index, dtype }) => {
            &&& index < side(t, kind).len()
            &&& key_valid(side(t, kind)[index as int])
            &&& dtype_of(side(t, kind)[index as int].1) == Some(dtype)
        },
        _ => true,
    }
}

/// Whether `op` is a call that reads the cached tensors as a whole or by
/// position: writing an input, or running the inference.
pub open spec fn is_io(op: Op) -> bool {
    op matches Op::Call(c) && (c is SetInputData || c is Process)
}

/// Call `c` can be performed on a cache holding `st`: an input written has a
/// cached tensor, and the inference counts are the numbers of cached tensors.
pub open spec fn ready(c: Call, st: (Seq<Key>, Seq<Key>)) -> bool {
    match c {
        Call::SetInputData { index, .. } => index < side(st, IoKind::Input).len(),
        Call::Process { input_count, output_count, .. } => {
            &&& input_count as int == side(st, IoKind::Input).len()
            &&& output_count as int == side(st, IoKind::Output).len()
        },
        _ => true,
    }
}

/// Every call of `ops`, reached from cache keys `st`, can be performed.
pub open spec fn plan_ready(st: (Seq<Key>, Seq<Key>), ops: Seq<Op>, t: (Seq<Key>, Seq<Key>)) -> bool {
    forall|j: int|
        0 <= j < ops.len() && ops[j] is Call ==> ready(
            (#[trigger] ops[j])->Call_0,
            apply_ops(st, ops.take(j), t),
        )
}

/// A sound operation keeps the cache keys valid.
pub proof fn lemma_apply_op_valid(st: (Seq<Key>, Seq<Key>), op: Op, t: (Seq<Key>, Seq<Key>))
    requires
        keys_valid(st),
        op_sound(op, t),
    ensures
        keys_valid(apply_op(st, op, t)),
{
    let r = apply_op(st, op, t);
    assert forall|kind: IoKind, i: int| 0 <= i < side(r, kind).len() implies key_valid(
        #[trigger] side(r, kind)[i],
    ) by {
        match op {
            Op::Truncate(k, n) => {
                lemma_with_side(st, k, truncated(side(st, k), n as int), kind);
                if kind == k {
                    assert(side(r, kind)[i] == side(st, kind)[i]);
                }
            },
            Op::Call(Call::InitTensor { kind: k, index, .. }) => {
                if index < side(t, k).len() && index <= side(st, k).len() {
                    let ins = installed(side(st, k), index as int, side(t, k)[index as int]);
                    lemma_with_side(st, k, ins, kind);
                    if kind == k && i != index {
                        assert(side(r, kind)[i] == side(st, kind)[i]);
                    }
                }
            },
            _ => {},
        }
    }
}

proof fn lemma_create_sound(kind: IoKind, i: int, t: (Seq<Key>, Seq<Key>))
    requires
        0 <= i < side(t, kind).len(),
        i <= usize::MAX,
    ensures
        all_ops(create_plan(kind, i, side(t, kind)[i]).0, |op: Op| op_sound(op, t)),
        all_ops(create_plan(kind, i, side(t, kind)[i]).0, |op: Op| !is_io(op)),
        forall|k: IoKind, i2: int|
            (k != kind || i2 != i) ==> #[trigger] untouched(
                create_plan(kind, i, side(t, kind)[i]).0,
                k,
                i2,
            ),
{
    let p = create_plan(kind, i, side(t, kind)[i]);
    assert forall|j: int| 0 <= j < p.0.len() implies op_sound(#[trigger] p.0[j], t) && !is_io(
        p.0[j],
    ) by {}
    assert forall|k: IoKind, i2: int| (k != kind || i2 != i) implies #[trigger] untouched(
        p.0,
        k,
        i2,
    ) by {
        assert forall|j: int| 0 <= j < p.0.len() implies !touches(#[trigger] p.0[j], k, i2) by {}
    }
}

/// The plan that reconciles a half with `side(t, kind)`: it is sound, it
/// neither writes inputs nor runs the inference, and it initialises a tensor
/// only for slots of `kind` whose cached key differs from the wanted one.
proof fn lemma_reconcile_props(kind: IoKind, c: Seq<Key>, t: (Seq<Key>, Seq<Key>))
    requires
        side(t, kind).len() <= usize::MAX,
    ensures
        all_ops(reconcile_plan(kind, c, side(t, kind)).0, |op: Op| op_sound(op, t)),
        all_ops(reconcile_plan(kind, c, side(t, kind)).0, |op: Op| !is_io(op)),
        forall|k: IoKind, i: int|
            (k != kind || (0 <= i < c.len() && i < side(t, kind).len() && c[i] == side(
                t,
                kind,
            )[i])) ==> #[trigger] untouched(reconcile_plan(kind, c, side(t, kind)).0, k, i),
{
    let s = side(t, kind);
    assert forall|i: int| 0 <= i < s.len() implies all_ops(
        #[trigger] slot_plan(kind, c, s, i).0,
        |op: Op| op_sound(op, t),
    ) && all_ops(slot_plan(kind, c, s, i).0, |op: Op| !is_io(op)) by {
        if !(i < c.len() && c[i] == s[i]) {
            lemma_create_sound(kind, i, t);
        }
    }
    lemma_all_reconcile(kind, c, s, |op: Op| op_sound(op, t));
    lemma_all_reconcile(kind, c, s, |op: Op| !is_io(op));
    assert forall|k: IoKind, i2: int|
        (k != kind || (0 <= i2 < c.len() && i2 < s.len() && c[i2] == s[i2])) implies #[trigger] untouched(
        reconcile_plan(kind, c, s).0,
        k,
        i2,
    ) by {
        assert forall|i: int| 0 <= i < s.len() implies all_ops(
            #[trigger] slot_plan(kind, c, s, i).0,
            |op: Op| !touches(op, k, i2),
        ) by {
            if !(i < c.len() && c[i] == s[i]) {
                lemma_create_sound(kind, i, t);
                assert(untouched(create_plan(kind, i, s[i]).0, k, i2));
            }
        }
        lemma_all_reconcile(kind, c, s, |op: Op| !touches(op, k, i2));
    }
}

/// Slot `i` of `kind` keeps its cached tensor when moving from cache keys
/// `c` to target keys `t`: it is cached, wanted, and its key is unchanged.
pub open spec fn kept(c: (Seq<Key>, Seq<Key>), t: (Seq<Key>, Seq<Key>), kind: IoKind, i: int) -> bool {
    &&& 0 <= i < side(c, kind).len()
    &&& i < side(t, kind).len()
    &&& side(c, kind)[i] == side(t, kind)[i]
}

proof fn lemma_ready_no_io(st: (Seq<Key>, Seq<Key>), ops: Seq<Op>, t: (Seq<Key>, Seq<Key>))
    requires
        all_ops(ops, |op: Op| !is_io(op)),
    ensures
        plan_ready(st, ops, t),
{
    assert forall|j: int| 0 <= j < ops.len() && ops[j] is Call implies ready(
        (#[trigger] ops[j])->Call_0,
        apply_ops(st, ops.take(j), t),
    ) by {
        assert(!is_io(ops[j]));
    }
}

proof fn lemma_ready_concat(
    st: (Seq<Key>, Seq<Key>),
    a: Seq<Op>,
    b: Seq<Op>,
    t: (Seq<Key>, Seq<Key>),
)
    requires
        plan_ready(st, a, t),
        plan_ready(apply_ops(st, a, t), b, t),
    ensures
        plan_ready(st, a + b, t),
{
    assert forall|j: int| 0 <= j < (a + b).len() && (a + b)[j] is Call implies ready(
        (#[trigger] (a + b)[j])->Call_0,
        apply_ops(st, (a + b).take(j), t),
    ) by {
        if j < a.len() {
            assert((a + b).take(j) =~= a.take(j));
            assert((a + b)[j] == a[j]);
        } else {
            let j2 = j - a.len();
            assert((a + b).take(j) =~= a + b.take(j2));
            assert((a + b)[j] == b[j2]);
            lemma_apply_concat(st, a, b.take(j2), t);
        }
    }
}

proof fn lemma_ready_then(st: (Seq<Key>, Seq<Key>), a: Plan, b: Plan, t: (Seq<Key>, Seq<Key>))
    requires
        plan_ready(st, a.0, t),
        a.1 is Ok ==> plan_ready(apply_ops(st, a.0, t), b.0, t),
    ensures
        plan_ready(st, then(a, b).0, t),
{
    if a.1 is Ok {
        lemma_ready_concat(st, a.0, b.0, t);
    }
}

proof fn lemma_feed_ready(inputs: Seq<InputDesc>, st: (Seq<Key>, Seq<Key>), t: (Seq<Key>, Seq<Key>))
    requires
        side(st, IoKind::Input).len() == inputs.len(),
        inputs.len() <= usize::MAX,
    ensures
        plan_ready(st, feed_plan(inputs, inputs.len()).0, t),
        inert(feed_plan(inputs, inputs.len()).0),
{
    let ops = feed_plan(inputs, inputs.len()).0;
    lemma_feed_inert(inputs, inputs.len());
    let p = |op: Op| op matches Op::Call(Call::SetInputData { index, .. }) && index < inputs.len();
    assert forall|i: int| 0 <= i < inputs.len() implies all_ops(
        #[trigger] feed_one(i, inputs[i].data@.len()).0,
        p,
    ) by {}
    lemma_all_feed(inputs, inputs.len(), p);
    assert forall|j: int| 0 <= j < ops.len() && ops[j] is Call implies ready(
        (#[trigger] ops[j])->Call_0,
        apply_ops(st, ops.take(j), t),
    ) by {
        assert(p(ops[j]));
        assert(inert(ops.take(j))) by {
            assert forall|i: int| 0 <= i < ops.take(j).len() implies (#[trigger] ops.take(
                j,
            )[i]) is Call && !(ops.take(j)[i]->Call_0 is InitTensor) by {
                assert(ops.take(j)[i] == ops[i]);
            }
        }
        lemma_inert(st, ops.take(j), t);
    }
}

proof fn lemma_process_props(ni: nat, no: nat, st: (Seq<Key>, Seq<Key>), t: (Seq<Key>, Seq<Key>))
    requires
        side(st, IoKind::Input).len() == ni,
        side(st, IoKind::Output).len() == no,
    ensures
        plan_ready(st, process_plan(ni, no).0, t),
        inert(process_plan(ni, no).0),
{
    let ops = process_plan(ni, no).0;
    assert forall|j: int| 0 <= j < ops.len() && ops[j] is Call implies ready(
        (#[trigger] ops[j])->Call_0,
        apply_ops(st, ops.take(j), t),
    ) by {
        assert(ops.take(j) =~= Seq::<Op>::empty());
    }
}

proof fn lemma_inert_props(ops: Seq<Op>, t: (Seq<Key>, Seq<Key>))
    requires
        inert(ops),
    ensures
        all_ops(ops, |op: Op| op_sound(op, t)),
        forall|k: IoKind, i: int| #[trigger] untouched(ops, k, i),
{
    assert forall|j: int| 0 <= j < ops.len() implies op_sound(#[trigger] ops[j], t) by {}
    assert forall|k: IoKind, i: int| #[trigger] untouched(ops, k, i) by {
        assert forall|j: int| 0 <= j < ops.len() implies !touches(#[trigger] ops[j], k, i) by {}
    }
}

proof fn lemma_untouched_then(a: Plan, b: Plan, k: IoKind, i: int)
    requires
        untouched(a.0, k, i),
        untouched(b.0, k, i),
    ensures
        untouched(then(a, b).0, k, i),
{
    lemma_all_then(a, b, |op: Op| !touches(op, k, i));
}

/// Whether `op` runs the inference.
pub open spec fn runs_inference(op: Op) -> bool {
    op matches Op::Call(c) && c is Process
}

/// A plan that runs the inference runs it as its very last operation, and
/// then succeeds when all its calls do.
pub open spec fn process_last(p: Plan) -> bool {
    forall|j: int|
        0 <= j < p.0.len() && #[trigger] runs_inference(p.0[j]) ==> j == p.0.len() - 1 && p.1 is Ok
}

proof fn lemma_no_process(p: Plan)
    requires
        all_ops(p.0, |op: Op| !is_io(op)),
    ensures
        all_ops(p.0, |op: Op| !runs_inference(op)),
        process_last(p),
{
    assert forall|j: int| 0 <= j < p.0.len() implies !runs_inference(#[trigger] p.0[j]) by {
        assert(!is_io(p.0[j]));
    }
}

proof fn lemma_process_last_then(a: Plan, b: Plan)
    requires
        all_ops(a.0, |op: Op| !runs_inference(op)),
        a.1 is Ok ==> process_last(b),
    ensures
        process_last(then(a, b)),
{
    let p = then(a, b);
    assert forall|j: int| 0 <= j < p.0.len() && #[trigger] runs_inference(p.0[j]) implies j
        == p.0.len() - 1 && p.1 is Ok by {
        if a.1 is Ok {
            if j < a.0.len() {
                assert((a.0 + b.0)[j] == a.0[j]);
                assert(!runs_inference(a.0[j]));
            } else {
                assert((a.0 + b.0)[j] == b.0[j - a.0.len()]);
                assert(runs_inference(b.0[j - a.0.len()]));
            }
        } else {
            assert(!runs_inference(a.0[j]));
        }
    }
}

proof fn lemma_dispatch_process_last(
    cache: (Seq<Key>, Seq<Key>),
    inputs: Seq<InputDesc>,
    outputs: Seq<OutputDesc>,
)
    requires
        inputs.len() <= usize::MAX,
        outputs.len() <= usize::MAX,
    ensures
        process_last(dispatch_plan(cache, inputs, outputs)),
{
    let ik = input_keys(inputs);
    let ok = output_keys(outputs);
    let t = (ik, ok);
    let a = reconcile_plan(IoKind::Input, cache.0, ik);
    let b = feed_plan(inputs, inputs.len());
    let c = reconcile_plan(IoKind::Output, cache.1, ok);
    let d = process_plan(inputs.len(), outputs.len());
    lemma_reconcile_props(IoKind::Input, cache.0, t);
    lemma_reconcile_props(IoKind::Output, cache.1, t);
    lemma_no_process(a);
    lemma_no_process(c);
    let np = |op: Op| !runs_inference(op);
    assert forall|i: int| 0 <= i < inputs.len() implies all_ops(
        #[trigger] feed_one(i, inputs[i].data@.len()).0,
        np,
    ) by {}
    lemma_all_feed(inputs, inputs.len(), np);
    assert(process_last(d));
    lemma_process_last_then(c, d);
    lemma_process_last_then(b, then(c, d));
    lemma_process_last_then(a, then(b, then(c, d)));
}

/// Law: the plan that prepares the IO tensors for `inputs` and `outputs` on
/// a cache holding `cache` initialises tensors only for target slots with
/// valid keys, never writes inputs or runs the inference, and never replaces
/// the tensor of a slot whose key is unchanged.
pub proof fn lemma_prepare_plan_props(
    cache: (Seq<Key>, Seq<Key>),
    inputs: Seq<Key>,
    outputs: Seq<Key>,
)
    requires
        inputs.len() <= usize::MAX,
        outputs.len() <= usize::MAX,
    ensures
        all_ops(prepare_plan(cache, inputs, outputs).0, |op: Op| op_sound(op, (inputs, outputs))),
        plan_ready(cache, prepare_plan(cache, inputs, outputs).0, (inputs, outputs)),
        forall|k: IoKind, i: int|
            kept(cache, (inputs, outputs), k, i) ==> #[trigger] untouched(
                prepare_plan(cache, inputs, outputs).0,
                k,
                i,
            ),
        process_last(prepare_plan(cache, inputs, outputs)),
{
    let t = (inputs, outputs);
    let a = reconcile_plan(IoKind::Input, cache.0, inputs);
    let b = reconcile_plan(IoKind::Output, cache.1, outputs);
    lemma_reconcile_props(IoKind::Input, cache.0, t);
    lemma_reconcile_props(IoKind::Output, cache.1, t);
    lemma_all_then(a, b, |op: Op| op_sound(op, t));
    lemma_all_then(a, b, |op: Op| !is_io(op));
    lemma_ready_no_io(cache, prepare_plan(cache, inputs, outputs).0, t);
    lemma_no_process(prepare_plan(cache, inputs, outputs));
    assert forall|k: IoKind, i: int| kept(cache, t, k, i) implies #[trigger] untouched(
        prepare_plan(cache, inputs, outputs).0,
        k,
        i,
    ) by {
        assert(untouched(a.0, k, i));
        assert(untouched(b.0, k, i));
        lemma_untouched_then(a, b, k, i);
    }
}

/// Law: the plan of an inference over `inputs` and `outputs` on a cache
/// holding `cache` initialises tensors only for target slots with valid
/// keys; every input it writes has a cached tensor and the inference runs
/// with as many inputs and outputs as are cached; and it never replaces the
/// tensor of a slot whose key is unchanged.
pub proof fn lemma_dispatch_plan_props(
    cache: (Seq<Key>, Seq<Key>),
    inputs: Seq<InputDesc>,
    outputs: Seq<OutputDesc>,
)
    requires
        inputs.len() <= usize::MAX,
        outputs.len() <= usize::MAX,
    ensures
        ({
            let t = (input_keys(inputs), output_keys(outputs));
            let p = dispatch_plan(cache, inputs, outputs);
            &&& all_ops(p.0, |op: Op| op_sound(op, t))
            &&& plan_ready(cache, p.0, t)
            &&& forall|k: IoKind, i: int| kept(cache, t, k, i) ==> #[trigger] untouched(p.0, k, i)
            &&& process_last(p)
        }),
{
    lemma_dispatch_process_last(cache, inputs, outputs);
    let ik = input_keys(inputs);
    let ok = output_keys(outputs);
    let t = (ik, ok);
    let a = reconcile_plan(IoKind::Input, cache.0, ik);
    let b = feed_plan(inputs, inputs.len());
    let c = reconcile_plan(IoKind::Output, cache.1, ok);
    let d = process_plan(inputs.len(), outputs.len());
    let cd = then(c, d);
    let bcd = then(b, cd);
    lemma_reconcile_props(IoKind::Input, cache.0, t);
    lemma_reconcile_props(IoKind::Output, cache.1, t);
    lemma_feed_inert(inputs, inputs.len());
    lemma_inert_props(b.0, t);
    let s1 = with_side(cache, IoKind::Input, ik);
    lemma_with_side(cache, IoKind::Input, ik, IoKind::Output);
    let s2 = with_side(s1, IoKind::Output, ok);
    lemma_with_side(s1, IoKind::Output, ok, IoKind::Input);
    // soundness
    assert(inert(d.0));
    lemma_inert_props(d.0, t);
    lemma_all_then(c, d, |op: Op| op_sound(op, t));
    lemma_all_then(b, cd, |op: Op| op_sound(op, t));
    lemma_all_then(a, bcd, |op: Op| op_sound(op, t));
    // readiness
    lemma_process_props(inputs.len(), outputs.len(), s2, t);
    lemma_ready_no_io(s1, c.0, t);
    if c.1 is Ok {
        lemma_reconcile_effect(IoKind::Output, s1, ok, t);
    }
    lemma_ready_then(s1, c, d, t);
    lemma_feed_ready(inputs, s1, t);
    if b.1 is Ok {
        lemma_inert(s1, b.0, t);
    }
    lemma_ready_then(s1, b, cd, t);
    lemma_ready_no_io(cache, a.0, t);
    if a.1 is Ok {
        lemma_reconcile_effect(IoKind::Input, cache, ik, t);
    }
    lemma_ready_then(cache, a, bcd, t);
    // kept slots
    assert forall|k: IoKind, i: int| kept(cache, t, k, i) implies #[trigger] untouched(
        dispatch_plan(cache, inputs, outputs).0,
        k,
        i,
    ) by {
        assert(untouched(a.0, k, i));
        assert(untouched(c.0, k, i));
        lemma_untouched_then(c, d, k, i);
        lemma_untouched_then(b, cd, k, i);
        lemma_untouched_then(a, bcd, k, i);
    }
}

/// Law: loading a model initialises no tensor and never writes inputs or
/// runs the inference.
pub proof fn lemma_load_plan_props(len: nat, st: (Seq<Key>, Seq<Key>), t: (Seq<Key>, Seq<Key>))
    ensures
        inert(load_plan(len).0),
        all_ops(load_plan(len).0, |op: Op| op_sound(op, t)),
        all_ops(load_plan(len).0, |op: Op| !is_io(op)),
        plan_ready(st, load_plan(len).0, t),
        forall|k: IoKind, i: int| #[trigger] untouched(load_plan(len).0, k, i),
        process_last(load_plan(len)),
{
    let p = load_plan(len);
    assert forall|j: int| 0 <= j < p.0.len() implies ((#[trigger] p.0[j]) is Call && !(
    p.0[j]->Call_0 is InitTensor)) && !is_io(p.0[j]) by {}
    lemma_inert_props(p.0, t);
    lemma_ready_no_io(st, p.0, t);
    lemma_no_process(p);
}

/// Law: the one-shot plan (load, then one inference on the new session)
/// initialises tensors only for target slots with valid keys, and every
/// input it writes and the inference it runs find their tensors cached.
pub proof fn lemma_one_shot_plan_props(len: nat, inputs: Seq<InputDesc>, outputs: Seq<OutputDesc>)
    requires
        inputs.len() <= usize::MAX,
        outputs.len() <= usize::MAX,
    ensures
        ({
            let empty = (Seq::<Key>::empty(), Seq::<Key>::empty());
            let t = (input_keys(inputs), output_keys(outputs));
            let p = then(load_plan(len), dispatch_plan(empty, inputs, outputs));
            &&& all_ops(p.0, |op: Op| op_sound(op, t))
            &&& plan_ready(empty, p.0, t)
            &&& process_last(p)
        }),
{
    let empty = (Seq::<Key>::empty(), Seq::<Key>::empty());
    let t = (input_keys(inputs), output_keys(outputs));
    lemma_load_plan_props(len, empty, t);
    lemma_load_keeps_keys(empty, len, t);
    lemma_dispatch_plan_props(empty, inputs, outputs);
    lemma_all_then(load_plan(len), dispatch_plan(empty, inputs, outputs), |op: Op| op_sound(op, t));
    lemma_ready_then(empty, load_plan(len), dispatch_plan(empty, inputs, outputs), t);
    lemma_no_process(load_plan(len));
    lemma_process_last_then(load_plan(len), dispatch_plan(empty, inputs, outputs));
}

/// Law: a one-shot inference is a load followed by an inference on the
/// loaded session. Loading never changes the cache, so a freshly loaded
/// session still holds no tensor when its load ends, and the inference it
/// then starts plans the very operations that the one-shot plan runs after
/// the load: when the load succeeds, the one-shot plan is the load's calls
/// followed by that inference's, with that inference's result; when it
/// fails, it is the failed load.
pub proof fn lemma_one_shot_is_load_then_dispatch(
    len: nat,
    inputs: Seq<InputDesc>,
    outputs: Seq<OutputDesc>,
    t: (Seq<Key>, Seq<Key>),
)
    ensures
        ({
            let empty = (Seq::<Key>::empty(), Seq::<Key>::empty());
            let lp = load_plan(len);
            let dp = dispatch_plan(apply_ops(empty, lp.0, t), inputs, outputs);
            let one_shot = then(lp, dispatch_plan(empty, inputs, outputs));
            &&& spares(lp.0, IoKind::Input)
            &&& spares(lp.0, IoKind::Output)
            &&& apply_ops(empty, lp.0, t) == empty
            &&& lp.1 is Ok ==> one_shot == (lp.0 + dp.0, dp.1)
            &&& lp.1 is Err ==> one_shot == lp
        }),
{
    let empty = (Seq::<Key>::empty(), Seq::<Key>::empty());
    lemma_load_keeps_keys(empty, len, t);
    let lp = load_plan(len);
    assert forall|kind: IoKind, j: int| 0 <= j < lp.0.len() implies !#[trigger] acts_on(
        lp.0[j],
        kind,
    ) by {}
    assert(spares(lp.0, IoKind::Input));
    assert(spares(lp.0, IoKind::Output));
}

/// Whether a slot with key `key` can be given a tensor: its rank must fit
/// `i32` and its dtype code must be known.
pub open spec fn slot_outcome(key: Key) -> Result<()> {
    if key.0.len() > i32::MAX {
        Err(Error::TooMany { what: "shape rank" })
    } else if dtype_of(key.1) is None {
        Err(Error::InvalidDataType { value: key.1 })
    } else {
        Ok(())
    }
}

/// The outcome of the first `n` slots, in order: the first failing one.
pub open spec fn slots_outcome(s: Seq<Key>, n: nat) -> Result<()>
    decreases n,
{
    if n == 0 {
        Ok(())
    } else if slots_outcome(s, (n - 1) as nat) is Ok {
        slot_outcome(s[n - 1])
    } else {
        slots_outcome(s, (n - 1) as nat)
    }
}

proof fn lemma_slots_outcome(kind: IoKind, c: Seq<Key>, s: Seq<Key>, n: nat)
    requires
        n <= s.len(),
        forall|i: int| 0 <= i < c.len() ==> key_valid(#[trigger] c[i]),
    ensures
        slots_plan(kind, c, s, n).1 == slots_outcome(s, n),
    decreases n,
{
    if n > 0 {
        lemma_slots_outcome(kind, c, s, (n - 1) as nat);
        let i = n - 1;
        if i < c.len() && c[i] == s[i] {
            assert(key_valid(c[i]));
        }
    }
}

/// The calls of `ops` that write input data or run the inference, in order.
pub open spec fn io_calls(ops: Seq<Op>) -> Seq<Op> {
    ops.filter(|op: Op| is_io(op))
}

proof fn lemma_io_calls_none(ops: Seq<Op>)
    requires
        all_ops(ops, |op: Op| !is_io(op)),
    ensures
        io_calls(ops) == Seq::<Op>::empty(),
    decreases ops.len(),
{
    reveal(Seq::filter);
    if ops.len() > 0 {
        assert forall|j: int| 0 <= j < ops.drop_last().len() implies !is_io(
            #[trigger] ops.drop_last()[j],
        ) by {
            assert(ops.drop_last()[j] == ops[j]);
        }
        lemma_io_calls_none(ops.drop_last());
        assert(!is_io(ops[ops.len() - 1]));
    }
}

proof fn lemma_io_calls_concat(a: Seq<Op>, b: Seq<Op>)
    ensures
        io_calls(a + b) == io_calls(a) + io_calls(b),
{
    Seq::filter_distributes_over_add(a, b, |op: Op| is_io(op));
}

/// The calls that carry data in an inference whose input half reconciles
/// with no call that carries data.
proof fn lemma_dispatch_io_calls(c: (Seq<Key>, Seq<Key>), inputs: Seq<InputDesc>, outputs: Seq<OutputDesc>)
    requires
        inputs.len() <= usize::MAX,
        outputs.len() <= usize::MAX,
    ensures
        ({
            let a = reconcile_plan(IoKind::Input, c.0, input_keys(inputs));
            let b = feed_plan(inputs, inputs.len());
            let cr = reconcile_plan(IoKind::Output, c.1, output_keys(outputs));
            let d = process_plan(inputs.len(), outputs.len());
            io_calls(dispatch_plan(c, inputs, outputs).0) == if a.1 is Err {
                Seq::<Op>::empty()
            } else if b.1 is Err {
                io_calls(b.0)
            } else if cr.1 is Err {
                io_calls(b.0)
            } else {
                io_calls(b.0) + io_calls(d.0)
            }
        }),
{
    let t = (input_keys(inputs), output_keys(outputs));
    let a = reconcile_plan(IoKind::Input, c.0, input_keys(inputs));
    let b = feed_plan(inputs, inputs.len());
    let cr = reconcile_plan(IoKind::Output, c.1, output_keys(outputs));
    let d = process_plan(inputs.len(), outputs.len());
    lemma_reconcile_props(IoKind::Input, c.0, t);
    lemma_reconcile_props(IoKind::Output, c.1, t);
    lemma_io_calls_none(a.0);
    lemma_io_calls_none(cr.0);
    let cd = then(cr, d);
    let bcd = then(b, cd);
    if cr.1 is Ok {
        lemma_io_calls_concat(cr.0, d.0);
        assert(Seq::<Op>::empty() + io_calls(d.0) =~= io_calls(d.0));
    }
    if b.1 is Ok {
        lemma_io_calls_concat(b.0, cd.0);
        if cr.1 is Err {
            assert(io_calls(b.0) + Seq::<Op>::empty() =~= io_calls(b.0));
        }
    }
    if a.1 is Ok {
        lemma_io_calls_concat(a.0, bcd.0);
        assert(Seq::<Op>::empty() + io_calls(bcd.0) =~= io_calls(bcd.0));
    }
}

/// Law: whether an inference succeeds, and with which error it fails when
/// every DDK call succeeds, does not depend on the tensors already cached,
/// and neither do the calls that write the input data and run the
/// inference, in their order: preparing IO tensors beforehand only saves
/// the calls that create tensors.
pub proof fn lemma_dispatch_result_independent_of_cache(
    c1: (Seq<Key>, Seq<Key>),
    c2: (Seq<Key>, Seq<Key>),
    inputs: Seq<InputDesc>,
    outputs: Seq<OutputDesc>,
)
    requires
        keys_valid(c1),
        keys_valid(c2),
        inputs.len() <= usize::MAX,
        outputs.len() <= usize::MAX,
    ensures
        dispatch_plan(c1, inputs, outputs).1 == dispatch_plan(c2, inputs, outputs).1,
        io_calls(dispatch_plan(c1, inputs, outputs).0) == io_calls(
            dispatch_plan(c2, inputs, outputs).0,
        ),
{
    lemma_dispatch_io_calls(c1, inputs, outputs);
    lemma_dispatch_io_calls(c2, inputs, outputs);
    let ik = input_keys(inputs);
    let ok = output_keys(outputs);
    assert(forall|i: int| 0 <= i < c1.0.len() ==> key_valid(#[trigger] c1.0[i])) by {
        assert forall|i: int| 0 <= i < c1.0.len() implies key_valid(#[trigger] c1.0[i]) by {
            assert(side(c1, IoKind::Input)[i] == c1.0[i]);
        }
    }
    assert(forall|i: int| 0 <= i < c2.0.len() ==> key_valid(#[trigger] c2.0[i])) by {
        assert forall|i: int| 0 <= i < c2.0.len() implies key_valid(#[trigger] c2.0[i]) by {
            assert(side(c2, IoKind::Input)[i] == c2.0[i]);
        }
    }
    assert(forall|i: int| 0 <= i < c1.1.len() ==> key_valid(#[trigger] c1.1[i])) by {
        assert forall|i: int| 0 <= i < c1.1.len() implies key_valid(#[trigger] c1.1[i]) by {
            assert(side(c1, IoKind::Output)[i] == c1.1[i]);
        }
    }
    assert(forall|i: int| 0 <= i < c2.1.len() ==> key_valid(#[trigger] c2.1[i])) by {
        assert forall|i: int| 0 <= i < c2.1.len() implies key_valid(#[trigger] c2.1[i]) by {
            assert(side(c2, IoKind::Output)[i] == c2.1[i]);
        }
    }
    lemma_slots_outcome(IoKind::Input, c1.0, ik, ik.len());
    lemma_slots_outcome(IoKind::Input, c2.0, ik, ik.len());
    lemma_slots_outcome(IoKind::Output, c1.1, ok, ok.len());
    lemma_slots_outcome(IoKind::Output, c2.1, ok, ok.len());
}

/// Law: when preparing IO tensors succeeds, the cache afterwards holds
/// exactly the requested input and output slots, in order.
pub proof fn lemma_prepare_reaches_slots(
    cache: (Seq<Key>, Seq<Key>),
    inputs: Seq<Key>,
    outputs: Seq<Key>,
)
    requires
        inputs.len() <= usize::MAX,
        outputs.len() <= usize::MAX,
        prepare_plan(cache, inputs, outputs).1 is Ok,
    ensures
        apply_ops(cache, prepare_plan(cache, inputs, outputs).0, (inputs, outputs)) == (
            inputs,
            outputs,
        ),
{
    let t = (inputs, outputs);
    let a = reconcile_plan(IoKind::Input, cache.0, inputs);
    let b = reconcile_plan(IoKind::Output, cache.1, outputs);
    assert(a.1 is Ok);
    lemma_apply_concat(cache, a.0, b.0, t);
    lemma_reconcile_effect(IoKind::Input, cache, inputs, t);
    let mid = with_side(cache, IoKind::Input, inputs);
    lemma_reconcile_effect(IoKind::Output, mid, outputs, t);
}

/// Law: when an inference succeeds, the cache afterwards holds exactly one
/// tensor per input and per output, keyed by its shape and dtype, in order.
pub proof fn lemma_dispatch_reaches_slots(
    cache: (Seq<Key>, Seq<Key>),
    inputs: Seq<InputDesc>,
    outputs: Seq<OutputDesc>,
)
    requires
        inputs.len() <= usize::MAX,
        outputs.len() <= usize::MAX,
        dispatch_plan(cache, inputs, outputs).1 is Ok,
    ensures
        apply_ops(cache, dispatch_plan(cache, inputs, outputs).0, (input_keys(inputs), output_keys(outputs)))
            == (input_keys(inputs), output_keys(outputs)),
{
    let ik = input_keys(inputs);
    let ok = output_keys(outputs);
    let t = (ik, ok);
    let a = reconcile_plan(IoKind::Input, cache.0, ik);
    let b = feed_plan(inputs, inputs.len());
    let c = reconcile_plan(IoKind::Output, cache.1, ok);
    let d = process_plan(inputs.len(), outputs.len());
    assert(a.1 is Ok && b.1 is Ok && c.1 is Ok);
    assert(dispatch_plan(cache, inputs, outputs).0 =~= a.0 + (b.0 + (c.0 + d.0)));
    lemma_apply_concat(cache, a.0, b.0 + (c.0 + d.0), t);
    lemma_reconcile_effect(IoKind::Input, cache, ik, t);
    let s1 = with_side(cache, IoKind::Input, ik);
    lemma_apply_concat(s1, b.0, c.0 + d.0, t);
    lemma_feed_inert(inputs, inputs.len());
    lemma_inert(s1, b.0, t);
    lemma_apply_concat(s1, c.0, d.0, t);
    lemma_reconcile_effect(IoKind::Output, s1, ok, t);
    let s2 = with_side(s1, IoKind::Output, ok);
    assert(inert(d.0));
    lemma_inert(s2, d.0, t);
}

proof fn lemma_slots_unchanged(kind: IoKind, keys: Seq<Key>, n: nat)
    requires
        n <= keys.len(),
    ensures
        slots_plan(kind, keys, keys, n) == done(),
    decreases n,
{
    if n > 0 {
        lemma_slots_unchanged(kind, keys, (n - 1) as nat);
        assert(Seq::<Op>::empty() + Seq::<Op>::empty() =~= Seq::<Op>::empty());
    }
}

/// Law: reconciling a half of the cache with the very slots it already
/// holds plans nothing at all, so on the fixed-shape path no tensor is
/// dropped or created.
pub proof fn lemma_reconcile_unchanged_is_noop(kind: IoKind, keys: Seq<Key>)
    ensures
        reconcile_plan(kind, keys, keys) == done(),
{
    lemma_slots_unchanged(kind, keys, keys.len());
    assert(Seq::<Op>::empty() + Seq::<Op>::empty() =~= Seq::<Op>::empty());
}

/// Law: preparing the IO tensors of a cache that already holds exactly the
/// requested slots plans nothing: repeated preparation is a no-op.
pub proof fn lemma_prepare_unchanged_is_noop(inputs: Seq<Key>, outputs: Seq<Key>)
    ensures
        prepare_plan((inputs, outputs), inputs, outputs) == done(),
{
    lemma_reconcile_unchanged_is_noop(IoKind::Input, inputs);
    lemma_reconcile_unchanged_is_noop(IoKind::Output, outputs);
    assert(Seq::<Op>::empty() + Seq::<Op>::empty() =~= Seq::<Op>::empty());
}

/// Law: an inference on a cache that already holds the tensors for its
/// inputs and outputs (as after preparing them, or after a previous
/// inference with the same shapes and dtypes) creates no tensor: it only
/// writes the inputs and runs the inference, none of which changes the
/// cache.
pub proof fn lemma_dispatch_after_prepare(inputs: Seq<InputDesc>, outputs: Seq<OutputDesc>)
    ensures
        dispatch_plan((input_keys(inputs), output_keys(outputs)), inputs, outputs) == then(
            feed_plan(inputs, inputs.len()),
            process_plan(inputs.len(), outputs.len()),
        ),
        inert(dispatch_plan((input_keys(inputs), output_keys(outputs)), inputs, outputs).0),
{
    lemma_feed_inert(inputs, inputs.len());
    let fp = feed_plan(inputs, inputs.len());
    let pp = process_plan(inputs.len(), outputs.len());
    assert(inert(pp.0));
    if fp.1 is Ok {
        assert forall|i: int| 0 <= i < (fp.0 + pp.0).len() implies (#[trigger] (fp.0 + pp.0)[i]) is Call
            && !((fp.0 + pp.0)[i]->Call_0 is InitTensor) by {
            if i < fp.0.len() {
                assert((fp.0 + pp.0)[i] == fp.0[i]);
            } else {
                assert((fp.0 + pp.0)[i] == pp.0[i - fp.0.len()]);
            }
        }
    }
    lemma_reconcile_unchanged_is_noop(IoKind::Input, input_keys(inputs));
    lemma_reconcile_unchanged_is_noop(IoKind::Output, output_keys(outputs));
    let b = feed_plan(inputs, inputs.len());
    let d = process_plan(inputs.len(), outputs.len());
    assert(Seq::<Op>::empty() + d.0 =~= d.0);
    assert(Seq::<Op>::empty() + then(b, d).0 =~= then(b, d).0);
}

// ---------------------------------------------------------------------------
// What an inference writes, and the dimensions it creates
// ---------------------------------------------------------------------------

proof fn lemma_io_calls_single(op: Op)
    ensures
        io_calls(seq![op]) == if is_io(op) {
            seq![op]
        } else {
            Seq::<Op>::empty()
        },
{
    reveal(Seq::filter);
    let s = seq![op];
    assert(s.drop_last() =~= Seq::<Op>::empty());
    assert(s.drop_last().filter(|o: Op| is_io(o)) =~= Seq::<Op>::empty());
    assert(s.last() == op);
    assert(Seq::<Op>::empty().push(op) =~= seq![op]);
}

/// The input writes of `inputs[0..n]`, stated from the descriptors: one per
/// input, in order, with its byte length.
proof fn lemma_feed_io_calls(inputs: Seq<InputDesc>, n: nat)
    requires
        n <= inputs.len(),
        feed_plan(inputs, n).1 is Ok,
    ensures
        io_calls(feed_plan(inputs, n).0) == Seq::new(
            n,
            |i: int| Op::Call(Call::SetInputData { index: i as usize, len: inputs[i].data@.len() as u32 }),
        ),
        forall|i: int| 0 <= i < n ==> #[trigger] inputs[i].data@.len() <= u32::MAX,
    decreases n,
{
    let want = |m: nat|
        Seq::new(
            m,
            |i: int| Op::Call(Call::SetInputData { index: i as usize, len: inputs[i].data@.len() as u32 }),
        );
    if n == 0 {
        reveal(Seq::filter);
        assert(io_calls(feed_plan(inputs, 0).0) =~= want(0));
    } else {
        let a = feed_plan(inputs, (n - 1) as nat);
        let b = feed_one(n - 1, inputs[n - 1].data@.len());
        assert(a.1 is Ok);
        lemma_feed_io_calls(inputs, (n - 1) as nat);
        assert(b.1 is Ok);
        let op = Op::Call(
            Call::SetInputData { index: (n - 1) as usize, len: inputs[n - 1].data@.len() as u32 },
        );
        assert(b.0 == seq![op]);
        lemma_io_calls_concat(a.0, b.0);
        lemma_io_calls_single(op);
        assert(io_calls(feed_plan(inputs, n).0) =~= want(n));
    }
}

/// Law: when an inference succeeds, it writes every input exactly once, in
/// order, with the input's own bytes (`SetInputData` for index `i` carries
/// `inputs[i].data.len()` bytes), and then runs the inference once, over all
/// inputs and outputs, with a one-second timeout; it writes no data and runs
/// nothing else. The counts and sizes it hands to the DDK then fit its
/// 32-bit parameters.
pub proof fn lemma_dispatch_writes_every_input(
    cache: (Seq<Key>, Seq<Key>),
    inputs: Seq<InputDesc>,
    outputs: Seq<OutputDesc>,
)
    requires
        inputs.len() <= usize::MAX,
        outputs.len() <= usize::MAX,
        dispatch_plan(cache, inputs, outputs).1 is Ok,
    ensures
        io_calls(dispatch_plan(cache, inputs, outputs).0) == Seq::new(
            inputs.len(),
            |i: int| Op::Call(Call::SetInputData { index: i as usize, len: inputs[i].data@.len() as u32 }),
        ).push(
            Op::Call(
                Call::Process {
                    input_count: inputs.len() as i32,
                    output_count: outputs.len() as i32,
                    timeout_ms: 1000,
                },
            ),
        ),
        forall|i: int| 0 <= i < inputs.len() ==> #[trigger] inputs[i].data@.len() <= u32::MAX,
        inputs.len() <= i32::MAX,
        outputs.len() <= i32::MAX,
{
    let a = reconcile_plan(IoKind::Input, cache.0, input_keys(inputs));
    let b = feed_plan(inputs, inputs.len());
    let cr = reconcile_plan(IoKind::Output, cache.1, output_keys(outputs));
    let d = process_plan(inputs.len(), outputs.len());
    assert(a.1 is Ok && b.1 is Ok && cr.1 is Ok && d.1 is Ok);
    lemma_dispatch_io_calls(cache, inputs, outputs);
    lemma_feed_io_calls(inputs, inputs.len());
    let p = Op::Call(
        Call::Process {
            input_count: inputs.len() as i32,
            output_count: outputs.len() as i32,
            timeout_ms: 1000,
        },
    );
    assert(d.0 == seq![p]);
    lemma_io_calls_single(p);
    assert(io_calls(b.0) + seq![p] =~= io_calls(b.0).push(p));
}

/// Whether `op`, if it creates a tensor dimension, creates it for a slot
/// among the targets `t`, with the rank of that slot's shape.
spec fn dimension_fits(op: Op, t: (Seq<Key>, Seq<Key>)) -> bool {
    match op {
        Op::Call(Call::CreateDimension { kind, index, rank }) => {
            &&& index < side(t, kind).len()
            &&& rank as int == side(t, kind)[index as int].0.len()
        },
        _ => true,
    }
}

proof fn lemma_reconcile_dimensions(kind: IoKind, c: Seq<Key>, t: (Seq<Key>, Seq<Key>))
    requires
        side(t, kind).len() <= usize::MAX,
    ensures
        all_ops(reconcile_plan(kind, c, side(t, kind)).0, |op: Op| dimension_fits(op, t)),
{
    let s = side(t, kind);
    let p = |op: Op| dimension_fits(op, t);
    assert forall|i: int| 0 <= i < s.len() implies all_ops(
        #[trigger] slot_plan(kind, c, s, i).0,
        p,
    ) by {
        let sp = slot_plan(kind, c, s, i);
        assert forall|j: int| 0 <= j < sp.0.len() implies p(#[trigger] sp.0[j]) by {}
    }
    lemma_all_reconcile(kind, c, s, p);
}

/// Law: every tensor dimension that preparing IO tensors creates is for one
/// of the requested slots, and has the rank of that slot's shape.
pub proof fn lemma_prepare_dimension_ranks(
    cache: (Seq<Key>, Seq<Key>),
    inputs: Seq<Key>,
    outputs: Seq<Key>,
)
    requires
        inputs.len() <= usize::MAX,
        outputs.len() <= usize::MAX,
    ensures
        forall|j: int|
            0 <= j < prepare_plan(cache, inputs, outputs).0.len() ==> (#[trigger] prepare_plan(
                cache,
                inputs,
                outputs,
            ).0[j] matches Op::Call(Call::CreateDimension { kind, index, rank }) ==> {
                &&& index < side((inputs, outputs), kind).len()
                &&& rank as int == side((inputs, outputs), kind)[index as int].0.len()
            }),
{
    let t = (inputs, outputs);
    let a = reconcile_plan(IoKind::Input, cache.0, inputs);
    let b = reconcile_plan(IoKind::Output, cache.1, outputs);
    lemma_reconcile_dimensions(IoKind::Input, cache.0, t);
    lemma_reconcile_dimensions(IoKind::Output, cache.1, t);
    lemma_all_then(a, b, |op: Op| dimension_fits(op, t));
    let ops = prepare_plan(cache, inputs, outputs).0;
    assert forall|j: int| 0 <= j < ops.len() implies (#[trigger] ops[j] matches Op::Call(
        Call::CreateDimension { kind, index, rank },
    ) ==> {
        &&& index < side(t, kind).len()
        &&& rank as int == side(t, kind)[index as int].0.len()
    }) by {
        assert(dimension_fits(ops[j], t));
    }
}

/// Law: every tensor dimension that an inference creates is for one of its
/// inputs or outputs, and has the rank of that descriptor's shape.
pub proof fn lemma_dispatch_dimension_ranks(
    cache: (Seq<Key>, Seq<Key>),
    inputs: Seq<InputDesc>,
    outputs: Seq<OutputDesc>,
)
    requires
        inputs.len() <= usize::MAX,
        outputs.len() <= usize::MAX,
    ensures
        forall|j: int|
            0 <= j < dispatch_plan(cache, inputs, outputs).0.len() ==> (#[trigger] dispatch_plan(
                cache,
                inputs,
                outputs,
            ).0[j] matches Op::Call(Call::CreateDimension { kind, index, rank }) ==> match kind {
                IoKind::Input => index < inputs.len() && rank as int == inputs[index as int].shape@.len(),
                IoKind::Output => index < outputs.len() && rank as int
                    == outputs[index as int].shape@.len(),
            }),
{
    let t = (input_keys(inputs), output_keys(outputs));
    let a = reconcile_plan(IoKind::Input, cache.0, t.0);
    let b = feed_plan(inputs, inputs.len());
    let c = reconcile_plan(IoKind::Output, cache.1, t.1);
    let d = process_plan(inputs.len(), outputs.len());
    let p = |op: Op| dimension_fits(op, t);
    lemma_reconcile_dimensions(IoKind::Input, cache.0, t);
    lemma_reconcile_dimensions(IoKind::Output, cache.1, t);
    assert forall|i: int| 0 <= i < inputs.len() implies all_ops(
        #[trigger] feed_one(i, inputs[i].data@.len()).0,
        p,
    ) by {}
    lemma_all_feed(inputs, inputs.len(), p);
    assert(all_ops(d.0, p));
    lemma_all_then(c, d, p);
    lemma_all_then(b, then(c, d), p);
    lemma_all_then(a, then(b, then(c, d)), p);
    let ops = dispatch_plan(cache, inputs, outputs).0;
    assert forall|j: int| 0 <= j < ops.len() implies (#[trigger] ops[j] matches Op::Call(
        Call::CreateDimension { kind, index, rank },
    ) ==> match kind {
        IoKind::Input => index < inputs.len() && rank as int == inputs[index as int].shape@.len(),
        IoKind::Output => index < outputs.len() && rank as int == outputs[index as int].shape@.len(),
    }) by {
        assert(p(ops[j]));
    }
}

// ---------------------------------------------------------------------------
// When an operation fails, and with which error
// ---------------------------------------------------------------------------

/// The outcome of writing inputs `0..n`: the first one whose bytes do not
/// fit the DDK's `u32` size fails with `TooLarge`.
pub open spec fn feed_outcome(inputs: Seq<InputDesc>, n: nat) -> Result<()>
    decreases n,
{
    if n == 0 {
        Ok(())
    } else if feed_outcome(inputs, (n - 1) as nat) is Err {
        feed_outcome(inputs, (n - 1) as nat)
    } else if inputs[n - 1].data@.len() > u32::MAX {
        Err(Error::TooLarge { what: "input tensor" })
    } else {
        Ok(())
    }
}

proof fn lemma_feed_outcome(inputs: Seq<InputDesc>, n: nat)
    requires
        n <= inputs.len(),
    ensures
        feed_plan(inputs, n).1 == feed_outcome(inputs, n),
    decreases n,
{
    if n > 0 {
        lemma_feed_outcome(inputs, (n - 1) as nat);
    }
}

proof fn lemma_halves_valid(c: (Seq<Key>, Seq<Key>))
    requires
        keys_valid(c),
    ensures
        forall|i: int| 0 <= i < c.0.len() ==> key_valid(#[trigger] c.0[i]),
        forall|i: int| 0 <= i < c.1.len() ==> key_valid(#[trigger] c.1[i]),
{
    assert forall|i: int| 0 <= i < c.0.len() implies key_valid(#[trigger] c.0[i]) by {
        assert(side(c, IoKind::Input)[i] == c.0[i]);
    }
    assert forall|i: int| 0 <= i < c.1.len() implies key_valid(#[trigger] c.1[i]) by {
        assert(side(c, IoKind::Output)[i] == c.1[i]);
    }
}

/// Law: when every DDK call succeeds, preparing IO tensors fails exactly on
/// the first requested slot, inputs before outputs, whose rank does not fit
/// `i32` (`TooMany`) or whose dtype code is unknown (`InvalidDataType`),
/// whatever the cache held.
pub proof fn lemma_prepare_outcome(cache: (Seq<Key>, Seq<Key>), inputs: Seq<Key>, outputs: Seq<Key>)
    requires
        keys_valid(cache),
    ensures
        prepare_plan(cache, inputs, outputs).1 == if slots_outcome(inputs, inputs.len()) is Err {
            slots_outcome(inputs, inputs.len())
        } else {
            slots_outcome(outputs, outputs.len())
        },
{
    lemma_halves_valid(cache);
    lemma_slots_outcome(IoKind::Input, cache.0, inputs, inputs.len());
    lemma_slots_outcome(IoKind::Output, cache.1, outputs, outputs.len());
}

/// Law: when every DDK call succeeds, an inference fails exactly with the
/// first of these, in this order, whatever the cache held: an input slot
/// whose rank does not fit `i32` or whose dtype code is unknown; an input
/// whose bytes do not fit `u32`; such an output slot; more inputs, then more
/// outputs, than `i32` counts.
pub proof fn lemma_dispatch_outcome(
    cache: (Seq<Key>, Seq<Key>),
    inputs: Seq<InputDesc>,
    outputs: Seq<OutputDesc>,
)
    requires
        keys_valid(cache),
    ensures
        dispatch_plan(cache, inputs, outputs).1 == if slots_outcome(
            input_keys(inputs),
            inputs.len(),
        ) is Err {
            slots_outcome(input_keys(inputs), inputs.len())
        } else if feed_outcome(inputs, inputs.len()) is Err {
            feed_outcome(inputs, inputs.len())
        } else if slots_outcome(output_keys(outputs), outputs.len()) is Err {
            slots_outcome(output_keys(outputs), outputs.len())
        } else if inputs.len() > i32::MAX {
            Err(Error::TooMany { what: "input count" })
        } else if outputs.len() > i32::MAX {
            Err(Error::TooMany { what: "output count" })
        } else {
            Ok(())
        },
{
    lemma_halves_valid(cache);
    lemma_slots_outcome(IoKind::Input, cache.0, input_keys(inputs), inputs.len());
    lemma_slots_outcome(IoKind::Output, cache.1, output_keys(outputs), outputs.len());
    lemma_feed_outcome(inputs, inputs.len());
}

} // verus!
