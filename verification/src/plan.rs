//! The DDK calls a session makes, and the plans that order them.
//!
//! A plan is a sequence of operations together with the result it ends in
//! when every call in it succeeds. Loading a model, preparing IO tensors and
//! running an inference are each a plan; a session (see `session`) walks a
//! plan one DDK call at a time.

use vstd::prelude::*;

use crate::cache::{keys_of, slot_keys, CachedIo, IoCache, IoKind, Key};
use crate::dtype::{data_type, dtype_of, CannDataType};
use crate::error::{Error, Result};
use crate::io::{InputDesc, OutputDesc};
use crate::limits::{count_i32, len_u32};
use crate::status::{status_of, CannStatus};

verus! {

/// A call into the DDK that the driver of a session performs next.
#[derive(Debug, Clone, Copy, PartialEq, Eq)]
pub enum Call {
    /// Create the model manager.
    CreateManager,
    /// Initialise the model manager.
    InitManager,
    /// Create the model descriptor.
    CreateDescriptor {
        name: &'static str,
        frequency: i32,
        framework: i32,
        model_type: i32,
        device_type: i32,
    },
    /// Select the inference precision on the descriptor.
    SetPrecisionMode { mode: i32 },
    /// Hand the model bytes (`len` of them) to the descriptor.
    SetModelBuffer { len: u32 },
    /// Load `count` descriptors into the model manager.
    LoadModel { count: i32 },
    /// Create the inference context.
    CreateContext,
    /// Set a parameter of the inference context.
    SetContextParameter { key: &'static str, value: &'static str },
    /// Create the dimension of the IO tensor for slot `index` of `kind`.
    CreateDimension { kind: IoKind, index: usize, rank: i32 },
    /// Create the IO tensor for slot `index` of `kind`.
    CreateTensor { kind: IoKind, index: usize },
    /// Initialise the IO tensor for slot `index` of `kind` with its dimension
    /// and data type.
    InitTensor { kind: IoKind, index: usize, dtype: CannDataType },
    /// Copy the bytes (`len` of them) of input `index` into its IO tensor.
    SetInputData { index: usize, len: u32 },
    /// Run the inference over all cached input and output tensors.
    Process { input_count: i32, output_count: i32, timeout_ms: i32 },
}

/// The outcome of a [`Call`], as reported by the driver.
pub enum Reply<T> {
    /// A factory call returned a handle.
    Created,
    /// A factory call returned a null handle.
    Null,
    /// A call returned this status code.
    Status(i32),
    /// `InitTensor` succeeded; this is the finished tensor for the slot.
    Tensor(T),
}

/// One operation of a plan: a DDK call, or shortening one half of the cache.
#[derive(Debug, Clone, Copy)]
pub enum Op {
    Call(Call),
    Truncate(IoKind, usize),
}

/// A plan: its operations, and the result when all its calls succeed.
pub type Plan = (Seq<Op>, Result<()>);

/// The plan with nothing to do.
pub open spec fn done() -> Plan {
    (Seq::empty(), Ok(()))
}

/// The plan that fails at once with `e`.
pub open spec fn fail(e: Error) -> Plan {
    (Seq::empty(), Err(e))
}

/// The plan that performs `ops` and succeeds.
pub open spec fn calls(ops: Seq<Op>) -> Plan {
    (ops, Ok(()))
}

/// `a` followed by `b`: `b` only runs if `a` ends in success.
pub open spec fn then(a: Plan, b: Plan) -> Plan {
    if a.1 is Ok {
        (a.0 + b.0, b.1)
    } else {
        a
    }
}

/// Whether a call returns a handle (as opposed to a status code).
pub open spec fn is_factory(c: Call) -> bool {
    ||| c is CreateManager
    ||| c is CreateDescriptor
    ||| c is CreateContext
    ||| c is CreateDimension
    ||| c is CreateTensor
}

/// What a factory call creates, as named in its `Null` error.
pub open spec fn call_subject(c: Call) -> &'static str {
    match c {
        Call::CreateManager => "model manager",
        Call::CreateDescriptor { .. } => "model descriptor",
        Call::CreateContext => "inference context",
        Call::CreateDimension { .. } => "IO tensor dimension",
        _ => "IO tensor",
    }
}

/// What a status call does, as named in its `Cann` error.
pub open spec fn call_operation(c: Call) -> &'static str {
    match c {
        Call::InitManager => "initialize model manager",
        Call::SetPrecisionMode { .. } => "set precision mode",
        Call::SetModelBuffer { .. } => "set model buffer",
        Call::LoadModel { .. } => "load model",
        Call::SetContextParameter { .. } => "set context parameter",
        Call::InitTensor { .. } => "initialize IO tensor",
        Call::SetInputData { .. } => "write input tensor data",
        _ => "run inference",
    }
}

/// Whether `r` is a possible outcome of `c`: factories give a handle or
/// null, `InitTensor` gives a failing status or the finished tensor, other
/// calls give a status.
pub open spec fn accepts<T>(c: Call, r: Reply<T>) -> bool {
    if is_factory(c) {
        r is Created || r is Null
    } else if c is InitTensor {
        r is Tensor || (r matches Reply::Status(code) && code != 0)
    } else {
        r is Status
    }
}

/// The error that outcome `r` of call `c` means, if it is a failure: a null
/// handle, or a non-zero status.
pub open spec fn fault<T>(c: Call, r: Reply<T>) -> Option<Error> {
    match r {
        Reply::Null => Some(Error::Null { what: call_subject(c) }),
        Reply::Status(code) => if code != 0 {
            Some(Error::Cann { operation: call_operation(c), status: status_of(code) })
        } else {
            None
        },
        _ => None,
    }
}

/// Law: a factory call (one that returns a handle) that hands back a null
/// handle fails with `Null`, naming what it creates; any call whose status is
/// not zero fails with `Cann`, naming what it does and carrying that very
/// status code; a handle, a zero status or a finished tensor is a success.
/// Whatever the call, no failure goes unreported.
pub proof fn lemma_fault_cases<T>(c: Call, code: i32, tensor: T, r: Reply<T>)
    ensures
        fault(c, Reply::<T>::Null) == Some(Error::Null { what: call_subject(c) }),
        code != 0 ==> fault(c, Reply::<T>::Status(code)) == Some(
            Error::Cann { operation: call_operation(c), status: status_of(code) },
        ),
        status_of(code).spec_code() == code,
        fault(c, Reply::<T>::Status(0)) is None,
        fault(c, Reply::<T>::Created) is None,
        fault(c, Reply::Tensor(tensor)) is None,
        accepts(c, r) && is_factory(c) ==> ((fault(c, r) is Some) <==> (r is Null)),
        accepts(c, r) && !is_factory(c) ==> ((fault(c, r) is Some) <==> (r matches Reply::Status(
            k,
        ) && k != 0)),
{
    crate::status::lemma_status_roundtrip(code, status_of(code));
}

/// Law: the names the errors give to each DDK call.
pub proof fn lemma_call_names(
    descriptor: Call,
    dimension: Call,
    tensor: Call,
    other: Call,
)
    requires
        descriptor is CreateDescriptor,
        dimension is CreateDimension,
        tensor is CreateTensor,
    ensures
        call_subject(Call::CreateManager) == "model manager",
        call_subject(descriptor) == "model descriptor",
        call_subject(Call::CreateContext) == "inference context",
        call_subject(dimension) == "IO tensor dimension",
        call_subject(tensor) == "IO tensor",
        call_operation(Call::InitManager) == "initialize model manager",
        other is SetPrecisionMode ==> call_operation(other) == "set precision mode",
        other is SetModelBuffer ==> call_operation(other) == "set model buffer",
        other is LoadModel ==> call_operation(other) == "load model",
        other is SetContextParameter ==> call_operation(other) == "set context parameter",
        other is InitTensor ==> call_operation(other) == "initialize IO tensor",
        other is SetInputData ==> call_operation(other) == "write input tensor data",
        other is Process ==> call_operation(other) == "run inference",
{
}

/// Decides whether outcome `reply` of `call` is a failure, and which.
pub fn check_reply<T>(call: &Call, reply: &Reply<T>) -> (r: Option<Error>)
    ensures
        r == fault(*call, *reply),
{
    match reply {
        Reply::Null => {
            let what = match call {
                Call::CreateManager => "model manager",
                Call::CreateDescriptor { .. } => "model descriptor",
                Call::CreateContext => "inference context",
                Call::CreateDimension { .. } => "IO tensor dimension",
                _ => "IO tensor",
            };
            Some(Error::Null { what })
        },
        Reply::Status(code) => {
            if *code != 0 {
                let operation = match call {
                    Call::InitManager => "initialize model manager",
                    Call::SetPrecisionMode { .. } => "set precision mode",
                    Call::SetModelBuffer { .. } => "set model buffer",
                    Call::LoadModel { .. } => "load model",
                    Call::SetContextParameter { .. } => "set context parameter",
                    Call::InitTensor { .. } => "initialize IO tensor",
                    Call::SetInputData { .. } => "write input tensor data",
                    _ => "run inference",
                };
                Some(Error::Cann { operation, status: CannStatus::from_code(*code) })
            } else {
                None
            }
        },
        _ => None,
    }
}

// ---------------------------------------------------------------------------
// Loading a model
// ---------------------------------------------------------------------------

/// The descriptor of the offline model: high frequency, no framework,
/// offline model type, NPU device.
pub open spec fn descriptor_call() -> Call {
    Call::CreateDescriptor {
        name: "webnn_model",
        frequency: 3,
        framework: 0,
        model_type: 1,
        device_type: 0,
    }
}

/// Loading an offline model of `model_len` bytes: create and initialise the
/// model manager, create the descriptor and select FP16 precision on it, hand
/// it the model (whose size must fit the DDK's `u32`), load it, and create
/// the inference context bound to it.
pub open spec fn load_plan(model_len: nat) -> Plan {
    then(
        calls(
            seq![
                Op::Call(Call::CreateManager),
                Op::Call(Call::InitManager),
                Op::Call(descriptor_call()),
                Op::Call(Call::SetPrecisionMode { mode: 1 }),
            ],
        ),
        if model_len > u32::MAX {
            fail(Error::TooLarge { what: "model buffer" })
        } else {
            calls(
                seq![
                    Op::Call(Call::SetModelBuffer { len: model_len as u32 }),
                    Op::Call(Call::LoadModel { count: 1 }),
                    Op::Call(Call::CreateContext),
                    Op::Call(Call::SetContextParameter { key: "model_name", value: "webnn_model" }),
                ],
            )
        },
    )
}

/// Law: loading a model of `model_len` bytes makes exactly these DDK calls,
/// in order: create and initialise the model manager, create the descriptor
/// of the offline model (named `webnn_model`, high frequency, no framework,
/// offline model type, NPU device), select FP16 precision, hand it the
/// model's own length, load that one descriptor, create the inference
/// context and bind it to the model's name. A model too large for the DDK's
/// `u32` size stops after the precision is selected, with `TooLarge`.
pub proof fn lemma_load_calls(model_len: nat)
    ensures
        model_len <= u32::MAX ==> load_plan(model_len) == (
            seq![
                Op::Call(Call::CreateManager),
                Op::Call(Call::InitManager),
                Op::Call(
                    Call::CreateDescriptor {
                        name: "webnn_model",
                        frequency: 3,
                        framework: 0,
                        model_type: 1,
                        device_type: 0,
                    },
                ),
                Op::Call(Call::SetPrecisionMode { mode: 1 }),
                Op::Call(Call::SetModelBuffer { len: model_len as u32 }),
                Op::Call(Call::LoadModel { count: 1 }),
                Op::Call(Call::CreateContext),
                Op::Call(Call::SetContextParameter { key: "model_name", value: "webnn_model" }),
            ],
            Ok::<(), Error>(()),
        ),
        model_len > u32::MAX ==> load_plan(model_len) == (
            seq![
                Op::Call(Call::CreateManager),
                Op::Call(Call::InitManager),
                Op::Call(
                    Call::CreateDescriptor {
                        name: "webnn_model",
                        frequency: 3,
                        framework: 0,
                        model_type: 1,
                        device_type: 0,
                    },
                ),
                Op::Call(Call::SetPrecisionMode { mode: 1 }),
            ],
            Err::<(), Error>(Error::TooLarge { what: "model buffer" }),
        ),
{
    let a = seq![
        Op::Call(Call::CreateManager),
        Op::Call(Call::InitManager),
        Op::Call(descriptor_call()),
        Op::Call(Call::SetPrecisionMode { mode: 1 }),
    ];
    if model_len <= u32::MAX {
        let b = seq![
            Op::Call(Call::SetModelBuffer { len: model_len as u32 }),
            Op::Call(Call::LoadModel { count: 1 }),
            Op::Call(Call::CreateContext),
            Op::Call(Call::SetContextParameter { key: "model_name", value: "webnn_model" }),
        ];
        assert(a + b =~= seq![
            Op::Call(Call::CreateManager),
            Op::Call(Call::InitManager),
            Op::Call(descriptor_call()),
            Op::Call(Call::SetPrecisionMode { mode: 1 }),
            Op::Call(Call::SetModelBuffer { len: model_len as u32 }),
            Op::Call(Call::LoadModel { count: 1 }),
            Op::Call(Call::CreateContext),
            Op::Call(Call::SetContextParameter { key: "model_name", value: "webnn_model" }),
        ]);
    } else {
        assert(a + Seq::<Op>::empty() =~= a);
    }
}

/// Builds the plan that loads a model of `model_len` bytes.
pub fn build_load(model_len: usize) -> (r: (Vec<Op>, Result<()>))
    ensures
        (r.0@, r.1) == load_plan(model_len as nat),
{
    let mut ops: Vec<Op> = Vec::new();
    ops.push(Op::Call(Call::CreateManager));
    ops.push(Op::Call(Call::InitManager));
    ops.push(
        Op::Call(
            Call::CreateDescriptor {
                name: "webnn_model",
                frequency: 3,
                framework: 0,
                model_type: 1,
                device_type: 0,
            },
        ),
    );
    ops.push(Op::Call(Call::SetPrecisionMode { mode: 1 }));
    let len = match len_u32(model_len, "model buffer") {
        Ok(len) => len,
        Err(e) => {
            assert(ops@ =~= load_plan(model_len as nat).0);
            return (ops, Err(e));
        },
    };
    ops.push(Op::Call(Call::SetModelBuffer { len }));
    ops.push(Op::Call(Call::LoadModel { count: 1 }));
    ops.push(Op::Call(Call::CreateContext));
    ops.push(Op::Call(Call::SetContextParameter { key: "model_name", value: "webnn_model" }));
    assert(ops@ =~= load_plan(model_len as nat).0);
    (ops, Ok(()))
}

// ---------------------------------------------------------------------------
// Reconciling the IO cache with wanted slots
// ---------------------------------------------------------------------------

/// Creating the IO tensor for slot `index` of `kind` with key `key`: its
/// rank must fit the DDK's `i32`; create the dimension, then the tensor; the
/// dtype must be a known code; initialise the tensor.
pub open spec fn create_plan(kind: IoKind, index: int, key: Key) -> Plan {
    if key.0.len() > i32::MAX {
        fail(Error::TooMany { what: "shape rank" })
    } else {
        then(
            calls(
                seq![
                    Op::Call(
                        Call::CreateDimension {
                            kind,
                            index: index as usize,
                            rank: key.0.len() as i32,
                        },
                    ),
                    Op::Call(Call::CreateTensor { kind, index: index as usize }),
                ],
            ),
            match dtype_of(key.1) {
                Some(dtype) => calls(
                    seq![Op::Call(Call::InitTensor { kind, index: index as usize, dtype })],
                ),
                None => fail(Error::InvalidDataType { value: key.1 }),
            },
        )
    }
}

/// Law: creating the IO tensor for slot `index` of `kind` with key `key`
/// makes, in order, the dimension with the full rank of the key's shape,
/// the tensor, and its initialisation with the key's data type. A rank that
/// does not fit `i32` fails before any call (`TooMany`); an unknown dtype
/// code fails after the dimension and tensor are created, before the
/// initialisation (`InvalidDataType`).
pub proof fn lemma_create_calls(kind: IoKind, index: int, key: Key)
    ensures
        key.0.len() <= i32::MAX && dtype_of(key.1) is Some ==> create_plan(kind, index, key) == (
            seq![
                Op::Call(Call::CreateDimension { kind, index: index as usize, rank: key.0.len() as i32 }),
                Op::Call(Call::CreateTensor { kind, index: index as usize }),
                Op::Call(
                    Call::InitTensor { kind, index: index as usize, dtype: dtype_of(key.1)->Some_0 },
                ),
            ],
            Ok::<(), Error>(()),
        ),
        key.0.len() <= i32::MAX && dtype_of(key.1) is None ==> create_plan(kind, index, key) == (
            seq![
                Op::Call(Call::CreateDimension { kind, index: index as usize, rank: key.0.len() as i32 }),
                Op::Call(Call::CreateTensor { kind, index: index as usize }),
            ],
            Err::<(), Error>(Error::InvalidDataType { value: key.1 }),
        ),
        key.0.len() > i32::MAX ==> create_plan(kind, index, key) == (
            Seq::<Op>::empty(),
            Err::<(), Error>(Error::TooMany { what: "shape rank" }),
        ),
{
    let a = seq![
        Op::Call(Call::CreateDimension { kind, index: index as usize, rank: key.0.len() as i32 }),
        Op::Call(Call::CreateTensor { kind, index: index as usize }),
    ];
    if key.0.len() <= i32::MAX {
        if let Some(dtype) = dtype_of(key.1) {
            let b = seq![Op::Call(Call::InitTensor { kind, index: index as usize, dtype })];
            assert(a + b =~= seq![
                Op::Call(Call::CreateDimension { kind, index: index as usize, rank: key.0.len() as i32 }),
                Op::Call(Call::CreateTensor { kind, index: index as usize }),
                Op::Call(Call::InitTensor { kind, index: index as usize, dtype }),
            ]);
        } else {
            assert(a + Seq::<Op>::empty() =~= a);
        }
    }
}

/// Slot `i` is kept when the cache already holds a tensor with its key at
/// that position, and is created afresh otherwise.
pub open spec fn slot_plan(kind: IoKind, cache: Seq<Key>, slots: Seq<Key>, i: int) -> Plan {
    if i < cache.len() && cache[i] == slots[i] {
        done()
    } else {
        create_plan(kind, i, slots[i])
    }
}

/// The slots `0..n`, in order.
pub open spec fn slots_plan(kind: IoKind, cache: Seq<Key>, slots: Seq<Key>, n: nat) -> Plan
    decreases n,
{
    if n == 0 {
        done()
    } else {
        then(slots_plan(kind, cache, slots, (n - 1) as nat), slot_plan(kind, cache, slots, n - 1))
    }
}

/// Reconciling the `kind` half of the cache, which holds `cache`, with
/// `slots`: drop the cached tensors past the last slot, then keep or create
/// each slot in order.
pub open spec fn reconcile_plan(kind: IoKind, cache: Seq<Key>, slots: Seq<Key>) -> Plan {
    then(
        if cache.len() > slots.len() {
            calls(seq![Op::Truncate(kind, slots.len() as usize)])
        } else {
            done()
        },
        slots_plan(kind, cache, slots, slots.len()),
    )
}

proof fn lemma_slots_plan_failed(kind: IoKind, cache: Seq<Key>, slots: Seq<Key>, i: nat, n: nat)
    requires
        i <= n,
        slots_plan(kind, cache, slots, i).1 is Err,
    ensures
        slots_plan(kind, cache, slots, n) == slots_plan(kind, cache, slots, i),
    decreases n,
{
    if n > i {
        lemma_slots_plan_failed(kind, cache, slots, i, (n - 1) as nat);
    }
}

fn same_shape(a: &Vec<u32>, b: &Vec<u32>) -> (r: bool)
    ensures
        r == (a@ == b@),
{
    if a.len() != b.len() {
        return false;
    }
    let mut i: usize = 0;
    while i < a.len()
        invariant
            a@.len() == b@.len(),
            i <= a@.len(),
            forall|j: int| 0 <= j < i ==> a@[j] == b@[j],
        decreases a@.len() - i,
    {
        if a[i] != b[i] {
            return false;
        }
        i = i + 1;
    }
    assert(a@ =~= b@);
    true
}

fn build_create(
    kind: IoKind,
    index: usize,
    shape: &Vec<u32>,
    dtype: i32,
    ops: &mut Vec<Op>,
) -> (r: Result<()>)
    ensures
        final(ops)@ == old(ops)@ + create_plan(kind, index as int, (shape@, dtype)).0,
        r == create_plan(kind, index as int, (shape@, dtype)).1,
{
    let p = Ghost(create_plan(kind, index as int, (shape@, dtype)));
    let rank = match count_i32(shape.len(), "shape rank") {
        Ok(rank) => rank,
        Err(e) => {
            assert(old(ops)@ + p@.0 =~= old(ops)@);
            return Err(e);
        },
    };
    ops.push(Op::Call(Call::CreateDimension { kind, index, rank }));
    ops.push(Op::Call(Call::CreateTensor { kind, index }));
    match data_type(dtype) {
        Ok(dt) => {
            ops.push(Op::Call(Call::InitTensor { kind, index, dtype: dt }));
            assert(ops@ =~= old(ops)@ + p@.0);
            Ok(())
        },
        Err(e) => {
            assert(ops@ =~= old(ops)@ + p@.0);
            Err(e)
        },
    }
}

/// Builds the plan that reconciles the `kind` half of the cache, which
/// holds `cache`, with `slots`.
pub fn build_reconcile<T>(
    kind: IoKind,
    cache: &Vec<CachedIo<T>>,
    slots: &Vec<(Vec<u32>, i32)>,
    ops: &mut Vec<Op>,
) -> (r: Result<()>)
    ensures
        final(ops)@ == old(ops)@ + reconcile_plan(kind, keys_of(cache@), slot_keys(slots@)).0,
        r == reconcile_plan(kind, keys_of(cache@), slot_keys(slots@)).1,
{
    let ghost ck = keys_of(cache@);
    let ghost sk = slot_keys(slots@);
    if cache.len() > slots.len() {
        ops.push(Op::Truncate(kind, slots.len()));
    }
    let ghost base = ops@;
    let n = slots.len();
    assert(ops@ =~= base + slots_plan(kind, ck, sk, 0).0);
    for i in 0..n
        invariant
            n == slots@.len(),
            ck == keys_of(cache@),
            sk == slot_keys(slots@),
            ops@ == base + slots_plan(kind, ck, sk, i as nat).0,
            slots_plan(kind, ck, sk, i as nat).1 is Ok,
            base == old(ops)@ + (if ck.len() > sk.len() {
                calls(seq![Op::Truncate(kind, sk.len() as usize)])
            } else {
                done()
            }).0,
    {
        let keep = i < cache.len() && cache[i].dtype == slots[i].1 && same_shape(
            &cache[i].shape,
            &slots[i].0,
        );
        assert(keep == (i < ck.len() && ck[i as int] == sk[i as int]));
        if !keep {
            let ghost before = ops@;
            let r = build_create(kind, i, &slots[i].0, slots[i].1, ops);
            assert(ops@ =~= base + slots_plan(kind, ck, sk, (i + 1) as nat).0);
            if r.is_err() {
                proof {
                    lemma_slots_plan_failed(kind, ck, sk, (i + 1) as nat, n as nat);
                }
                return r;
            }
        } else {
            assert(ops@ =~= base + slots_plan(kind, ck, sk, (i + 1) as nat).0);
        }
    }
    assert(ops@ =~= old(ops)@ + reconcile_plan(kind, ck, sk).0);
    Ok(())
}

// ---------------------------------------------------------------------------
// Preparing IO tensors and running an inference
// ---------------------------------------------------------------------------

/// Preparing the IO tensors for `inputs` and `outputs` slots on a cache
/// that holds `cache`: reconcile the inputs, then the outputs.
pub open spec fn prepare_plan(
    cache: (Seq<Key>, Seq<Key>),
    inputs: Seq<Key>,
    outputs: Seq<Key>,
) -> Plan {
    then(
        reconcile_plan(IoKind::Input, cache.0, inputs),
        reconcile_plan(IoKind::Output, cache.1, outputs),
    )
}

/// The `(shape, dtype)` keys of input descriptors.
pub open spec fn input_keys(inputs: Seq<InputDesc>) -> Seq<Key> {
    inputs.map_values(|d: InputDesc| (d.shape@, d.dtype))
}

/// The `(shape, dtype)` keys of output descriptors.
pub open spec fn output_keys(outputs: Seq<OutputDesc>) -> Seq<Key> {
    outputs.map_values(|d: OutputDesc| (d.shape@, d.dtype))
}

/// Writing input `index`, of `len` bytes: the size must fit the DDK's `u32`.
pub open spec fn feed_one(index: int, len: nat) -> Plan {
    if len > u32::MAX {
        fail(Error::TooLarge { what: "input tensor" })
    } else {
        calls(seq![Op::Call(Call::SetInputData { index: index as usize, len: len as u32 })])
    }
}

/// Writing inputs `0..n`, in order.
pub open spec fn feed_plan(inputs: Seq<InputDesc>, n: nat) -> Plan
    decreases n,
{
    if n == 0 {
        done()
    } else {
        then(feed_plan(inputs, (n - 1) as nat), feed_one(n - 1, inputs[n - 1].data@.len()))
    }
}

/// Running the inference over `input_count` inputs and `output_count`
/// outputs: both counts must fit the DDK's `i32`; the DDK waits up to a
/// second.
pub open spec fn process_plan(input_count: nat, output_count: nat) -> Plan {
    if input_count > i32::MAX {
        fail(Error::TooMany { what: "input count" })
    } else if output_count > i32::MAX {
        fail(Error::TooMany { what: "output count" })
    } else {
        calls(
            seq![
                Op::Call(
                    Call::Process {
                        input_count: input_count as i32,
                        output_count: output_count as i32,
                        timeout_ms: 1000,
                    },
                ),
            ],
        )
    }
}

/// Running one inference on a cache that holds `cache`: reconcile the input
/// tensors with the inputs, write each input's bytes, reconcile the output
/// tensors with the outputs, then run the inference.
pub open spec fn dispatch_plan(
    cache: (Seq<Key>, Seq<Key>),
    inputs: Seq<InputDesc>,
    outputs: Seq<OutputDesc>,
) -> Plan {
    then(
        reconcile_plan(IoKind::Input, cache.0, input_keys(inputs)),
        then(
            feed_plan(inputs, inputs.len()),
            then(
                reconcile_plan(IoKind::Output, cache.1, output_keys(outputs)),
                process_plan(inputs.len(), outputs.len()),
            ),
        ),
    )
}

/// The `(shape, dtype)` slots of input descriptors.
pub fn input_slots(inputs: &[InputDesc<'_>]) -> (r: Vec<(Vec<u32>, i32)>)
    ensures
        slot_keys(r@) == input_keys(inputs@),
{
    let mut r: Vec<(Vec<u32>, i32)> = Vec::new();
    for i in 0..inputs.len()
        invariant
            r@.len() == i,
            forall|j: int| 0 <= j < i ==> (#[trigger] r@[j]).0@ == inputs@[j].shape@ && r@[j].1 == inputs@[j].dtype,
    {
        let shape = vstd::slice::slice_to_vec(inputs[i].shape.as_slice());
        r.push((shape, inputs[i].dtype));
    }
    assert(slot_keys(r@) =~= input_keys(inputs@));
    r
}

/// The `(shape, dtype)` slots of output descriptors.
pub fn output_slots(outputs: &[OutputDesc<'_>]) -> (r: Vec<(Vec<u32>, i32)>)
    ensures
        slot_keys(r@) == output_keys(outputs@),
{
    let mut r: Vec<(Vec<u32>, i32)> = Vec::new();
    for i in 0..outputs.len()
        invariant
            r@.len() == i,
            forall|j: int| 0 <= j < i ==> (#[trigger] r@[j]).0@ == outputs@[j].shape@ && r@[j].1 == outputs@[j].dtype,
    {
        let shape = vstd::slice::slice_to_vec(outputs[i].shape.as_slice());
        r.push((shape, outputs[i].dtype));
    }
    assert(slot_keys(r@) =~= output_keys(outputs@));
    r
}

proof fn lemma_feed_plan_failed(inputs: Seq<InputDesc>, i: nat, n: nat)
    requires
        i <= n,
        feed_plan(inputs, i).1 is Err,
    ensures
        feed_plan(inputs, n) == feed_plan(inputs, i),
    decreases n,
{
    if n > i {
        lemma_feed_plan_failed(inputs, i, (n - 1) as nat);
    }
}

fn build_feed(inputs: &[InputDesc<'_>], ops: &mut Vec<Op>) -> (r: Result<()>)
    ensures
        final(ops)@ == old(ops)@ + feed_plan(inputs@, inputs@.len()).0,
        r == feed_plan(inputs@, inputs@.len()).1,
{
    let n = inputs.len();
    assert(ops@ =~= old(ops)@ + feed_plan(inputs@, 0).0);
    for i in 0..n
        invariant
            n == inputs@.len(),
            ops@ == old(ops)@ + feed_plan(inputs@, i as nat).0,
            feed_plan(inputs@, i as nat).1 is Ok,
    {
        match len_u32(inputs[i].data.len(), "input tensor") {
            Ok(len) => {
                ops.push(Op::Call(Call::SetInputData { index: i, len }));
                assert(ops@ =~= old(ops)@ + feed_plan(inputs@, (i + 1) as nat).0);
            },
            Err(e) => {
                proof {
                    lemma_feed_plan_failed(inputs@, (i + 1) as nat, n as nat);
                }
                assert(ops@ =~= old(ops)@ + feed_plan(inputs@, n as nat).0);
                return Err(e);
            },
        }
    }
    Ok(())
}

fn build_process(input_count: usize, output_count: usize, ops: &mut Vec<Op>) -> (r: Result<()>)
    ensures
        final(ops)@ == old(ops)@ + process_plan(input_count as nat, output_count as nat).0,
        r == process_plan(input_count as nat, output_count as nat).1,
{
    let ni = match count_i32(input_count, "input count") {
        Ok(v) => v,
        Err(e) => {
            assert(ops@ =~= old(ops)@ + process_plan(input_count as nat, output_count as nat).0);
            return Err(e);
        },
    };
    let no = match count_i32(output_count, "output count") {
        Ok(v) => v,
        Err(e) => {
            assert(ops@ =~= old(ops)@ + process_plan(input_count as nat, output_count as nat).0);
            return Err(e);
        },
    };
    ops.push(Op::Call(Call::Process { input_count: ni, output_count: no, timeout_ms: 1000 }));
    assert(ops@ =~= old(ops)@ + process_plan(input_count as nat, output_count as nat).0);
    Ok(())
}

/// Builds the plan that prepares the IO tensors for `inputs` and `outputs`
/// slots on `cache`.
pub fn build_prepare<T>(
    cache: &IoCache<T>,
    inputs: &Vec<(Vec<u32>, i32)>,
    outputs: &Vec<(Vec<u32>, i32)>,
) -> (r: (Vec<Op>, Result<()>))
    ensures
        (r.0@, r.1) == prepare_plan(cache.keys(), slot_keys(inputs@), slot_keys(outputs@)),
{
    let mut ops: Vec<Op> = Vec::new();
    let ghost a = reconcile_plan(IoKind::Input, cache.keys().0, slot_keys(inputs@));
    let ghost b = reconcile_plan(IoKind::Output, cache.keys().1, slot_keys(outputs@));
    let r = build_reconcile(IoKind::Input, &cache.inputs, inputs, &mut ops);
    if r.is_err() {
        assert(ops@ =~= a.0);
        return (ops, r);
    }
    let r = build_reconcile(IoKind::Output, &cache.outputs, outputs, &mut ops);
    assert(ops@ =~= a.0 + b.0);
    (ops, r)
}

/// Builds the plan that runs one inference over `inputs` and `outputs` on
/// `cache`.
pub fn build_dispatch<T>(
    cache: &IoCache<T>,
    inputs: &[InputDesc<'_>],
    outputs: &[OutputDesc<'_>],
) -> (r: (Vec<Op>, Result<()>, Vec<(Vec<u32>, i32)>, Vec<(Vec<u32>, i32)>))
    ensures
        (r.0@, r.1) == dispatch_plan(cache.keys(), inputs@, outputs@),
        slot_keys(r.2@) == input_keys(inputs@),
        slot_keys(r.3@) == output_keys(outputs@),
{
    let in_slots = input_slots(inputs);
    let out_slots = output_slots(outputs);
    let ghost a = reconcile_plan(IoKind::Input, cache.keys().0, input_keys(inputs@));
    let ghost b = feed_plan(inputs@, inputs@.len());
    let ghost c = reconcile_plan(IoKind::Output, cache.keys().1, output_keys(outputs@));
    let ghost d = process_plan(inputs@.len(), outputs@.len());
    let mut ops: Vec<Op> = Vec::new();
    let r = build_reconcile(IoKind::Input, &cache.inputs, &in_slots, &mut ops);
    if r.is_err() {
        assert(ops@ =~= a.0);
        return (ops, r, in_slots, out_slots);
    }
    let r = build_feed(inputs, &mut ops);
    if r.is_err() {
        assert(ops@ =~= a.0 + b.0);
        return (ops, r, in_slots, out_slots);
    }
    let r = build_reconcile(IoKind::Output, &cache.outputs, &out_slots, &mut ops);
    if r.is_err() {
        assert(ops@ =~= a.0 + (b.0 + c.0));
        return (ops, r, in_slots, out_slots);
    }
    let r = build_process(inputs.len(), outputs.len(), &mut ops);
    assert(ops@ =~= a.0 + (b.0 + (c.0 + d.0)));
    (ops, r, in_slots, out_slots)
}

} // verus!
