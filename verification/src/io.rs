//! Tensor descriptors exchanged with the caller, and the copy of inference
//! results into the caller's output buffers.

use vstd::prelude::*;

use crate::error::{Error, Result};

verus! {

/// Input tensor descriptor: `data` borrows the caller's bytes, which a
/// dispatch copies into the DDK's ION buffer for the inference.
#[derive(Debug, Clone)]
pub struct InputDesc<'a> {
    /// Raw tensor bytes (little-endian), borrowed from the caller.
    pub data: &'a [u8],
    /// Tensor shape (dimension sizes).
    pub shape: Vec<u32>,
    /// Raw CANN data-type value (`CANN_DT_*`).
    pub dtype: i32,
}

/// Output tensor descriptor: a dispatch copies the NPU result into `data`
/// and records the produced byte length in `actual_len`.
#[derive(Debug)]
pub struct OutputDesc<'a> {
    /// Output buffer, filled by a dispatch. The caller must provide a buffer
    /// at least as large as the tensor's logical size; `actual_len` is set to
    /// the number of bytes actually produced.
    pub data: &'a mut [u8],
    /// Tensor shape (dimension sizes).
    pub shape: Vec<u32>,
    /// Raw CANN data-type value (`CANN_DT_*`).
    pub dtype: i32,
    /// Number of bytes the NPU produced for this output (at most the length
    /// of `data`). Set on success; on any error it is left unchanged.
    pub actual_len: usize,
}

/// Two output descriptors hold the same buffer contents, shape, dtype and
/// produced length.
pub open spec fn same_output(a: OutputDesc, b: OutputDesc) -> bool {
    &&& a.data@ == b.data@
    &&& a.shape@ == b.shape@
    &&& a.dtype == b.dtype
    &&& a.actual_len == b.actual_len
}

/// `b` is `a` with `produced` copied to the front of its buffer: the rest
/// of the buffer, the shape, the dtype and `actual_len` are kept.
pub open spec fn filled(a: OutputDesc, b: OutputDesc, produced: Seq<u8>) -> bool {
    &&& b.data@ == produced + a.data@.skip(produced.len() as int)
    &&& b.shape@ == a.shape@
    &&& b.dtype == a.dtype
    &&& b.actual_len == a.actual_len
}

/// `b` is `a` after receiving `produced`: the bytes fill the front of the
/// buffer, the rest of the buffer is kept, and `actual_len` records their
/// number.
pub open spec fn received(a: OutputDesc, b: OutputDesc, produced: Seq<u8>) -> bool {
    &&& b.data@ == produced + a.data@.skip(produced.len() as int)
    &&& b.shape@ == a.shape@
    &&& b.dtype == a.dtype
    &&& b.actual_len == produced.len()
}

/// What is wrong with delivering a DDK output buffer (`None` when the DDK
/// handed back a null buffer) into a caller buffer of `capacity` bytes.
pub open spec fn delivery_fault(capacity: nat, produced: Option<&[u8]>) -> Option<Error> {
    match produced {
        None => Some(Error::OutputBufferNull),
        Some(bytes) => if bytes@.len() > capacity {
            Some(Error::OutputBufferTooSmall)
        } else {
            None
        },
    }
}

/// The fault of the first of the first `n` outputs that cannot receive its
/// result, if any.
pub open spec fn first_delivery_fault(
    outputs: Seq<OutputDesc>,
    produced: Seq<Option<&[u8]>>,
    n: nat,
) -> Option<Error>
    decreases n,
{
    if n == 0 {
        None
    } else {
        match first_delivery_fault(outputs, produced, (n - 1) as nat) {
            Some(e) => Some(e),
            None => delivery_fault(outputs[n - 1].data@.len(), produced[n - 1]),
        }
    }
}

proof fn lemma_no_fault_prefix(
    outputs: Seq<OutputDesc>,
    produced: Seq<Option<&[u8]>>,
    n: nat,
    i: nat,
)
    requires
        i < n,
        first_delivery_fault(outputs, produced, n) is None,
    ensures
        delivery_fault(outputs[i as int].data@.len(), produced[i as int]) is None,
    decreases n,
{
    if i + 1 < n {
        lemma_no_fault_prefix(outputs, produced, (n - 1) as nat, i);
    }
}

proof fn lemma_clean_prefix(
    outputs: Seq<OutputDesc>,
    produced: Seq<Option<&[u8]>>,
    m: nat,
    k: nat,
)
    requires
        k <= m,
        first_delivery_fault(outputs, produced, m) is None,
    ensures
        first_delivery_fault(outputs, produced, k) is None,
    decreases m,
{
    if k < m {
        lemma_clean_prefix(outputs, produced, (m - 1) as nat, k);
    }
}

proof fn lemma_fault_found(
    outputs: Seq<OutputDesc>,
    produced: Seq<Option<&[u8]>>,
    i: nat,
    n: nat,
)
    requires
        i < n,
        first_delivery_fault(outputs, produced, i) is None,
        delivery_fault(outputs[i as int].data@.len(), produced[i as int]) is Some,
    ensures
        first_delivery_fault(outputs, produced, n) == delivery_fault(
            outputs[i as int].data@.len(),
            produced[i as int],
        ),
    decreases n,
{
    if n > i + 1 {
        lemma_fault_found(outputs, produced, i, (n - 1) as nat);
    }
}

fn fill(output: &mut OutputDesc<'_>, produced: &[u8])
    requires
        produced@.len() <= old(output).data@.len(),
    ensures
        filled(*old(output), *final(output), produced@),
{
    let n = produced.len();
    let ghost before = output.data@;
    let mut j: usize = 0;
    while j < n
        invariant
            n == produced@.len(),
            j <= n,
            n <= before.len(),
            output.data@.len() == before.len(),
            output.data@ == produced@.take(j as int) + before.skip(j as int),
            output.shape@ == old(output).shape@,
            output.dtype == old(output).dtype,
            output.actual_len == old(output).actual_len,
            before == old(output).data@,
        decreases n - j,
    {
        output.data[j] = produced[j];
        j = j + 1;
        assert(output.data@ =~= produced@.take(j as int) + before.skip(j as int));
    }
    assert(produced@.take(n as int) =~= produced@);
}

fn record_len(output: &mut OutputDesc<'_>, len: usize)
    ensures
        final(output).data@ == old(output).data@,
        final(output).shape@ == old(output).shape@,
        final(output).dtype == old(output).dtype,
        final(output).actual_len == len,
{
    output.actual_len = len;
}

/// Copies the DDK's output buffers into the caller's output descriptors,
/// pairing `outputs[i]` with `produced[i]` (`None` stands for a null DDK
/// buffer).
///
/// The outputs are taken in order, and each caller buffer receives its bytes
/// at the front as soon as its DDK buffer passes the checks. The first null
/// DDK buffer gives `OutputBufferNull`, and the first one larger than its
/// caller buffer gives `OutputBufferTooSmall`; the copying stops there, the
/// earlier outputs keeping the bytes they received. `actual_len` is set only
/// when every output received its bytes: on an error no `actual_len`
/// changes.
pub fn read_back(outputs: &mut [OutputDesc<'_>], produced: &[Option<&[u8]>]) -> (r: Result<()>)
    ensures
        ({
            let n = if old(outputs)@.len() <= produced@.len() {
                old(outputs)@.len()
            } else {
                produced@.len()
            };
            &&& final(outputs)@.len() == old(outputs)@.len()
            &&& r == (match first_delivery_fault(old(outputs)@, produced@, n as nat) {
                Some(e) => Err(e),
                None => Ok(()),
            })
            &&& r is Err ==> forall|i: int|
                0 <= i < old(outputs)@.len() ==> if i < n && first_delivery_fault(
                    old(outputs)@,
                    produced@,
                    (i + 1) as nat,
                ) is None {
                    filled(old(outputs)@[i], #[trigger] final(outputs)@[i], produced@[i]->Some_0@)
                } else {
                    same_output(final(outputs)@[i], old(outputs)@[i])
                }
            &&& r is Ok ==> forall|i: int|
                0 <= i < n ==> received(
                    old(outputs)@[i],
                    #[trigger] final(outputs)@[i],
                    produced@[i]->Some_0@,
                )
            &&& r is Ok ==> forall|i: int|
                0 <= i < n ==> (#[trigger] final(outputs)@[i]).actual_len
                    <= final(outputs)@[i].data@.len()
            &&& r is Ok ==> forall|i: int|
                n <= i < old(outputs)@.len() ==> same_output(
                    #[trigger] final(outputs)@[i],
                    old(outputs)@[i],
                )
        }),
{
    let n = if outputs.len() <= produced.len() {
        outputs.len()
    } else {
        produced.len()
    };
    let ghost start = outputs@;
    let mut i: usize = 0;
    while i < n
        invariant
            i <= n,
            n <= start.len(),
            n <= produced@.len(),
            start == old(outputs)@,
            outputs@.len() == start.len(),
            n == (if start.len() <= produced@.len() {
                start.len()
            } else {
                produced@.len()
            }),
            first_delivery_fault(start, produced@, i as nat) is None,
            forall|j: int| 0 <= j < i ==> filled(start[j], #[trigger] outputs@[j], produced@[j]->Some_0@),
            forall|j: int| i <= j < start.len() ==> same_output(#[trigger] outputs@[j], start[j]),
        decreases n - i,
    {
        let fault = match produced[i] {
            None => Some(Error::OutputBufferNull),
            Some(bytes) => if bytes.len() > outputs[i].data.len() {
                Some(Error::OutputBufferTooSmall)
            } else {
                None
            },
        };
        if let Some(e) = fault {
            proof {
                lemma_fault_found(start, produced@, i as nat, n as nat);
                assert forall|j: int| 0 <= j < start.len() implies (if j < n && first_delivery_fault(
                    start,
                    produced@,
                    (j + 1) as nat,
                ) is None {
                    filled(start[j], #[trigger] outputs@[j], produced@[j]->Some_0@)
                } else {
                    same_output(outputs@[j], start[j])
                }) by {
                    if j < i {
                        lemma_clean_prefix(start, produced@, i as nat, (j + 1) as nat);
                    } else if j < n {
                        lemma_fault_found(start, produced@, i as nat, (j + 1) as nat);
                    }
                }
            }
            return Err(e);
        }
        let bytes = match produced[i] {
            Some(b) => b,
            // a null buffer was reported just above
            None => {
                return Err(Error::OutputBufferNull);
            },
        };
        fill(&mut outputs[i], bytes);
        i = i + 1;
    }
    let mut k: usize = 0;
    while k < n
        invariant
            k <= n,
            n <= start.len(),
            n <= produced@.len(),
            outputs@.len() == start.len(),
            first_delivery_fault(start, produced@, n as nat) is None,
            forall|j: int| 0 <= j < k ==> received(start[j], #[trigger] outputs@[j], produced@[j]->Some_0@),
            forall|j: int| 0 <= j < k ==> (#[trigger] outputs@[j]).actual_len <= outputs@[j].data@.len(),
            forall|j: int| k <= j < n ==> filled(start[j], #[trigger] outputs@[j], produced@[j]->Some_0@),
            forall|j: int| n <= j < start.len() ==> same_output(#[trigger] outputs@[j], start[j]),
        decreases n - k,
    {
        proof {
            lemma_no_fault_prefix(start, produced@, n as nat, k as nat);
        }
        let len = match produced[k] {
            Some(b) => b.len(),
            // every buffer was checked above, so this arm is never taken
            None => {
                return Err(Error::OutputBufferNull);
            },
        };
        record_len(&mut outputs[k], len);
        k = k + 1;
    }
    Ok(())
}

} // verus!
