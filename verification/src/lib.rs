//! Core logic of the HiAI (CANN) model runtime for Ascend NPUs: the data
//! types and status codes of the DDK, the errors of its operations, and the
//! sessions that load an offline model and run inferences on it.
//!
//! A session does not call the DDK itself. It decides which DDK call comes
//! next and what each outcome means; its driver performs the calls (see
//! `session`).

pub mod cache;
pub mod dtype;
pub mod effect;
pub mod error;
pub mod flag;
pub mod io;
pub mod limits;
pub mod plan;
pub mod session;
pub mod status;
pub mod text;

pub use cache::{CachedIo, IoCache, IoKind, Key};
pub use dtype::{
    data_type, dtype_code, dtype_of, is_known_dtype, lemma_dtype_code_injective,
    lemma_dtype_roundtrip, lemma_dtype_table, CannDataType,
};
pub use effect::{
    acts_on, apply_op, apply_ops, feed_outcome, io_calls, lemma_dispatch_dimension_ranks,
    lemma_dispatch_outcome, lemma_dispatch_writes_every_input, lemma_prepare_dimension_ranks,
    lemma_prepare_outcome, slot_outcome, slots_outcome, keys_valid, kept, lemma_dispatch_after_prepare,
    lemma_dispatch_plan_props, lemma_dispatch_reaches_slots,
    lemma_dispatch_result_independent_of_cache, lemma_load_keeps_keys, lemma_load_plan_props,
    lemma_one_shot_is_load_then_dispatch, lemma_one_shot_plan_props,
    lemma_prepare_input_failure_spares_outputs, lemma_prepare_plan_props,
    lemma_prepare_reaches_slots, lemma_prepare_unchanged_is_noop, lemma_reconcile_spares_other,
    lemma_reconcile_unchanged_is_noop, process_last, ready, runs_inference, spares, touches,
    untouched,
};
pub use error::{error_message, Error, Result};
pub use flag::flag_enabled;
pub use io::{read_back, InputDesc, OutputDesc};
pub use limits::{count_i32, len_u32};
pub use plan::{
    accepts, dispatch_plan, fault, lemma_call_names, lemma_create_calls, lemma_fault_cases,
    lemma_load_calls, load_plan, prepare_plan, reconcile_plan, Call, Op, Plan, Reply,
};
pub use session::{
    dispatch, keeps_untouched, lemma_prepare_held_slots_keeps_session,
    lemma_prepare_input_failure_keeps_outputs, lemma_same_shapes_reuse_tensors, Session, Step,
};
pub use status::{
    lemma_status_names, lemma_status_roundtrip, status_name, status_of, status_text, CannStatus,
};
