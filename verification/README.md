# hiai-rs

Runtime for Huawei Ascend NPUs through the HiAI (CANN) DDK on OpenHarmony:
load a prebuilt offline model, then run inferences on it.

## Layout

- `src/` — the verified library. It holds every decision of the runtime
  and proves it against its contracts:
  - `dtype`, `status`, `error`, `text`, `limits`, `flag`: the DDK's data-type
    and status codes, the errors of DDK operations and their messages, and
    the 32-bit guards on sizes and counts.
  - `plan`: the DDK calls and the plans that order them — loading a model,
    reconciling the IO tensor cache with wanted `(shape, dtype)` slots, and
    running an inference.
  - `effect`: what a plan does to the cache, with the laws that a successful
    preparation or inference leaves the cache holding exactly the requested
    slots, that unchanged shapes plan no tensor creation at all, and that
    the result of an inference does not depend on what was prepared.
  - `session`: the session that walks a plan one DDK call at a time and
    keeps each cached tensor bound to the slot it was created for, and
    `io`: copying the inference results into the caller's output buffers.
- `app/` — the driver: it declares the C adapter over the DDK, performs the
  calls a session asks for, and exposes `Session::load`, `prepare_io`,
  `dispatch` and the one-shot `dispatch` with `std::error::Error` errors and
  optional timing logs (`CANN_TIMING=1`, emitted through `log`).
- `tests/` — tests of the library, with a stand-in for the DDK.
