use hiai_rs::{
    dispatch, read_back, Call, CannDataType, CannStatus, Error, InputDesc, IoKind, OutputDesc,
    Reply, Session, Step,
};

/// A stand-in for the DDK: records every call, fails the call at position
/// `fail_at` (null handle or status), and numbers the tensors it builds.
struct FakeDdk {
    calls: Vec<Call>,
    fail_at: Option<usize>,
    built: u32,
}

impl FakeDdk {
    fn new() -> Self {
        FakeDdk { calls: Vec::new(), fail_at: None, built: 0 }
    }

    fn failing_at(index: usize) -> Self {
        FakeDdk { calls: Vec::new(), fail_at: Some(index), built: 0 }
    }

    fn drive(&mut self, session: &mut Session<u32>, mut step: Step) -> Result<(), Error> {
        loop {
            let call = match step {
                Step::Done(result) => return result,
                Step::Call(call) => call,
            };
            let failing = self.fail_at == Some(self.calls.len());
            self.calls.push(call);
            let reply = match call {
                Call::CreateManager
                | Call::CreateDescriptor { .. }
                | Call::CreateContext
                | Call::CreateDimension { .. }
                | Call::CreateTensor { .. } => {
                    if failing {
                        Reply::Null
                    } else {
                        Reply::Created
                    }
                }
                Call::InitTensor { .. } => {
                    if failing {
                        Reply::Status(3)
                    } else {
                        self.built += 1;
                        Reply::Tensor(self.built)
                    }
                }
                _ => Reply::Status(if failing { 2 } else { 0 }),
            };
            step = session.resume(reply);
        }
    }
}

fn load(ddk: &mut FakeDdk, model: &[u8]) -> Result<Session<u32>, Error> {
    let (mut session, step) = Session::<u32>::load(model);
    ddk.drive(&mut session, step)?;
    Ok(session)
}

fn load_calls(model_len: u32) -> Vec<Call> {
    vec![
        Call::CreateManager,
        Call::InitManager,
        Call::CreateDescriptor {
            name: "webnn_model",
            frequency: 3,
            framework: 0,
            model_type: 1,
            device_type: 0,
        },
        Call::SetPrecisionMode { mode: 1 },
        Call::SetModelBuffer { len: model_len },
        Call::LoadModel { count: 1 },
        Call::CreateContext,
        Call::SetContextParameter { key: "model_name", value: "webnn_model" },
    ]
}

fn create_calls(kind: IoKind, index: usize, rank: i32, dtype: CannDataType) -> Vec<Call> {
    vec![
        Call::CreateDimension { kind, index, rank },
        Call::CreateTensor { kind, index },
        Call::InitTensor { kind, index, dtype },
    ]
}

#[test]
fn load_walks_the_ddk_sequence() {
    let mut ddk = FakeDdk::new();
    let session = load(&mut ddk, &[7u8; 12]).unwrap();
    assert_eq!(ddk.calls, load_calls(12));
    assert_eq!(session.cached_len(IoKind::Input), 0);
    assert_eq!(session.cached_len(IoKind::Output), 0);
}

#[test]
fn load_reports_each_failing_step() {
    let expected = [
        "failed to create model manager: null handle",
        "initialize model manager failed with kNotInit (2)",
        "failed to create model descriptor: null handle",
        "set precision mode failed with kNotInit (2)",
        "set model buffer failed with kNotInit (2)",
        "load model failed with kNotInit (2)",
        "failed to create inference context: null handle",
        "set context parameter failed with kNotInit (2)",
    ];
    for (index, message) in expected.iter().enumerate() {
        let mut ddk = FakeDdk::failing_at(index);
        let err = match load(&mut ddk, &[1, 2, 3]) {
            Ok(_) => panic!("load succeeded although call {} failed", index),
            Err(err) => err,
        };
        assert_eq!(err.to_string(), *message);
        assert_eq!(ddk.calls.len(), index + 1);
    }
}

#[test]
fn load_init_status_is_kept() {
    let mut ddk = FakeDdk::failing_at(1);
    let err = load(&mut ddk, &[0u8; 4]).err().unwrap();
    match err {
        Error::Cann { operation, status } => {
            assert_eq!(operation, "initialize model manager");
            assert_eq!(status, CannStatus::from_code(2));
        }
        other => panic!("unexpected error {:?}", other),
    }
}

#[test]
fn prepared_io_makes_dispatch_create_nothing() {
    let mut ddk = FakeDdk::new();
    let mut session = load(&mut ddk, &[0u8; 8]).unwrap();
    ddk.calls.clear();

    let step = session.prepare_io(&[(vec![1, 4], 0)], &[(vec![1, 4], 0)]);
    ddk.drive(&mut session, step).unwrap();
    let mut expected = create_calls(IoKind::Input, 0, 2, CannDataType::CANN_DT_FLOAT);
    expected.extend(create_calls(IoKind::Output, 0, 2, CannDataType::CANN_DT_FLOAT));
    assert_eq!(ddk.calls, expected);
    assert_eq!(*session.tensor(IoKind::Input, 0), 1);
    assert_eq!(*session.tensor(IoKind::Output, 0), 2);
    ddk.calls.clear();

    let input_bytes = [0u8; 16];
    let inputs = vec![InputDesc { data: &input_bytes, shape: vec![1, 4], dtype: 0 }];
    let mut out_buf = vec![0u8; 16];
    let outputs = vec![OutputDesc { data: &mut out_buf, shape: vec![1, 4], dtype: 0, actual_len: 0 }];
    let step = session.dispatch(&inputs, &outputs);
    ddk.drive(&mut session, step).unwrap();
    assert_eq!(
        ddk.calls,
        vec![
            Call::SetInputData { index: 0, len: 16 },
            Call::Process { input_count: 1, output_count: 1, timeout_ms: 1000 },
        ]
    );
    // the cached tensors are the ones built while preparing
    assert_eq!(*session.tensor(IoKind::Input, 0), 1);
    assert_eq!(*session.tensor(IoKind::Output, 0), 2);
}

#[test]
fn changed_shapes_recreate_only_their_tensors() {
    let mut ddk = FakeDdk::new();
    let mut session = load(&mut ddk, &[0u8; 8]).unwrap();
    let step = session.prepare_io(
        &[(vec![1, 4], 0), (vec![2], 3)],
        &[(vec![1, 4], 0), (vec![8], 4)],
    );
    ddk.drive(&mut session, step).unwrap();
    ddk.calls.clear();

    // second input keeps its shape, first output changes dtype, second
    // output disappears
    let a = [0u8; 16];
    let b = [0u8; 8];
    let inputs = vec![
        InputDesc { data: &a, shape: vec![4], dtype: 0 },
        InputDesc { data: &b, shape: vec![2], dtype: 3 },
    ];
    let mut out = vec![0u8; 16];
    let outputs = vec![OutputDesc { data: &mut out, shape: vec![1, 4], dtype: 1, actual_len: 0 }];
    let step = session.dispatch(&inputs, &outputs);
    ddk.drive(&mut session, step).unwrap();
    let mut expected = create_calls(IoKind::Input, 0, 1, CannDataType::CANN_DT_FLOAT);
    expected.push(Call::SetInputData { index: 0, len: 16 });
    expected.push(Call::SetInputData { index: 1, len: 8 });
    expected.extend(create_calls(IoKind::Output, 0, 2, CannDataType::CANN_DT_FLOAT16));
    expected.push(Call::Process { input_count: 2, output_count: 1, timeout_ms: 1000 });
    assert_eq!(ddk.calls, expected);
    assert_eq!(session.cached_len(IoKind::Input), 2);
    assert_eq!(session.cached_len(IoKind::Output), 1);
    assert_eq!(*session.tensor(IoKind::Input, 0), 5);
    assert_eq!(*session.tensor(IoKind::Input, 1), 2);
    assert_eq!(*session.tensor(IoKind::Output, 0), 6);
}

#[test]
fn unknown_dtype_fails_after_creating_the_handles() {
    let mut ddk = FakeDdk::new();
    let mut session = load(&mut ddk, &[0u8; 8]).unwrap();
    ddk.calls.clear();
    let step = session.prepare_io(&[(vec![3], 5)], &[]);
    let err = ddk.drive(&mut session, step).err().unwrap();
    assert!(matches!(err, Error::InvalidDataType { value: 5 }));
    assert_eq!(
        ddk.calls,
        vec![
            Call::CreateDimension { kind: IoKind::Input, index: 0, rank: 1 },
            Call::CreateTensor { kind: IoKind::Input, index: 0 },
        ]
    );
    assert_eq!(session.cached_len(IoKind::Input), 0);
}

#[test]
fn failing_tensor_init_is_reported_and_not_cached() {
    let mut ddk = FakeDdk::new();
    let mut session = load(&mut ddk, &[0u8; 8]).unwrap();
    let mut ddk = FakeDdk::failing_at(2);
    let step = session.prepare_io(&[(vec![3], 0)], &[]);
    let err = ddk.drive(&mut session, step).err().unwrap();
    assert_eq!(err.to_string(), "initialize IO tensor failed with kInvalidPara (3)");
    assert_eq!(session.cached_len(IoKind::Input), 0);
}

#[test]
fn failing_inference_is_reported() {
    let mut ddk = FakeDdk::new();
    let mut session = load(&mut ddk, &[0u8; 8]).unwrap();
    let data = [1u8; 4];
    let inputs = vec![InputDesc { data: &data, shape: vec![1], dtype: 3 }];
    let outputs: Vec<OutputDesc> = Vec::new();
    // creation of the input tensor takes three calls, then one write; the
    // fifth call is the inference
    let mut ddk = FakeDdk::failing_at(4);
    let step = session.dispatch(&inputs, &outputs);
    let err = ddk.drive(&mut session, step).err().unwrap();
    assert_eq!(err.to_string(), "run inference failed with kNotInit (2)");
    assert_eq!(
        ddk.calls.last(),
        Some(&Call::Process { input_count: 1, output_count: 0, timeout_ms: 1000 })
    );
}

#[test]
fn failing_input_write_is_reported() {
    let mut ddk = FakeDdk::new();
    let mut session = load(&mut ddk, &[0u8; 8]).unwrap();
    let step = session.prepare_io(&[(vec![1], 3)], &[]);
    ddk.drive(&mut session, step).unwrap();
    let data = [1u8; 4];
    let inputs = vec![InputDesc { data: &data, shape: vec![1], dtype: 3 }];
    let mut ddk = FakeDdk::failing_at(0);
    let step = session.dispatch(&inputs, &[]);
    let err = ddk.drive(&mut session, step).err().unwrap();
    assert_eq!(err.to_string(), "write input tensor data failed with kNotInit (2)");
}

#[test]
fn shrinking_slots_drops_cached_tensors() {
    let mut ddk = FakeDdk::new();
    let mut session = load(&mut ddk, &[0u8; 8]).unwrap();
    let step = session.prepare_io(&[(vec![1], 0), (vec![2], 0), (vec![3], 0)], &[(vec![1], 0)]);
    ddk.drive(&mut session, step).unwrap();
    assert_eq!(session.cached_len(IoKind::Input), 3);
    ddk.calls.clear();
    let step = session.prepare_io(&[(vec![1], 0)], &[]);
    ddk.drive(&mut session, step).unwrap();
    assert!(ddk.calls.is_empty());
    assert_eq!(session.cached_len(IoKind::Input), 1);
    assert_eq!(session.cached_len(IoKind::Output), 0);
}

#[test]
fn one_shot_dispatch_loads_then_runs() {
    let model = [9u8; 20];
    let data = [1u8; 8];
    let inputs = vec![InputDesc { data: &data, shape: vec![2], dtype: 0 }];
    let mut out = vec![0u8; 8];
    let mut outputs = vec![OutputDesc { data: &mut out, shape: vec![2], dtype: 0, actual_len: 0 }];
    let mut ddk = FakeDdk::new();
    let (mut session, step) = dispatch::<u32>(&model, &inputs, &outputs);
    ddk.drive(&mut session, step).unwrap();
    let mut expected = load_calls(20);
    expected.extend(create_calls(IoKind::Input, 0, 1, CannDataType::CANN_DT_FLOAT));
    expected.push(Call::SetInputData { index: 0, len: 8 });
    expected.extend(create_calls(IoKind::Output, 0, 1, CannDataType::CANN_DT_FLOAT));
    expected.push(Call::Process { input_count: 1, output_count: 1, timeout_ms: 1000 });
    assert_eq!(ddk.calls, expected);

    let result = [5u8, 6, 7, 8, 9, 10, 11, 12];
    read_back(&mut outputs, &[Some(&result[..])]).unwrap();
    assert_eq!(outputs[0].actual_len, 8);
    assert_eq!(outputs[0].data, &result[..]);
}

#[test]
fn one_shot_dispatch_stops_when_load_fails() {
    let model = [9u8; 20];
    let mut ddk = FakeDdk::failing_at(6);
    let (mut session, step) = dispatch::<u32>(&model, &[], &[]);
    let err = ddk.drive(&mut session, step).err().unwrap();
    assert_eq!(err.to_string(), "failed to create inference context: null handle");
    assert_eq!(ddk.calls.len(), 7);
}

#[test]
fn read_back_copies_prefix_and_records_length() {
    let mut a = vec![0xAAu8; 6];
    let mut b = vec![0xBBu8; 2];
    let mut outputs = vec![
        OutputDesc { data: &mut a, shape: vec![6], dtype: 4, actual_len: 0 },
        OutputDesc { data: &mut b, shape: vec![2], dtype: 4, actual_len: 0 },
    ];
    let first = [1u8, 2, 3, 4];
    let second = [9u8, 8];
    read_back(&mut outputs, &[Some(&first[..]), Some(&second[..])]).unwrap();
    assert_eq!(outputs[0].actual_len, 4);
    assert_eq!(outputs[0].data, &[1, 2, 3, 4, 0xAA, 0xAA][..]);
    assert_eq!(outputs[1].actual_len, 2);
    assert_eq!(outputs[1].data, &[9, 8][..]);
}

#[test]
fn read_back_null_buffer_keeps_earlier_bytes_and_lengths() {
    let mut a = vec![0u8; 4];
    let mut b = vec![0u8; 4];
    let mut c = vec![5u8; 2];
    let mut outputs = vec![
        OutputDesc { data: &mut a, shape: vec![4], dtype: 4, actual_len: 7 },
        OutputDesc { data: &mut b, shape: vec![4], dtype: 4, actual_len: 7 },
        OutputDesc { data: &mut c, shape: vec![2], dtype: 4, actual_len: 7 },
    ];
    let first = [1u8, 2];
    let third = [3u8];
    let err = read_back(&mut outputs, &[Some(&first[..]), None, Some(&third[..])]).err().unwrap();
    assert!(matches!(err, Error::OutputBufferNull));
    // the first output received its bytes before the null buffer was met
    assert_eq!(outputs[0].data, &[1, 2, 0, 0][..]);
    assert_eq!(outputs[1].data, &[0, 0, 0, 0][..]);
    assert_eq!(outputs[2].data, &[5, 5][..]);
    // no length is recorded on an error
    assert_eq!(outputs[0].actual_len, 7);
    assert_eq!(outputs[1].actual_len, 7);
    assert_eq!(outputs[2].actual_len, 7);
}

#[test]
fn read_back_small_later_buffer_keeps_earlier_bytes() {
    let mut a = vec![0u8; 3];
    let mut b = vec![0u8; 1];
    let mut outputs = vec![
        OutputDesc { data: &mut a, shape: vec![3], dtype: 4, actual_len: 0 },
        OutputDesc { data: &mut b, shape: vec![1], dtype: 4, actual_len: 0 },
    ];
    let first = [4u8, 5, 6];
    let second = [7u8, 8];
    let err = read_back(&mut outputs, &[Some(&first[..]), Some(&second[..])]).err().unwrap();
    assert!(matches!(err, Error::OutputBufferTooSmall));
    assert_eq!(outputs[0].data, &[4, 5, 6][..]);
    assert_eq!(outputs[0].actual_len, 0);
    assert_eq!(outputs[1].data, &[0][..]);
    assert_eq!(outputs[1].actual_len, 0);
}

#[test]
fn read_back_small_buffer_is_reported_first() {
    let mut a = vec![0u8; 2];
    let mut b = vec![0u8; 4];
    let mut outputs = vec![
        OutputDesc { data: &mut a, shape: vec![4], dtype: 4, actual_len: 0 },
        OutputDesc { data: &mut b, shape: vec![4], dtype: 4, actual_len: 0 },
    ];
    let big = [1u8, 2, 3, 4];
    let err = read_back(&mut outputs, &[Some(&big[..]), None]).err().unwrap();
    assert!(matches!(err, Error::OutputBufferTooSmall));
    assert_eq!(outputs[0].data, &[0, 0][..]);
    assert_eq!(outputs[0].actual_len, 0);
}

#[test]
fn preparing_twice_creates_nothing() {
    let mut ddk = FakeDdk::new();
    let mut session = load(&mut ddk, &[0u8; 8]).unwrap();
    let inputs = [(vec![1, 3, 224, 224], 1)];
    let outputs = [(vec![1, 1000], 1)];
    let step = session.prepare_io(&inputs, &outputs);
    ddk.drive(&mut session, step).unwrap();
    ddk.calls.clear();
    let step = session.prepare_io(&inputs, &outputs);
    assert!(matches!(step, Step::Done(Ok(()))));
    ddk.drive(&mut session, step).unwrap();
    assert!(ddk.calls.is_empty());
    assert_eq!(session.cached_len(IoKind::Input), 1);
    assert_eq!(session.cached_len(IoKind::Output), 1);
}

fn io_only(calls: &[Call]) -> Vec<Call> {
    calls
        .iter()
        .filter(|c| matches!(c, Call::SetInputData { .. } | Call::Process { .. }))
        .copied()
        .collect()
}

#[test]
fn repeated_dispatch_reuses_the_same_tensors() {
    let mut ddk = FakeDdk::new();
    let mut session = load(&mut ddk, &[0u8; 8]).unwrap();
    let a = [1u8; 8];
    let b = [2u8; 4];
    let inputs = vec![
        InputDesc { data: &a, shape: vec![2], dtype: 0 },
        InputDesc { data: &b, shape: vec![4], dtype: 3 },
    ];
    let mut out = vec![0u8; 8];
    let outputs = vec![OutputDesc { data: &mut out, shape: vec![2], dtype: 0, actual_len: 0 }];
    let step = session.dispatch(&inputs, &outputs);
    ddk.drive(&mut session, step).unwrap();
    let first = [
        *session.tensor(IoKind::Input, 0),
        *session.tensor(IoKind::Input, 1),
        *session.tensor(IoKind::Output, 0),
    ];
    assert_eq!(first, [1, 2, 3]);
    ddk.calls.clear();

    let c = [7u8; 8];
    let d = [9u8; 4];
    let inputs = vec![
        InputDesc { data: &c, shape: vec![2], dtype: 0 },
        InputDesc { data: &d, shape: vec![4], dtype: 3 },
    ];
    let step = session.dispatch(&inputs, &outputs);
    ddk.drive(&mut session, step).unwrap();
    assert_eq!(
        ddk.calls,
        vec![
            Call::SetInputData { index: 0, len: 8 },
            Call::SetInputData { index: 1, len: 4 },
            Call::Process { input_count: 2, output_count: 1, timeout_ms: 1000 },
        ]
    );
    let second = [
        *session.tensor(IoKind::Input, 0),
        *session.tensor(IoKind::Input, 1),
        *session.tensor(IoKind::Output, 0),
    ];
    assert_eq!(second, first);
}

#[test]
fn failed_input_half_leaves_outputs_untouched() {
    let mut ddk = FakeDdk::new();
    let mut session = load(&mut ddk, &[0u8; 8]).unwrap();
    let step = session.prepare_io(&[(vec![1], 0)], &[(vec![3], 0), (vec![5], 1)]);
    ddk.drive(&mut session, step).unwrap();
    assert_eq!(*session.tensor(IoKind::Output, 0), 2);
    assert_eq!(*session.tensor(IoKind::Output, 1), 3);
    ddk.calls.clear();

    // the input's dtype code is unknown; the outputs asked for differ from
    // the cached ones but are never reached
    let step = session.prepare_io(&[(vec![1], 99)], &[(vec![4], 0)]);
    let err = ddk.drive(&mut session, step).err().unwrap();
    assert!(matches!(err, Error::InvalidDataType { value: 99 }));
    assert!(ddk.calls.iter().all(|c| !matches!(
        c,
        Call::CreateDimension { kind: IoKind::Output, .. }
            | Call::CreateTensor { kind: IoKind::Output, .. }
            | Call::InitTensor { kind: IoKind::Output, .. }
    )));
    assert_eq!(session.cached_len(IoKind::Output), 2);
    assert_eq!(*session.tensor(IoKind::Output, 0), 2);
    assert_eq!(*session.tensor(IoKind::Output, 1), 3);
}

#[test]
fn preparing_after_dispatch_is_a_noop() {
    let mut ddk = FakeDdk::new();
    let mut session = load(&mut ddk, &[0u8; 8]).unwrap();
    let a = [1u8; 12];
    let inputs = vec![InputDesc { data: &a, shape: vec![3], dtype: 0 }];
    let mut out = vec![0u8; 2];
    let outputs = vec![OutputDesc { data: &mut out, shape: vec![1], dtype: 1, actual_len: 0 }];
    let step = session.dispatch(&inputs, &outputs);
    ddk.drive(&mut session, step).unwrap();
    ddk.calls.clear();

    let step = session.prepare_io(&[(vec![3], 0)], &[(vec![1], 1)]);
    assert!(matches!(step, Step::Done(Ok(()))));
    ddk.drive(&mut session, step).unwrap();
    assert!(ddk.calls.is_empty());
    assert_eq!(*session.tensor(IoKind::Input, 0), 1);
    assert_eq!(*session.tensor(IoKind::Output, 0), 2);
}

#[test]
fn dispatch_result_does_not_depend_on_preparation() {
    let a = [1u8; 8];
    let inputs = vec![InputDesc { data: &a, shape: vec![2], dtype: 0 }];
    let mut out1 = vec![0u8; 8];
    let outputs1 = vec![OutputDesc { data: &mut out1, shape: vec![2], dtype: 0, actual_len: 0 }];
    let mut out2 = vec![0u8; 8];
    let outputs2 = vec![OutputDesc { data: &mut out2, shape: vec![2], dtype: 0, actual_len: 0 }];

    // one session prepares other shapes first, the other prepares nothing
    let mut ddk1 = FakeDdk::new();
    let mut s1 = load(&mut ddk1, &[0u8; 8]).unwrap();
    let step = s1.prepare_io(&[(vec![5, 5], 1), (vec![1], 0)], &[(vec![2], 0)]);
    ddk1.drive(&mut s1, step).unwrap();
    ddk1.calls.clear();
    let mut ddk2 = FakeDdk::new();
    let mut s2 = load(&mut ddk2, &[0u8; 8]).unwrap();
    ddk2.calls.clear();

    let step = s1.dispatch(&inputs, &outputs1);
    let r1 = ddk1.drive(&mut s1, step);
    let step = s2.dispatch(&inputs, &outputs2);
    let r2 = ddk2.drive(&mut s2, step);
    assert!(r1.is_ok() && r2.is_ok());
    assert_eq!(io_only(&ddk1.calls), io_only(&ddk2.calls));
    assert!(ddk1.calls.len() < ddk2.calls.len());

    // the same failing input gives the same error either way
    let bad = vec![InputDesc { data: &a, shape: vec![2], dtype: 42 }];
    let step = s1.dispatch(&bad, &outputs1);
    let e1 = ddk1.drive(&mut s1, step).err().unwrap();
    let step = s2.dispatch(&bad, &outputs2);
    let e2 = ddk2.drive(&mut s2, step).err().unwrap();
    assert!(matches!(e1, Error::InvalidDataType { value: 42 }));
    assert_eq!(e1.to_string(), e2.to_string());
}

#[test]
fn one_shot_equals_load_then_dispatch() {
    let model = [3u8; 10];
    let a = [1u8; 4];
    let inputs = vec![InputDesc { data: &a, shape: vec![1], dtype: 3 }];
    let mut out = vec![0u8; 4];
    let outputs = vec![OutputDesc { data: &mut out, shape: vec![1], dtype: 3, actual_len: 0 }];

    let mut one = FakeDdk::new();
    let (mut s1, step) = dispatch::<u32>(&model, &inputs, &outputs);
    let r1 = one.drive(&mut s1, step);

    let mut two = FakeDdk::new();
    let mut s2 = load(&mut two, &model).unwrap();
    let step = s2.dispatch(&inputs, &outputs);
    let r2 = two.drive(&mut s2, step);

    assert!(r1.is_ok() && r2.is_ok());
    assert_eq!(one.calls, two.calls);
    assert_eq!(*s1.tensor(IoKind::Input, 0), *s2.tensor(IoKind::Input, 0));
    assert_eq!(*s1.tensor(IoKind::Output, 0), *s2.tensor(IoKind::Output, 0));
}
