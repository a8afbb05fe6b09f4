use hiai_rs::{count_i32, flag_enabled, len_u32, CannStatus, Error};

#[test]
fn test_error_display() {
    let err = Error::Cann {
        operation: "load model",
        status: CannStatus::from_code(2),
    };
    assert_eq!(err.to_string(), "load model failed with kNotInit (2)");
}

#[test]
fn status_names_and_codes() {
    let names = [
        (0, Some("kSuccess")),
        (1, Some("kFailed")),
        (2, Some("kNotInit")),
        (3, Some("kInvalidPara")),
        (4, None),
        (7, Some("kInvalidApi")),
        (8, Some("kInvalidPtr")),
        (-1, None),
    ];
    for (code, name) in names {
        let status = CannStatus::from_code(code);
        assert_eq!(status.code(), code);
        assert_eq!(status.name(), name);
    }
}

#[test]
fn status_text_for_known_and_unknown_codes() {
    assert_eq!(CannStatus::from_code(8).to_string(), "kInvalidPtr (8)");
    assert_eq!(CannStatus::from_code(42).to_string(), "unknown status (42)");
    assert_eq!(CannStatus::from_code(-7).to_string(), "unknown status (-7)");
    assert_eq!(
        CannStatus::from_code(i32::MIN).to_string(),
        "unknown status (-2147483648)"
    );
    assert_eq!(CannStatus::from_code(0).to_string(), "kSuccess (0)");
}

#[test]
fn every_error_message() {
    assert_eq!(
        Error::Cann { operation: "run inference", status: CannStatus::from_code(1000) }.to_string(),
        "run inference failed with unknown status (1000)"
    );
    assert_eq!(
        Error::Null { what: "model manager" }.to_string(),
        "failed to create model manager: null handle"
    );
    assert_eq!(
        Error::TooLarge { what: "model buffer" }.to_string(),
        "model buffer exceeds u32::MAX (4 GiB)"
    );
    assert_eq!(
        Error::TooMany { what: "shape rank" }.to_string(),
        "shape rank exceeds i32::MAX"
    );
    assert_eq!(Error::OutputBufferNull.to_string(), "output tensor buffer is null");
    assert_eq!(Error::OutputBufferTooSmall.to_string(), "output buffer is too small");
    assert_eq!(
        Error::InvalidDataType { value: -12 }.to_string(),
        "invalid CANN data type: -12"
    );
    assert_eq!(
        Error::InvalidDataType { value: 9999 }.to_string(),
        "invalid CANN data type: 9999"
    );
}

#[test]
fn count_and_length_guards() {
    assert_eq!(count_i32(0, "input count").unwrap(), 0);
    assert_eq!(count_i32(i32::MAX as usize, "input count").unwrap(), i32::MAX);
    assert!(matches!(
        count_i32(i32::MAX as usize + 1, "input count"),
        Err(Error::TooMany { what: "input count" })
    ));
    assert_eq!(len_u32(u32::MAX as usize, "input tensor").unwrap(), u32::MAX);
    assert!(matches!(
        len_u32(u32::MAX as usize + 1, "input tensor"),
        Err(Error::TooLarge { what: "input tensor" })
    ));
}

#[test]
fn timing_flag_only_for_exact_one() {
    assert!(flag_enabled(Some("1")));
    assert!(!flag_enabled(Some("0")));
    assert!(!flag_enabled(Some("11")));
    assert!(!flag_enabled(Some(" 1")));
    assert!(!flag_enabled(Some("")));
    assert!(!flag_enabled(None));
}
