use hiai_rs::{data_type, CannDataType, Error};

#[test]
fn data_type_maps_valid_codes() {
    assert_eq!(data_type(0).unwrap(), CannDataType::CANN_DT_FLOAT);
    assert_eq!(data_type(1).unwrap(), CannDataType::CANN_DT_FLOAT16);
    assert_eq!(
        data_type(15).unwrap(),
        CannDataType::CANN_DT_DUAL_SUB_UINT8
    );
}

#[test]
fn data_type_rejects_invalid_codes() {
    assert!(matches!(
        data_type(-1),
        Err(Error::InvalidDataType { value: -1 })
    ));
    assert!(matches!(
        data_type(9999),
        Err(Error::InvalidDataType { value: 9999 })
    ));
}

#[test]
fn data_type_round_trips_every_known_code() {
    let known = [
        0, 1, 2, 3, 4, 6, 7, 8, 9, 10, 11, 12, 13, 14, 15, 16, 21, 22, 23, 24, 25, 26, 27, 28, 35,
        40,
    ];
    for code in -5..60 {
        match data_type(code) {
            Ok(t) => {
                assert!(known.contains(&code));
                assert_eq!(t.code(), code);
            }
            Err(Error::InvalidDataType { value }) => {
                assert!(!known.contains(&code));
                assert_eq!(value, code);
            }
            Err(other) => panic!("unexpected error {:?}", other),
        }
    }
}

#[test]
fn data_type_rejects_gaps_and_extremes() {
    for code in [5, 17, 18, 19, 20, 29, 34, 36, 39, 41, i32::MIN, i32::MAX] {
        assert!(matches!(data_type(code), Err(Error::InvalidDataType { value }) if value == code));
    }
    assert_eq!(data_type(40).unwrap(), CannDataType::CANN_DT_FLOAT4_E2M1);
    assert_eq!(data_type(21).unwrap(), CannDataType::CANN_DT_2BIT);
}
