use wallet_ledger::json::{decode_generic_output, encode_generic_output, json_reencode, json_round_trip};
use wallet_ledger::proto::{ErrorOutput, GenericOutput, OneError, UserBalanceData};
use wallet_ledger::protobuf::{
    decode_generic_output_protobuf, encode_generic_output_protobuf, protobuf_reencode,
    protobuf_round_trip,
};

fn sample_balance() -> GenericOutput {
    GenericOutput {
        user_balance: Some(UserBalanceData {
            user_id: "alice".to_string(),
            currency: "USD".to_string(),
            value: "50".to_string(),
            reserved_value: "50".to_string(),
            is_overdraft: false,
        }),
        error: None,
    }
}

#[test]
fn json_encoding_is_canonical() {
    let bytes = encode_generic_output(&sample_balance());
    assert_eq!(
        bytes,
        br#"{"userBalance":{"userId":"alice","currency":"USD","value":"50","reservedValue":"50","isOverdraft":false},"error":null}"#
    );

    let err = GenericOutput {
        user_balance: None,
        error: Some(ErrorOutput {
            one_error: Some(OneError::BadParameter("value".to_string())),
        }),
    };
    assert_eq!(
        encode_generic_output(&err),
        br#"{"userBalance":null,"error":{"oneError":{"badParameter":{"name":"value"}}}}"#
    );
}

#[test]
fn json_matches_reference_parser() {
    let bytes = encode_generic_output(&sample_balance());
    let v: serde_json::Value = serde_json::from_slice(&bytes).unwrap();
    assert_eq!(v["userBalance"]["userId"], "alice");
    assert_eq!(v["userBalance"]["isOverdraft"], false);
    assert_eq!(v["error"], serde_json::Value::Null);
}

#[test]
fn json_round_trip_is_stable() {
    let outputs = vec![
        sample_balance(),
        GenericOutput { user_balance: None, error: None },
        GenericOutput {
            user_balance: None,
            error: Some(ErrorOutput { one_error: Some(OneError::UserNotFound) }),
        },
        GenericOutput {
            user_balance: Some(UserBalanceData {
                user_id: "a\"b\\c\nd\te\u{1}".to_string(),
                currency: "fran\u{e7}ais".to_string(),
                value: "-1.5".to_string(),
                reserved_value: "0".to_string(),
                is_overdraft: true,
            }),
            error: Some(ErrorOutput { one_error: Some(OneError::NotEnoughMoney) }),
        },
    ];
    for o in outputs {
        let bytes = encode_generic_output(&o);
        let decoded = decode_generic_output(&bytes).unwrap();
        assert_eq!(encode_generic_output(&decoded), bytes);
        assert_eq!(json_reencode(&bytes).unwrap(), bytes);
    }
}

#[test]
fn json_decoder_rejects_junk() {
    assert!(decode_generic_output(b"").is_none());
    assert!(decode_generic_output(b"{}").is_none());
    assert!(decode_generic_output(br#"{"userBalance":null,"error":null}x"#).is_none());
}

#[test]
fn protobuf_encoding_is_canonical() {
    let err = GenericOutput {
        user_balance: None,
        error: Some(ErrorOutput { one_error: Some(OneError::UserNotFound) }),
    };
    assert_eq!(encode_generic_output_protobuf(&err), vec![18, 2, 10, 0]);

    let empty = GenericOutput { user_balance: None, error: None };
    assert_eq!(encode_generic_output_protobuf(&empty), Vec::<u8>::new());

    let bytes = encode_generic_output_protobuf(&sample_balance());
    // user_balance field, its length, then the five inner fields.
    assert_eq!(bytes[0], 10);
    assert_eq!(bytes[1] as usize, bytes.len() - 2);
}

#[test]
fn protobuf_round_trip_is_stable() {
    let outputs = vec![
        sample_balance(),
        GenericOutput { user_balance: None, error: None },
        GenericOutput {
            user_balance: None,
            error: Some(ErrorOutput {
                one_error: Some(OneError::BadParameter("currency".to_string())),
            }),
        },
        GenericOutput {
            user_balance: Some(UserBalanceData {
                user_id: String::new(),
                currency: "USD".to_string(),
                value: "0.1".to_string(),
                reserved_value: String::new(),
                is_overdraft: true,
            }),
            error: Some(ErrorOutput { one_error: Some(OneError::InvalidState) }),
        },
    ];
    for o in outputs {
        let bytes = encode_generic_output_protobuf(&o);
        let decoded = decode_generic_output_protobuf(&bytes).unwrap();
        assert_eq!(encode_generic_output_protobuf(&decoded), bytes);
        assert_eq!(protobuf_reencode(&bytes).unwrap(), bytes);
    }
}

#[test]
fn protobuf_decoder_rejects_junk() {
    assert!(decode_generic_output_protobuf(&[7]).is_none());
    assert!(decode_generic_output_protobuf(&[18, 5, 10, 0]).is_none());
    // a non-minimal varint length is refused
    assert!(decode_generic_output_protobuf(&[18, 130, 0, 10, 0]).is_none());
}

#[test]
fn round_trip_functions_always_succeed() {
    let outputs = vec![
        sample_balance(),
        GenericOutput { user_balance: None, error: None },
        GenericOutput {
            user_balance: Some(UserBalanceData {
                user_id: String::new(),
                currency: "\u{1f4b0}".to_string(),
                value: "0.5".to_string(),
                reserved_value: "9".to_string(),
                is_overdraft: true,
            }),
            error: Some(ErrorOutput {
                one_error: Some(OneError::BadParameter("va\"l\\ue\n".to_string())),
            }),
        },
    ];
    for o in outputs {
        let jd = json_round_trip(&o).unwrap();
        assert_eq!(encode_generic_output(&jd), encode_generic_output(&o));
        let pd = protobuf_round_trip(&o).unwrap();
        assert_eq!(
            encode_generic_output_protobuf(&pd),
            encode_generic_output_protobuf(&o)
        );
    }
}
