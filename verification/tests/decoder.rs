//! The response decode cascade against crafted and candid-encoded replies.

use wallet_rust::ext::tokens::{
    decode_as_balance, decode_as_tokens_result, decode_tokens_response, Balance, DecodeFailure,
    TokensResult,
};
use candid::types::internal::{Field, TypeInner};
use candid::types::value::{IDLField, VariantValue};
use candid::types::Label;
use candid::IDLValue;
use wallet_rust::wire;

#[test]
fn decodes_candid_encoded_bare_list() {
    // bytes produced by the real candid encoder must decode as a bare list
    let bytes = candid::encode_one(vec![1u64, 2, 3]).unwrap();
    assert_eq!(decode_tokens_response(&bytes).unwrap(), 3);
}

#[test]
fn decodes_empty_candid_list() {
    let bytes = candid::encode_one(Vec::<u64>::new()).unwrap();
    assert_eq!(decode_tokens_response(&bytes).unwrap(), 0);
}

#[test]
fn decodes_tagged_success_list() {
    let bytes = wire::enc_tokens_ok_reply(&vec![5u64, 6, 7]);
    assert_eq!(decode_tokens_response(&bytes).unwrap(), 3);
}

#[test]
fn tagged_error_with_no_tokens_marker_counts_zero() {
    let msg: Vec<u8> = b"User has No Tokens here".to_vec();
    let bytes = wire::enc_tokens_err_reply(&None, &Some(msg));
    assert_eq!(decode_tokens_response(&bytes).unwrap(), 0);
}

#[test]
fn tagged_error_with_other_message_is_error_response() {
    let msg: Vec<u8> = b"backend exploded".to_vec();
    let bytes = wire::enc_tokens_err_reply(&None, &Some(msg));
    match decode_tokens_response(&bytes) {
        Err(DecodeFailure::ErrorResponse(m)) => assert_eq!(m, "backend exploded"),
        other => panic!("unexpected: {:?}", other.map_err(|_| ())),
    }
}

#[test]
fn tagged_error_with_invalid_token_is_typed() {
    let tok: Vec<u8> = b"token-9".to_vec();
    let bytes = wire::enc_tokens_err_reply(&Some(tok), &None);
    match decode_tokens_response(&bytes) {
        Err(DecodeFailure::InvalidToken(m)) => assert_eq!(m, "token-9"),
        _ => panic!("expected invalid-token failure"),
    }
}

#[test]
fn tagged_error_with_no_message_is_unknown() {
    let bytes = wire::enc_tokens_err_reply(&None, &None);
    assert!(matches!(
        decode_tokens_response(&bytes),
        Err(DecodeFailure::UnknownError)
    ));
}

#[test]
fn balance_reply_yields_its_value() {
    let bytes = wire::enc_balance_ok_reply(42);
    assert_eq!(decode_tokens_response(&bytes).unwrap(), 42);
}

#[test]
fn balance_too_large_is_out_of_range() {
    // the balance header, the success tag, then an LEB128 value of 2^64
    let mut bytes = wire::make_balance_header();
    bytes.push(0x00);
    for _ in 0..9 {
        bytes.push(0x80);
    }
    bytes.push(0x02);
    assert!(matches!(
        decode_tokens_response(&bytes),
        Err(DecodeFailure::OutOfRange)
    ));
}

#[test]
fn garbage_is_unrecognized() {
    let bytes: Vec<u8> = vec![0xde, 0xad, 0xbe, 0xef];
    assert!(matches!(
        decode_tokens_response(&bytes),
        Err(DecodeFailure::Unrecognized)
    ));
    let empty: Vec<u8> = Vec::new();
    assert!(matches!(
        decode_tokens_response(&empty),
        Err(DecodeFailure::Unrecognized)
    ));
}

#[test]
fn uleb_encoding_round_trips() {
    for v in [0u64, 1, 127, 128, 300, 16383, 16384, u64::MAX] {
        let mut bytes: Vec<u8> = Vec::new();
        wire::push_uleb(&mut bytes, v);
        let (parsed, end) = wire::parse_uleb64_at(&bytes, 0).unwrap();
        assert_eq!(parsed, v);
        assert_eq!(end, bytes.len());
    }
}

#[test]
fn surface_tokens_result_reads_both_arms() {
    let ok_bytes = wire::enc_tokens_ok_reply(&vec![2u64, 4]);
    match decode_as_tokens_result(&ok_bytes) {
        Some(TokensResult::Listed(v)) => assert_eq!(v, vec![2, 4]),
        _ => panic!("expected the success arm"),
    }
    let err_bytes = wire::enc_tokens_err_reply(&Some(b"t1".to_vec()), &Some(b"oops".to_vec()));
    match decode_as_tokens_result(&err_bytes) {
        Some(TokensResult::Rejected(e)) => {
            assert_eq!(e.invalid_token.as_deref(), Some("t1"));
            assert_eq!(e.other.as_deref(), Some("oops"));
        }
        _ => panic!("expected the error arm"),
    }
    assert!(decode_as_tokens_result(&vec![1, 2, 3]).is_none());
}

#[test]
fn surface_balance_reads_the_amount() {
    let bytes = wire::enc_balance_ok_reply(17);
    match decode_as_balance(&bytes) {
        Some(Balance::Amount(v)) => assert_eq!(v, 17),
        _ => panic!("expected an amount"),
    }
    assert!(decode_as_balance(&vec![9, 9]).is_none());
}

// builds the tagged token-result type the registries declare, so the real
// candid serializer can produce reply bytes for it
fn tokens_result_type() -> candid::types::Type {
    let vec_nat64: candid::types::Type = TypeInner::Vec(TypeInner::Nat64.into()).into();
    let opt_text: candid::types::Type = TypeInner::Opt(TypeInner::Text.into()).into();
    let err_record: candid::types::Type = TypeInner::Record(vec![
        Field {
            id: Label::Named("InvalidToken".to_string()).into(),
            ty: opt_text.clone(),
        },
        Field {
            id: Label::Named("Other".to_string()).into(),
            ty: opt_text,
        },
    ])
    .into();
    TypeInner::Variant(vec![
        Field {
            id: Label::Named("ok".to_string()).into(),
            ty: vec_nat64,
        },
        Field {
            id: Label::Named("err".to_string()).into(),
            ty: err_record,
        },
    ])
    .into()
}

fn balance_type() -> candid::types::Type {
    let common_error: candid::types::Type = TypeInner::Variant(vec![
        Field {
            id: Label::Named("InvalidToken".to_string()).into(),
            ty: TypeInner::Text.into(),
        },
        Field {
            id: Label::Named("Other".to_string()).into(),
            ty: TypeInner::Text.into(),
        },
    ])
    .into();
    TypeInner::Variant(vec![
        Field {
            id: Label::Named("ok".to_string()).into(),
            ty: TypeInner::Nat.into(),
        },
        Field {
            id: Label::Named("err".to_string()).into(),
            ty: common_error,
        },
    ])
    .into()
}

#[test]
fn decodes_tagged_success_bytes_the_real_candid_encoder_produces() {
    let value = IDLValue::Variant(VariantValue(
        Box::new(IDLField {
            id: Label::Named("ok".to_string()),
            val: IDLValue::Vec(vec![
                IDLValue::Nat64(5),
                IDLValue::Nat64(6),
                IDLValue::Nat64(7),
            ]),
        }),
        0,
    ));
    let args = candid::IDLArgs::new(&[value]);
    let bytes = args
        .to_bytes_with_types(&candid::TypeEnv::new(), &[tokens_result_type()])
        .unwrap();
    assert_eq!(decode_tokens_response(&bytes).unwrap(), 3);
}

#[test]
fn decodes_tagged_error_bytes_the_real_candid_encoder_produces() {
    let err_value = IDLValue::Record(vec![
        IDLField {
            id: Label::Named("InvalidToken".to_string()),
            val: IDLValue::None,
        },
        IDLField {
            id: Label::Named("Other".to_string()),
            val: IDLValue::Opt(Box::new(IDLValue::Text("no tokens".to_string()))),
        },
    ]);
    let value = IDLValue::Variant(VariantValue(
        Box::new(IDLField {
            id: Label::Named("err".to_string()),
            val: err_value,
        }),
        1,
    ));
    let args = candid::IDLArgs::new(&[value]);
    let bytes = args
        .to_bytes_with_types(&candid::TypeEnv::new(), &[tokens_result_type()])
        .unwrap();
    assert_eq!(decode_tokens_response(&bytes).unwrap(), 0);
}

#[test]
fn decodes_balance_bytes_the_real_candid_encoder_produces() {
    let value = IDLValue::Variant(VariantValue(
        Box::new(IDLField {
            id: Label::Named("ok".to_string()),
            val: IDLValue::Nat(candid::Nat::from(42u64)),
        }),
        0,
    ));
    let args = candid::IDLArgs::new(&[value]);
    let bytes = args
        .to_bytes_with_types(&candid::TypeEnv::new(), &[balance_type()])
        .unwrap();
    assert_eq!(decode_tokens_response(&bytes).unwrap(), 42);
}
