use aurora::catalog::{Language, NovelChapter};
use aurora::codec::Byteable;
use aurora::error::{DecodeError, EncodeError};
use aurora::protocol::{
    decode_command, encode_request, next_step, AuroraProtocolResponse, AuroraStatus, Command, DispatchStep,
    ExchangeContentRequest,
};

fn encoded<T: Byteable>(value: &T) -> Vec<u8> {
    let mut out = Vec::new();
    value.encode(&mut out).unwrap();
    out
}

#[test]
fn string_hi_is_length_prefixed() {
    assert_eq!(encoded(&"hi".to_string()), vec![0x00, 0x02, b'h', b'i']);
}

#[test]
fn byte_vector_is_count_prefixed() {
    assert_eq!(encoded(&vec![1u8, 2, 3]), vec![0x00, 0x03, 1, 2, 3]);
}

#[test]
fn integers_are_big_endian() {
    assert_eq!(encoded(&0x0102u16), vec![1, 2]);
    assert_eq!(encoded(&0x01020304u32), vec![1, 2, 3, 4]);
    assert_eq!(encoded(&0x0102030405060708u64), vec![1, 2, 3, 4, 5, 6, 7, 8]);
    assert_eq!(encoded(&-2i32), vec![0xff, 0xff, 0xff, 0xfe]);
    assert_eq!(encoded(&true), vec![1]);
    assert_eq!(encoded(&false), vec![0]);
}

#[test]
fn option_and_result_tags() {
    assert_eq!(encoded(&Some(7u8)), vec![1, 7]);
    assert_eq!(encoded(&None::<u8>), vec![0]);
    assert_eq!(encoded(&Ok::<u8, u16>(5)), vec![0, 5]);
    assert_eq!(encoded(&Err::<u8, u16>(5)), vec![1, 0, 5]);
}

#[test]
fn round_trips_of_composites() {
    let value: Vec<(String, Option<u64>)> = vec![("héllo".to_string(), Some(42)), (String::new(), None)];
    let bytes = encoded(&value);
    let (back, end) = <Vec<(String, Option<u64>)>>::decode(&bytes, 0).unwrap();
    assert_eq!(end, bytes.len());
    assert_eq!(back, value);
    let r: Result<i32, String> = Err("boom".to_string());
    let bytes = encoded(&r);
    let (back, _) = <Result<i32, String>>::decode(&bytes, 0).unwrap();
    assert_eq!(back, r);
}

#[test]
fn decode_starts_at_the_given_position() {
    let bytes = vec![9, 9, 0x00, 0x02, b'o', b'k', 77];
    let (s, end) = String::decode(&bytes, 2).unwrap();
    assert_eq!(s, "ok");
    assert_eq!(end, 6);
}

#[test]
fn too_many_elements_above_the_limit() {
    let long = "a".repeat(65536);
    let mut out = Vec::new();
    assert_eq!(
        long.encode(&mut out),
        Err(EncodeError::TooManyElements { allowed: 65535, actual: 65536 })
    );
    let items = vec![0u8; 65536];
    let mut out = Vec::new();
    assert_eq!(
        items.encode(&mut out),
        Err(EncodeError::TooManyElements { allowed: 65535, actual: 65536 })
    );
}

#[test]
fn exactly_the_limit_is_accepted() {
    let items = vec![0u8; 65535];
    let bytes = encoded(&items);
    assert_eq!(bytes.len(), 65537);
    assert_eq!(&bytes[..2], &[0xff, 0xff]);
    let s = "b".repeat(65535);
    assert_eq!(encoded(&s).len(), 65537);
}

#[test]
fn short_input_is_an_io_error() {
    assert_eq!(u32::decode(&[1, 2, 3], 0), Err(DecodeError::IoError));
    assert_eq!(String::decode(&[0, 5, b'a'], 0), Err(DecodeError::IoError));
}

#[test]
fn invalid_utf8_is_rejected() {
    assert_eq!(String::decode(&[0, 2, 0xff, 0xfe], 0), Err(DecodeError::FromUtf8Error));
}

#[test]
fn unknown_language_is_an_invalid_variant() {
    match NovelChapter::decode(&[9], 0) {
        Err(DecodeError::InvalidEnumVariant { variant_value, enum_name }) => {
            assert_eq!(variant_value, "9");
            assert_eq!(enum_name, "Language");
        }
        _ => panic!("expected an invalid variant"),
    }
    let (chapter, _) = NovelChapter::decode(&[1], 0).unwrap();
    assert_eq!(chapter.language, Language::English);
}

#[test]
fn status_codes_on_the_wire() {
    assert_eq!(encoded(&AuroraStatus::Success), vec![0, 200]);
    assert_eq!(
        encoded(&AuroraStatus::NotFound("x".to_string())),
        vec![0x01, 0x94, 0, 1, b'x']
    );
    assert_eq!(AuroraStatus::InvalidArgument(String::new()).code(), 400);
    assert_eq!(AuroraStatus::InternalError(String::new()).code(), 500);
    assert!(AuroraStatus::Success.is_ok());
    assert!(!AuroraStatus::NotFound(String::new()).is_ok());
}

#[test]
fn unknown_status_code_is_an_invalid_variant() {
    match AuroraStatus::decode(&[0, 201], 0) {
        Err(DecodeError::InvalidEnumVariant { variant_value, enum_name }) => {
            assert_eq!(variant_value, "201");
            assert_eq!(enum_name, "AuroraStatus");
        }
        _ => panic!("expected an invalid variant"),
    }
}

#[test]
fn request_header_and_payload() {
    let mut out = Vec::new();
    encode_request(Command::ExchangeContent, &ExchangeContentRequest { count: 10 }, &mut out).unwrap();
    assert_eq!(out, vec![1, 1, 1, 0, 10]);
    assert_eq!(decode_command(&out, 1), Ok((Command::ExchangeContent, 3)));
    let mut out = Vec::new();
    Command::Who.encode_header(&mut out);
    assert_eq!(out, vec![1, 0, 1]);
}

#[test]
fn unknown_command_bytes() {
    assert!(matches!(decode_command(&[1, 7], 0), Err(DecodeError::InvalidEnumVariant { .. })));
    assert!(matches!(decode_command(&[0, 9], 0), Err(DecodeError::InvalidEnumVariant { .. })));
    assert_eq!(decode_command(&[1], 0), Err(DecodeError::IoError));
}

#[test]
fn error_response_carries_no_payload() {
    let response: AuroraProtocolResponse<u16> = AuroraProtocolResponse::not_found("gone".to_string());
    let bytes = encoded(&response);
    assert_eq!(bytes, vec![0x01, 0x94, 0, 4, b'g', b'o', b'n', b'e']);
    let (back, end) = <AuroraProtocolResponse<u16>>::decode(&bytes, 0).unwrap();
    assert_eq!(end, bytes.len());
    assert_eq!(back.status(), &AuroraStatus::NotFound("gone".to_string()));
    assert!(back.payload().is_none());
}

#[test]
fn success_response_round_trip() {
    let response = AuroraProtocolResponse::ok(513u16);
    let bytes = encoded(&response);
    assert_eq!(bytes, vec![0, 200, 2, 1]);
    let (back, _) = <AuroraProtocolResponse<u16>>::decode(&bytes, 0).unwrap();
    assert_eq!(back.payload_if_ok().ok(), Some(513));
}

#[test]
fn dispatch_steps() {
    assert_eq!(next_step(&[], 0, true), DispatchStep::Close);
    assert_eq!(next_step(&[], 0, false), DispatchStep::Wait);
    assert_eq!(next_step(&[1, 1], 0, false), DispatchStep::Wait);
    assert_eq!(next_step(&[1, 1], 0, true), DispatchStep::Fail(DecodeError::IoError));
    assert_eq!(next_step(&[9, 9, 9, 1, 0, 1, 7], 3, true), DispatchStep::Dispatch(Command::Who, 6));
    assert!(matches!(next_step(&[2, 0, 0], 0, false), DispatchStep::Fail(DecodeError::InvalidEnumVariant { .. })));
    assert!(matches!(next_step(&[1, 3, 0], 0, false), DispatchStep::Fail(DecodeError::InvalidEnumVariant { .. })));
}

#[test]
fn tags_other_than_zero_and_one_are_invalid() {
    for (result, name) in [
        (bool::decode(&[2], 0).err(), "bool"),
        (Option::<u8>::decode(&[7, 1], 0).err(), "Option"),
        (Result::<u8, u8>::decode(&[200, 1], 0).err(), "Result"),
    ] {
        match result {
            Some(DecodeError::InvalidEnumVariant { enum_name, .. }) => assert_eq!(enum_name, name),
            _ => panic!("expected an invalid variant"),
        }
    }
    assert_eq!(bool::decode(&[1], 0), Ok((true, 1)));
    assert_eq!(bool::decode(&[0], 0), Ok((false, 1)));
}

#[test]
fn unknown_version_names_the_byte() {
    use_version(&[7]);
}

fn use_version(bytes: &[u8]) {
    match aurora::protocol::AuroraProtocolVersion::decode(bytes, 0) {
        Err(DecodeError::InvalidEnumVariant { variant_value, enum_name }) => {
            assert_eq!(variant_value, "7");
            assert_eq!(enum_name, "AuroraProtocolVersion");
        }
        _ => panic!("expected an invalid variant"),
    }
}

#[test]
fn too_long_string_writes_nothing() {
    let mut out = vec![5u8];
    let long = "z".repeat(70000);
    assert_eq!(long.encode(&mut out), Err(EncodeError::TooManyElements { allowed: 65535, actual: 70000 }));
    assert_eq!(out, vec![5u8]);
}
