//! End-to-end tests of the command batching and execution core: encoding,
//! decoding, the builder state machine and the error taxonomy.

use divoom::builder::{
    complete_execution, DivoomDeviceMirrorMode, DivoomDeviceRotationAngle, PixooCommandBuilder,
};
use divoom::client::PixooClient;
use divoom::command::{Command, ResponseEnvelope};
use divoom::decode::decode_response;
use divoom::encode::{encode_command, encode_envelope};
use divoom::error::DivoomAPIError;
use divoom::value::ParamValue;

#[test]
fn pixoo_client_batch_mode_should_work() {
    let pixoo = PixooClient::new("127.0.0.1:1234");
    let builder = pixoo
        .start_batch()
        .set_device_rotation_angle(DivoomDeviceRotationAngle::Rotate90)
        .set_device_mirror_mode(DivoomDeviceMirrorMode::On)
        .set_device_brightness(30);
    assert_eq!(builder.command_count(), 3);
    let body = builder.request_body();
    let expected = "{\"Command\":\"Draw/CommandList\",\"CommandList\":[{\"Command\":\"Device/SetScreenRotationAngle\",\"Mode\":1},{\"Command\":\"Device/SetMirrorMode\",\"Mode\":1},{\"Command\":\"Channel/SetBrightness\",\"Brightness\":30}]}";
    assert_eq!(body, expected.as_bytes().to_vec());
    // A well-behaved device answers with a bare success envelope; the one
    // round trip must complete successfully.
    let outcome: Result<Vec<u8>, String> = Ok(b"{\"error_code\": 0}".to_vec());
    complete_execution(outcome).expect("Request should succeed.");
}

#[test]
fn client_base_url() {
    let pixoo = PixooClient::new("192.168.0.123");
    assert_eq!(pixoo.base_url(), "http://192.168.0.123");
}

#[test]
fn single_command_encodes_to_bare_object() {
    let builder = PixooCommandBuilder::start().set_device_brightness(100);
    let body = builder.request_body();
    assert_eq!(
        body,
        b"{\"Command\":\"Channel/SetBrightness\",\"Brightness\":100}".to_vec()
    );
}

#[test]
fn command_params_keep_append_order() {
    let cmd = Command::new("Tools/SetTimer")
        .param("Minute", ParamValue::Int(5))
        .param("Second", ParamValue::Int(30))
        .param("Status", ParamValue::Int(1));
    let body = encode_command(cmd);
    assert_eq!(
        body,
        b"{\"Command\":\"Tools/SetTimer\",\"Minute\":5,\"Second\":30,\"Status\":1}".to_vec()
    );
}

#[test]
fn empty_batch_encodes_to_empty_command_list() {
    let builder = PixooCommandBuilder::start_batch();
    assert_eq!(builder.command_count(), 0);
    let body = builder.request_body();
    assert_eq!(
        body,
        b"{\"Command\":\"Draw/CommandList\",\"CommandList\":[]}".to_vec()
    );
    let outcome: Result<Vec<u8>, String> = Ok(b"{\"error_code\": 0}".to_vec());
    let envelope = complete_execution(outcome).expect("empty batch should round-trip");
    assert_eq!(envelope.error_code, 0);
    assert!(envelope.payload.is_empty());
}

#[test]
fn server_error_code_is_passed_through_verbatim() {
    let outcome: Result<Vec<u8>, String> = Ok(b"{\"error_code\": 42}".to_vec());
    match complete_execution(outcome) {
        Err(DivoomAPIError::ServerError(code)) => assert_eq!(code, 42),
        other => panic!("expected a server error, got {:?}", other),
    }
}

#[test]
fn transport_failure_is_passed_through_verbatim() {
    let outcome: Result<Vec<u8>, String> = Err("connection refused".to_string());
    match complete_execution(outcome) {
        Err(DivoomAPIError::TransportError(msg)) => assert_eq!(msg, "connection refused"),
        other => panic!("expected a transport error, got {:?}", other),
    }
}

#[test]
fn malformed_bodies_yield_decode_errors() {
    let malformed: [&[u8]; 8] = [
        b"",
        b"not json",
        b"{",
        b"{\"error_code\"",
        b"{\"error_code\":}",
        b"{}",
        b"{\"status\": 1}",
        b"{\"error_code\": \"zero\"}",
    ];
    for body in malformed {
        let outcome: Result<Vec<u8>, String> = Ok(body.to_vec());
        match complete_execution(outcome) {
            Err(DivoomAPIError::DecodeError) => {}
            other => panic!(
                "body {:?} should be a decode error, got {:?}",
                String::from_utf8_lossy(body),
                other
            ),
        }
    }
}

#[test]
fn leading_zero_integers_are_decode_errors() {
    // JSON ends a number after a leading zero, so these bodies leave a
    // stray digit behind and must never pass as a success or an error code.
    let bodies: [&[u8]; 3] = [
        b"{\"error_code\":00}",
        b"{\"error_code\":01}",
        b"{\"error_code\":-01}",
    ];
    for body in bodies {
        let outcome: Result<Vec<u8>, String> = Ok(body.to_vec());
        match complete_execution(outcome) {
            Err(DivoomAPIError::DecodeError) => {}
            other => panic!(
                "body {:?} should be a decode error, got {:?}",
                String::from_utf8_lossy(body),
                other
            ),
        }
    }
    // A bare zero, and a JSON-legal negative zero, still decode.
    let zero = decode_response(b"{\"error_code\":0}").expect("zero must decode");
    assert_eq!(zero.error_code, 0);
    let negative_zero = decode_response(b"{\"error_code\":-0}").expect("-0 must decode");
    assert_eq!(negative_zero.error_code, 0);
}

#[test]
fn json_escapes_are_decoded() {
    let body = b"{\"error_code\":0,\"Msg\":\"a\\nb\\tc\\/d\\u0041\\u00e9\\u20ac\\ud83d\\ude00\"}";
    let decoded = decode_response(body).expect("escaped string must decode");
    assert_eq!(
        decoded.payload[0].1,
        ParamValue::Text("a\nb\tc/dA\u{e9}\u{20ac}\u{1f600}".as_bytes().to_vec())
    );
}

#[test]
fn short_control_escapes_are_decoded() {
    let body = b"{\"error_code\":0,\"Msg\":\"\\b\\f\\r\\u001F\"}";
    let decoded = decode_response(body).expect("escaped string must decode");
    assert_eq!(
        decoded.payload[0].1,
        ParamValue::Text(vec![0x08, 0x0c, 0x0d, 0x1f])
    );
}

#[test]
fn raw_control_bytes_in_strings_are_decode_errors() {
    // An unescaped newline inside a quoted string is not JSON.
    let body = b"{\"error_code\":0,\"Msg\":\"a\nb\"}";
    assert!(decode_response(body).is_none());
    let tab = b"{\"error_code\":0,\"Msg\":\"a\tb\"}";
    assert!(decode_response(tab).is_none());
}

#[test]
fn lone_or_malformed_surrogates_are_decode_errors() {
    let bodies: [&[u8]; 4] = [
        b"{\"error_code\":0,\"Msg\":\"\\ud800\"}",
        b"{\"error_code\":0,\"Msg\":\"\\udc00\"}",
        b"{\"error_code\":0,\"Msg\":\"\\ud800\\u0041\"}",
        b"{\"error_code\":0,\"Msg\":\"\\uZZZZ\"}",
    ];
    for body in bodies {
        assert!(
            decode_response(body).is_none(),
            "body {:?} should not decode",
            String::from_utf8_lossy(body)
        );
    }
}

#[test]
fn control_bytes_are_escaped_on_the_wire() {
    let cmd = Command::new("Device/PlayTFGif").param(
        "FileName",
        ParamValue::Text(vec![0x01, 0x08, 0x09, 0x0a, 0x0c, 0x0d, 0x1f, b'x']),
    );
    let body = encode_command(cmd);
    assert_eq!(
        body,
        b"{\"Command\":\"Device/PlayTFGif\",\"FileName\":\"\\u0001\\b\\t\\n\\f\\r\\u001fx\"}"
            .to_vec()
    );
}

#[test]
fn control_bytes_round_trip_through_the_envelope() {
    let envelope = ResponseEnvelope {
        error_code: 0,
        payload: vec![(
            "Msg".as_bytes().to_vec(),
            ParamValue::Text(vec![0x00, 0x01, 0x08, 0x0a, 0x1f, b'x']),
        )],
    };
    let body = encode_envelope(envelope);
    let decoded = decode_response(&body).expect("an encoded envelope must decode");
    assert_eq!(
        decoded.payload[0].1,
        ParamValue::Text(vec![0x00, 0x01, 0x08, 0x0a, 0x1f, b'x'])
    );
}

#[test]
fn integer_overflow_in_body_is_a_decode_error() {
    let outcome: Result<Vec<u8>, String> =
        Ok(b"{\"error_code\": 99999999999999999999}".to_vec());
    match complete_execution(outcome) {
        Err(DivoomAPIError::DecodeError) => {}
        other => panic!("expected a decode error, got {:?}", other),
    }
}

#[test]
fn trailing_garbage_is_a_decode_error() {
    match decode_response(b"{\"error_code\": 0} extra") {
        None => {}
        Some(env) => panic!("expected a decode failure, got {:?}", env),
    }
}

#[test]
fn envelope_round_trips_through_encode_and_decode() {
    let envelope = ResponseEnvelope {
        error_code: 0,
        payload: vec![
            ("Temperature".as_bytes().to_vec(), ParamValue::Int(-5)),
            (
                "FileName".as_bytes().to_vec(),
                ParamValue::Text(b"a\"b\\c".to_vec()),
            ),
            ("Mirrored".as_bytes().to_vec(), ParamValue::Bool(true)),
            ("Muted".as_bytes().to_vec(), ParamValue::Bool(false)),
        ],
    };
    let body = encode_envelope(envelope);
    let decoded = decode_response(&body).expect("an encoded envelope must decode");
    assert_eq!(decoded.error_code, 0);
    assert_eq!(decoded.payload.len(), 4);
    assert_eq!(decoded.payload[0].0, b"Temperature".to_vec());
    assert_eq!(decoded.payload[0].1, ParamValue::Int(-5));
    assert_eq!(decoded.payload[1].1, ParamValue::Text(b"a\"b\\c".to_vec()));
    assert_eq!(decoded.payload[2].1, ParamValue::Bool(true));
    assert_eq!(decoded.payload[3].1, ParamValue::Bool(false));
}

#[test]
fn extreme_error_codes_round_trip() {
    for code in [i64::MIN, -1, 1, i64::MAX] {
        let envelope = ResponseEnvelope {
            error_code: code,
            payload: Vec::new(),
        };
        let body = encode_envelope(envelope);
        let decoded = decode_response(&body).expect("an encoded envelope must decode");
        assert_eq!(decoded.error_code, code);
    }
}

#[test]
fn whitespace_around_tokens_is_tolerated() {
    let body = b" {\t\"error_code\" :\n0 ,\r\"PicId\" : 7 } ";
    let decoded = decode_response(body).expect("a spaced-out envelope must decode");
    assert_eq!(decoded.error_code, 0);
    assert_eq!(decoded.payload.len(), 1);
    assert_eq!(decoded.payload[0].0, b"PicId".to_vec());
    assert_eq!(decoded.payload[0].1, ParamValue::Int(7));
}

#[test]
fn error_code_is_found_after_other_fields() {
    let decoded =
        decode_response(b"{\"PicId\": 3, \"error_code\": 0}").expect("envelope must decode");
    assert_eq!(decoded.error_code, 0);
    assert_eq!(decoded.payload.len(), 1);
    assert_eq!(decoded.payload[0].0, b"PicId".to_vec());
}

#[test]
fn text_parameters_are_escaped_on_the_wire() {
    let cmd = Command::new("Device/PlayTFGif").param(
        "FileName",
        ParamValue::text_of_str("dir\\clip \"one\".gif"),
    );
    let body = encode_command(cmd);
    assert_eq!(
        body,
        b"{\"Command\":\"Device/PlayTFGif\",\"FileName\":\"dir\\\\clip \\\"one\\\".gif\"}"
            .to_vec()
    );
}

#[test]
fn text_values_carry_utf8_bytes_through_a_round_trip() {
    let envelope = ResponseEnvelope {
        error_code: 0,
        payload: vec![(
            "City".as_bytes().to_vec(),
            ParamValue::text_of_str("Z\u{fc}rich \u{5317}\u{4eac}"),
        )],
    };
    let body = encode_envelope(envelope);
    let decoded = decode_response(&body).expect("an encoded envelope must decode");
    assert_eq!(
        decoded.payload[0].1,
        ParamValue::Text("Z\u{fc}rich \u{5317}\u{4eac}".as_bytes().to_vec())
    );
}

#[test]
fn zero_parameter_command_encodes_to_name_only_object() {
    let builder =
        PixooCommandBuilder::start().append_command(Command::new("Device/GetDeviceTime"));
    assert!(!builder.is_batch());
    assert_eq!(builder.command_count(), 1);
    let body = builder.request_body();
    assert_eq!(body, b"{\"Command\":\"Device/GetDeviceTime\"}".to_vec());
}

#[test]
fn rotation_angles_map_to_wire_integers() {
    let angles = [
        (DivoomDeviceRotationAngle::Rotate0, 0),
        (DivoomDeviceRotationAngle::Rotate90, 1),
        (DivoomDeviceRotationAngle::Rotate180, 2),
        (DivoomDeviceRotationAngle::Rotate270, 3),
    ];
    for (angle, wire) in angles {
        assert_eq!(angle.wire_value(), wire);
    }
    assert_eq!(DivoomDeviceMirrorMode::Off.wire_value(), 0);
    assert_eq!(DivoomDeviceMirrorMode::On.wire_value(), 1);
}
