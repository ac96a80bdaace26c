use kcl_multilang::codec::{decode_in, encode_in, encode_out, parse_u64_str};
use kcl_multilang::json::fmt_u64;
use kcl_multilang::message::input;
use kcl_multilang::message::output;

#[test]
fn round_trip_initialize() {
    let m = input::Message::Initialize(input::InitializeMessage {
        shard_id: "shardId-000".to_string(),
        sequence_number: Some("49600".to_string()),
        sub_sequence_number: Some(7),
    });
    let line = encode_in(&m);
    assert_eq!(
        line,
        "{\"action\":\"initialize\",\"shardId\":\"shardId-000\",\"sequenceNumber\":\"49600\",\"subSequenceNumber\":7}"
    );
    match decode_in(&line).unwrap() {
        input::Message::Initialize(d) => {
            assert_eq!(d.shard_id, "shardId-000");
            assert_eq!(d.sequence_number.as_deref(), Some("49600"));
            assert_eq!(d.sub_sequence_number, Some(7));
        }
        _ => panic!("wrong variant"),
    }
}

#[test]
fn round_trip_initialize_absent_options() {
    let m = input::Message::Initialize(input::InitializeMessage {
        shard_id: "s".to_string(),
        sequence_number: None,
        sub_sequence_number: None,
    });
    let line = encode_in(&m);
    // absent optional fields are omitted, not encoded as null
    assert_eq!(line, "{\"action\":\"initialize\",\"shardId\":\"s\"}");
    match decode_in(&line).unwrap() {
        input::Message::Initialize(d) => {
            assert_eq!(d.sequence_number, None);
            assert_eq!(d.sub_sequence_number, None);
        }
        _ => panic!("wrong variant"),
    }
}

#[test]
fn round_trip_process_records() {
    let m = input::Message::ProcessRecords(input::ProcessRecordsMessage {
        records: vec![
            input::Record {
                base64_data: "aGVsbG8=".to_string(),
                partition_key: "pk\"x".to_string(),
                sequence_number: "49590338271490256608559692538361571095921575989136588898".to_string(),
                sub_sequence_number: Some(0),
                approximate_arrival_timestamp_ms: Some(1570887011763),
            },
            input::Record {
                base64_data: "d29ybGQ=".to_string(),
                partition_key: "k2".to_string(),
                sequence_number: "2".to_string(),
                sub_sequence_number: None,
                approximate_arrival_timestamp_ms: None,
            },
        ],
        millis_behind_latest: Some(0),
    });
    let line = encode_in(&m);
    match decode_in(&line).unwrap() {
        input::Message::ProcessRecords(d) => {
            assert_eq!(d.records.len(), 2);
            assert_eq!(d.records[0].partition_key, "pk\"x");
            assert_eq!(d.records[0].sub_sequence_number, Some(0));
            assert_eq!(d.records[1].base64_data, "d29ybGQ=");
            assert_eq!(d.records[1].approximate_arrival_timestamp_ms, None);
            assert_eq!(d.millis_behind_latest, Some(0));
        }
        _ => panic!("wrong variant"),
    }
}

#[test]
fn round_trip_checkpoint_and_others() {
    let m = input::Message::Checkpoint(input::CheckpointMessage {
        sequence_number: None,
        sub_sequence_number: None,
        error: Some("oops".to_string()),
    });
    let line = encode_in(&m);
    // the absent sequence number is omitted, not written as null
    assert_eq!(line, "{\"action\":\"checkpoint\",\"error\":\"oops\"}");
    match decode_in(&line).unwrap() {
        input::Message::Checkpoint(d) => {
            assert_eq!(d.sequence_number, None);
            assert_eq!(d.error.as_deref(), Some("oops"));
        }
        _ => panic!("wrong variant"),
    }
    for (m, id) in [
        (input::Message::ShutdownRequested(input::ShutdownRequestedMessage {}), "shutdownRequested"),
        (input::Message::LeaseLost(input::LeaseLostMessage {}), "leaseLost"),
        (input::Message::ShardEnded(input::ShardEndedMessage {}), "shardEnded"),
        (
            input::Message::Shutdown(input::ShutdownMessage { reason: Some("zombie".to_string()) }),
            "shutdown",
        ),
    ] {
        let line = encode_in(&m);
        let back = decode_in(&line).unwrap();
        assert_eq!(back.id(), id);
        assert_eq!(m.id(), id);
    }
}

#[test]
fn decode_accepts_any_field_order_whitespace_and_unknown_fields() {
    let line = " { \"shardId\" : \"s-1\" , \"extra\" : [true, null, 1.5, {\"x\": \"y\"}] , \"action\" : \"initialize\" } ";
    match decode_in(line).unwrap() {
        input::Message::Initialize(d) => assert_eq!(d.shard_id, "s-1"),
        _ => panic!("wrong variant"),
    }
}

#[test]
fn decode_resolves_string_escapes() {
    let line = "{\"action\":\"shutdown\",\"reason\":\"a\\n\\\"b\\\"\\u0041\\t\"}";
    match decode_in(line).unwrap() {
        input::Message::Shutdown(d) => assert_eq!(d.reason.as_deref(), Some("a\n\"b\"A\t")),
        _ => panic!("wrong variant"),
    }
}

#[test]
fn encode_escapes_controls_and_round_trips() {
    let m = input::Message::Shutdown(input::ShutdownMessage {
        reason: Some("x\ny\t\"z\"\\ \u{1}".to_string()),
    });
    let line = encode_in(&m);
    assert_eq!(line, "{\"action\":\"shutdown\",\"reason\":\"x\\ny\\t\\\"z\\\"\\\\ \\u0001\"}");
    match decode_in(&line).unwrap() {
        input::Message::Shutdown(d) => assert_eq!(d.reason.as_deref(), Some("x\ny\t\"z\"\\ \u{1}")),
        _ => panic!("wrong variant"),
    }
}

#[test]
fn decode_resolves_surrogate_pairs() {
    let line = "{\"action\":\"shutdown\",\"reason\":\"\\uD83D\\uDE00\"}";
    match decode_in(line).unwrap() {
        input::Message::Shutdown(d) => assert_eq!(d.reason.as_deref(), Some("\u{1F600}")),
        _ => panic!("wrong variant"),
    }
    // a lone surrogate is a malformed frame
    assert!(decode_in("{\"action\":\"shutdown\",\"reason\":\"\\uD83D\"}").is_err());
    assert!(decode_in("{\"action\":\"shutdown\",\"reason\":\"\\uDE00\"}").is_err());
}

#[test]
fn decode_checks_number_tokens_everywhere() {
    // a well-formed number in an ignored field is tolerated
    assert!(decode_in("{\"action\":\"leaseLost\",\"z\":-1.5e3}").is_ok());
    assert!(decode_in("{\"action\":\"leaseLost\",\"z\":0.25}").is_ok());
    // a malformed number anywhere makes the whole frame fatal
    assert!(decode_in("{\"action\":\"leaseLost\",\"z\":..}").is_err());
    assert!(decode_in("{\"action\":\"leaseLost\",\"z\":01}").is_err());
    assert!(decode_in("{\"action\":\"leaseLost\",\"z\":-}").is_err());
    assert!(decode_in("{\"action\":\"leaseLost\",\"z\":1e}").is_err());
}

#[test]
fn decode_failures() {
    // not JSON at all
    assert!(decode_in("checkpoint").is_err());
    // not an object
    assert!(decode_in("[1,2]").is_err());
    // missing discriminator
    assert!(decode_in("{\"shardId\":\"s\"}").is_err());
    // unknown discriminator
    assert!(decode_in("{\"action\":\"reboot\"}").is_err());
    // missing required field
    assert!(decode_in("{\"action\":\"initialize\"}").is_err());
    // mistyped field
    assert!(decode_in("{\"action\":\"initialize\",\"shardId\":7}").is_err());
    // a checkpoint's sequenceNumber may be absent or null
    match decode_in("{\"action\":\"checkpoint\"}").unwrap() {
        input::Message::Checkpoint(d) => assert_eq!(d.sequence_number, None),
        _ => panic!("wrong variant"),
    }
    assert!(decode_in("{\"action\":\"checkpoint\",\"sequenceNumber\":null}").is_ok());
    // trailing garbage
    assert!(decode_in("{\"action\":\"leaseLost\"} x").is_err());
    // number out of u64 range
    assert!(
        decode_in("{\"action\":\"initialize\",\"shardId\":\"s\",\"subSequenceNumber\":18446744073709551616}")
            .is_err()
    );
    assert!(
        decode_in("{\"action\":\"initialize\",\"shardId\":\"s\",\"subSequenceNumber\":18446744073709551615}")
            .is_ok()
    );
}

#[test]
fn u64_text() {
    assert_eq!(fmt_u64(0), "0");
    assert_eq!(fmt_u64(18446744073709551615), "18446744073709551615");
    assert_eq!(parse_u64_str("0"), Some(0));
    assert_eq!(parse_u64_str("007"), None);
    assert_eq!(parse_u64_str(""), None);
    assert_eq!(parse_u64_str("12a"), None);
    assert_eq!(parse_u64_str("18446744073709551616"), None);
    assert_eq!(parse_u64_str("18446744073709551615"), Some(u64::MAX));
}

#[test]
fn encode_outbound_frames() {
    let st = output::Message::Status(output::StatusMessage {
        response_for: "processRecords".to_string(),
    });
    assert_eq!(encode_out(&st), "{\"action\":\"status\",\"responseFor\":\"processRecords\"}");
    let cp = output::Message::Checkpoint(output::CheckpointMessage {
        sequence_number: Some("49600".to_string()),
        sub_sequence_number: Some(12),
    });
    assert_eq!(
        encode_out(&cp),
        "{\"action\":\"checkpoint\",\"sequenceNumber\":\"49600\",\"subSequenceNumber\":12}"
    );
    let cp_none = output::Message::Checkpoint(output::CheckpointMessage {
        sequence_number: None,
        sub_sequence_number: None,
    });
    assert_eq!(encode_out(&cp_none), "{\"action\":\"checkpoint\"}");
}

#[test]
fn record_to_bytes() {
    let rec = input::Record {
        base64_data: "aGVsbG8=".to_string(),
        partition_key: "p".to_string(),
        sequence_number: "1".to_string(),
        sub_sequence_number: None,
        approximate_arrival_timestamp_ms: None,
    };
    assert_eq!(rec.to_bytes().unwrap(), b"hello".to_vec());
    let bad = input::Record { base64_data: "###".to_string(), ..rec };
    assert!(bad.to_bytes().is_err());
}

#[test]
fn status_from_message() {
    let m = input::Message::LeaseLost(input::LeaseLostMessage {});
    let st = output::StatusMessage::from_message(&m);
    assert_eq!(st.response_for, "leaseLost");
}
