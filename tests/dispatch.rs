use feral_setupd::codec::{encode_payload, parse_payload};
use feral_setupd::dispatch::{
    classify_connect_error, decode_command, encode_reply, on_join_result, on_topic_result, Command,
    Discarded, JoinStep, StatusCode,
};

fn frame(fields: &[&str]) -> Vec<u8> {
    let v: Vec<String> = fields.iter().map(|s| s.to_string()).collect();
    encode_payload(&v)
}

fn fields(bytes: &[u8]) -> Vec<Vec<u8>> {
    let mut out = Vec::new();
    let mut i = 0;
    while i < bytes.len() {
        let n = bytes[i] as usize;
        out.push(bytes[i + 1..i + 1 + n].to_vec());
        i += 1 + n;
    }
    out
}

#[test]
fn scan_command_decoded() {
    match decode_command(&frame(&["scan_wifi", "r1"])) {
        Command::ScanWifi { reply_id } => assert_eq!(reply_id, "r1"),
        other => panic!("unexpected {:?}", other),
    }
}

#[test]
fn connect_command_decoded() {
    match decode_command(&frame(&["connect_wifi", "7", "Home", "secret", "extra"])) {
        Command::ConnectWifi { reply_id, ssid, password } => {
            assert_eq!(reply_id, "7");
            assert_eq!(ssid, "Home");
            assert_eq!(password, "secret");
        }
        other => panic!("unexpected {:?}", other),
    }
}

#[test]
fn get_info_command_decoded() {
    assert!(matches!(decode_command(&frame(&["get_info", "9"])), Command::GetInfo { reply_id } if reply_id == "9"));
}

#[test]
fn set_time_command_decoded() {
    match decode_command(&frame(&["set_time", "3", "Europe/Paris", "2024-01-01T00:00:00"])) {
        Command::SetTime { timezone, time } => {
            assert_eq!(timezone, "Europe/Paris");
            assert_eq!(time, "2024-01-01T00:00:00");
        }
        other => panic!("unexpected {:?}", other),
    }
}

#[test]
fn malformed_write_discarded() {
    assert!(matches!(decode_command(&[0x05, b'a']), Command::Discard(Discarded::Malformed)));
    assert!(matches!(decode_command(&[0x01, 0xff]), Command::Discard(Discarded::Malformed)));
}

#[test]
fn short_message_discarded() {
    assert!(matches!(decode_command(&frame(&[])), Command::Discard(Discarded::TooFewFields)));
    assert!(matches!(decode_command(&frame(&["scan_wifi"])), Command::Discard(Discarded::TooFewFields)));
}

#[test]
fn connect_with_one_param_discarded() {
    assert!(matches!(
        decode_command(&frame(&["connect_wifi", "1", "Home"])),
        Command::Discard(Discarded::MissingParams)
    ));
}

#[test]
fn set_time_with_one_param_discarded() {
    assert!(matches!(
        decode_command(&frame(&["set_time", "1", "UTC"])),
        Command::Discard(Discarded::MissingParams)
    ));
}

#[test]
fn unknown_and_wrong_case_commands_discarded() {
    assert!(matches!(decode_command(&frame(&["reboot", "1"])), Command::Discard(Discarded::UnknownCommand)));
    assert!(matches!(decode_command(&frame(&["SCAN_WIFI", "1"])), Command::Discard(Discarded::UnknownCommand)));
}

#[test]
fn status_bytes() {
    assert_eq!(StatusCode::Success.byte(), 0);
    assert_eq!(StatusCode::WrongCredential.byte(), 1);
    assert_eq!(StatusCode::Unknown.byte(), 255);
}

#[test]
fn scan_reply_bytes() {
    let reply = encode_reply("r1", StatusCode::Success, &vec!["Home".to_string(), "Cafe".to_string()]);
    assert_eq!(
        reply,
        vec![0x02, b'r', b'1', 0x01, 0x00, 0x04, b'H', b'o', b'm', b'e', 0x04, b'C', b'a', b'f', b'e']
    );
}

#[test]
fn reply_with_unknown_status_is_not_text() {
    let reply = encode_reply("x", StatusCode::Unknown, &vec![]);
    assert_eq!(reply, vec![0x01, b'x', 0x01, 0xff]);
    assert_eq!(parse_payload(&reply), None);
}

#[test]
fn wrong_password_classified() {
    assert_eq!(
        classify_connect_error("Error: Connection activation failed: Secrets were required, but not provided (password)"),
        StatusCode::WrongCredential
    );
    assert_eq!(classify_connect_error("password"), StatusCode::WrongCredential);
    assert_eq!(classify_connect_error("no network with SSID found"), StatusCode::Unknown);
    assert_eq!(classify_connect_error("Password"), StatusCode::Unknown);
    assert_eq!(classify_connect_error(""), StatusCode::Unknown);
}

#[test]
fn join_failure_replies_with_status() {
    match on_join_result("5", &Err("bad password given".to_string())) {
        JoinStep::Reply(bytes) => assert_eq!(fields(&bytes), vec![b"5".to_vec(), vec![1]]),
        other => panic!("unexpected {:?}", other),
    }
    match on_join_result("5", &Err("timeout".to_string())) {
        JoinStep::Reply(bytes) => assert_eq!(fields(&bytes), vec![b"5".to_vec(), vec![255]]),
        other => panic!("unexpected {:?}", other),
    }
}

#[test]
fn join_success_fetches_topic() {
    assert!(matches!(on_join_result("5", &Ok(())), JoinStep::FetchTopic));
}

#[test]
fn topic_reply() {
    let reply = on_topic_result("5", &Some("topic-abc".to_string())).unwrap();
    assert_eq!(fields(&reply), vec![b"5".to_vec(), vec![0], b"topic-abc".to_vec()]);
    assert_eq!(on_topic_result("5", &None), None);
}
