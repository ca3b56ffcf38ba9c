use feral_setupd::signal::{
    ack_member, is_addressed, listen_step, match_rule, AckReceiver, AckSender, Heard, ListenAction,
    ReceiveAction, SendAction, SignalError, DBUS_ACK_TIMEOUT_MS, DBUS_MAX_RETRIES,
};

fn signal(path: &str, member: &str) -> Heard {
    Heard::Signal { path: Some(path.to_string()), member: Some(member.to_string()) }
}

#[test]
fn ack_member_name() {
    assert_eq!(ack_member("wifi_connected"), "wifi_connected_ack");
}

#[test]
fn match_rule_text() {
    assert_eq!(
        match_rule("com.x.general", "ev", "/com/x"),
        "type='signal',interface='com.x.general',member='ev',path='/com/x'"
    );
}

#[test]
fn addressing_needs_path_and_member() {
    let p = "/a".to_string();
    let m = "ev".to_string();
    assert!(is_addressed(&signal("/a", "ev"), &p, &m));
    assert!(!is_addressed(&signal("/b", "ev"), &p, &m));
    assert!(!is_addressed(&signal("/a", "other"), &p, &m));
    assert!(!is_addressed(&Heard::Signal { path: None, member: Some("ev".to_string()) }, &p, &m));
    assert!(!is_addressed(&Heard::Nothing, &p, &m));
}

#[test]
fn sender_without_ack_gives_up_after_budget() {
    let mut s = AckSender::new("/a", "ev", DBUS_MAX_RETRIES, DBUS_ACK_TIMEOUT_MS);
    let mut now = 0u64;
    let mut emits = 0u64;
    let mut emit_times = Vec::new();
    let mut action = s.on_event(&Heard::Nothing, now);
    loop {
        match action {
            SendAction::Emit { wait_ms } => {
                emits += 1;
                emit_times.push(now);
                assert_eq!(wait_ms, DBUS_ACK_TIMEOUT_MS);
                now += wait_ms;
            }
            SendAction::Wait { wait_ms } => now += wait_ms,
            SendAction::Fail(e) => {
                assert_eq!(e, SignalError::AckTimeout);
                break;
            }
            SendAction::Acked => panic!("no ack was sent"),
        }
        action = s.on_event(&Heard::Nothing, now);
    }
    assert_eq!(emits, DBUS_MAX_RETRIES);
    for w in emit_times.windows(2) {
        assert_eq!(w[1] - w[0], DBUS_ACK_TIMEOUT_MS);
    }
}

#[test]
fn sender_succeeds_on_ack() {
    let mut s = AckSender::new("/a", "ev", 3, 100);
    assert_eq!(s.on_event(&Heard::Nothing, 0), SendAction::Emit { wait_ms: 100 });
    assert_eq!(s.on_event(&signal("/a", "ev"), 10), SendAction::Wait { wait_ms: 90 });
    assert_eq!(s.on_event(&signal("/b", "ev_ack"), 20), SendAction::Wait { wait_ms: 80 });
    assert_eq!(s.on_event(&signal("/a", "ev_ack"), 30), SendAction::Acked);
    assert_eq!(s.on_event(&Heard::Nothing, 40), SendAction::Acked);
}

#[test]
fn sender_with_no_budget_fails_at_once() {
    let mut s = AckSender::new("/a", "ev", 0, 100);
    assert_eq!(s.on_event(&Heard::Nothing, 0), SendAction::Fail(SignalError::AckTimeout));
}

#[test]
fn receiver_acks_once() {
    let mut r = AckReceiver::new("/a", "ev", 1_000, 500);
    assert_eq!(r.on_event(&signal("/b", "ev"), 1_100), ReceiveAction::Wait { wait_ms: 400 });
    assert_eq!(r.on_event(&Heard::Nothing, 1_200), ReceiveAction::Wait { wait_ms: 300 });
    assert_eq!(r.on_event(&signal("/a", "ev"), 1_300), ReceiveAction::Ack);
    assert_eq!(r.on_event(&signal("/a", "ev"), 1_350), ReceiveAction::Finished);
}

#[test]
fn receiver_times_out() {
    let mut r = AckReceiver::new("/a", "ev", 0, 500);
    assert_eq!(r.on_event(&Heard::Nothing, 500), ReceiveAction::Fail(SignalError::ReceiveTimeout));
    assert_eq!(r.on_event(&signal("/a", "ev"), 600), ReceiveAction::Fail(SignalError::ReceiveTimeout));
}

#[test]
fn listener_steps() {
    let p = "/a".to_string();
    let m = "ev".to_string();
    assert_eq!(listen_step(true, &signal("/a", "ev"), &p, &m), ListenAction::Stop);
    assert_eq!(listen_step(false, &signal("/a", "ev"), &p, &m), ListenAction::Deliver);
    assert_eq!(listen_step(false, &Heard::Nothing, &p, &m), ListenAction::Idle);
}
