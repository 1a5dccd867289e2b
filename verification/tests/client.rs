use simple_p2p::classify_tap_frame;
use simple_p2p::clear_receiver;
use simple_p2p::keepalive_step;
use simple_p2p::phase_step;
use simple_p2p::register_step;
use simple_p2p::ClientEvent;
use simple_p2p::ClientPhase;
use simple_p2p::ClientPhaseEvent;
use simple_p2p::Ipv4Address;
use simple_p2p::KeepaliveStep;
use simple_p2p::MacAddress;
use simple_p2p::Message;
use simple_p2p::RegisterResult;
use simple_p2p::RegisterStep;
use simple_p2p::TapFrameAction;

fn mac(last: u8) -> MacAddress {
    MacAddress { b0: 0xAA, b1: 0xAA, b2: 0xAA, b3: 0xAA, b4: 0xAA, b5: last }
}

fn ip(a: u8, b: u8, c: u8, d: u8) -> Ipv4Address {
    Ipv4Address { a, b, c, d }
}

#[test]
fn dispatch_data_writes_to_tap() {
    let event = simple_p2p::client::handle_message(Message::Data { ethernet_frame: vec![1, 2, 3] });
    match event {
        ClientEvent::WriteTap { ethernet_frame } => assert_eq!(ethernet_frame, vec![1, 2, 3]),
        _ => panic!("expected WriteTap"),
    }
}

#[test]
fn dispatch_register_results_signal_the_coordinator() {
    let event = simple_p2p::client::handle_message(Message::RegisterSuccess {
        ip: ip(10, 123, 123, 5),
        subnet_mask: ip(255, 255, 255, 0),
    });
    match event {
        ClientEvent::RegisterSignal { result: RegisterResult::Success { ip: i, subnet_mask } } => {
            assert_eq!(i, ip(10, 123, 123, 5));
            assert_eq!(subnet_mask, ip(255, 255, 255, 0));
        }
        _ => panic!("expected RegisterSignal with Success"),
    }
    let event = simple_p2p::client::handle_message(Message::RegisterFail {
        reason: String::from("No available ip left"),
    });
    match event {
        ClientEvent::RegisterSignal { result: RegisterResult::Fail { reason } } => {
            assert_eq!(reason, "No available ip left");
        }
        _ => panic!("expected RegisterSignal with Fail"),
    }
}

#[test]
fn dispatch_pong_signals_keepalive() {
    assert!(matches!(
        simple_p2p::client::handle_message(Message::Pong),
        ClientEvent::PongSignal
    ));
}

#[test]
fn dispatch_ignores_unexpected_variants() {
    assert!(matches!(
        simple_p2p::client::handle_message(Message::Register { mac_address: mac(1) }),
        ClientEvent::Ignore
    ));
    assert!(matches!(
        simple_p2p::client::handle_message(Message::Ping),
        ClientEvent::Ignore
    ));
}

#[test]
fn tap_reader_skips_eleven_byte_frame() {
    assert!(matches!(
        classify_tap_frame(&[0u8; 11], mac(1)),
        TapFrameAction::SkipInvalid
    ));
}

#[test]
fn tap_reader_skips_foreign_source() {
    let mut frame = vec![0u8; 64];
    // Source MAC (bytes 6..12) differs from the device's own.
    frame[6..12].copy_from_slice(&[0xAA, 0xAA, 0xAA, 0xAA, 0xAA, 0x02]);
    assert!(matches!(
        classify_tap_frame(&frame, mac(1)),
        TapFrameAction::SkipForeign
    ));
}

#[test]
fn tap_reader_relays_own_frames_unchanged() {
    let mut frame = vec![0u8; 64];
    frame[0..6].copy_from_slice(&[0xFF; 6]);
    frame[6..12].copy_from_slice(&[0xAA, 0xAA, 0xAA, 0xAA, 0xAA, 0x01]);
    match classify_tap_frame(&frame, mac(1)) {
        TapFrameAction::Send { message: Message::Data { ethernet_frame } } => {
            assert_eq!(ethernet_frame, frame);
        }
        _ => panic!("expected Send with the same frame"),
    }
}

#[test]
fn register_step_honours_results() {
    let step = register_step(
        0,
        Some(RegisterResult::Success { ip: ip(10, 123, 123, 5), subnet_mask: ip(255, 255, 255, 0) }),
    );
    match step {
        RegisterStep::Configure { ip: i, subnet_mask } => {
            assert_eq!(i, ip(10, 123, 123, 5));
            assert_eq!(subnet_mask, ip(255, 255, 255, 0));
        }
        _ => panic!("expected Configure"),
    }
    // A refusal is surfaced and never retried.
    match register_step(0, Some(RegisterResult::Fail { reason: String::from("full") })) {
        RegisterStep::Refused { reason } => assert_eq!(reason, "full"),
        _ => panic!("expected Refused"),
    }
    // A result that arrives after the window still counts.
    assert!(matches!(
        register_step(
            20,
            Some(RegisterResult::Success {
                ip: ip(10, 123, 123, 5),
                subnet_mask: ip(255, 255, 255, 0)
            })
        ),
        RegisterStep::Configure { .. }
    ));
}

#[test]
fn register_step_retries_inside_window_and_times_out_after() {
    assert!(matches!(register_step(0, None), RegisterStep::Retry));
    assert!(matches!(register_step(14, None), RegisterStep::Retry));
    match register_step(15, None) {
        RegisterStep::TimedOut { reason } => assert_eq!(reason, "Timeout"),
        _ => panic!("expected TimedOut"),
    }
}

#[test]
fn keepalive_step_decides_each_round() {
    assert_eq!(keepalive_step(0, true), KeepaliveStep::Alive);
    assert_eq!(keepalive_step(0, false), KeepaliveStep::SendPing);
    assert_eq!(keepalive_step(14, false), KeepaliveStep::SendPing);
    assert_eq!(keepalive_step(15, false), KeepaliveStep::Lost);
}

#[test]
fn clear_receiver_drains_pending_signals() {
    let mut queue: Vec<RegisterResult> = vec![
        RegisterResult::Fail { reason: String::from("stale") },
        RegisterResult::Fail { reason: String::from("stale too") },
    ];
    clear_receiver(&mut queue);
    assert!(queue.is_empty());
}

#[test]
fn keepalive_recovery_re_registers_then_resumes_or_terminates() {
    // No pong within the window: the running session re-registers.
    let phase = phase_step(ClientPhase::Running, ClientPhaseEvent::PongWindowExhausted);
    assert_eq!(phase, ClientPhase::ReRegistering);
    // Recovery succeeds: relay resumes.
    assert_eq!(
        phase_step(phase, ClientPhaseEvent::RegisterOutcomeOk),
        ClientPhase::Running
    );
    // Recovery fails: the process terminates with the reason.
    assert_eq!(
        phase_step(phase, ClientPhaseEvent::RegisterOutcomeFail),
        ClientPhase::Terminated
    );
}

#[test]
fn initial_registration_outcome_decides_the_session() {
    assert_eq!(
        phase_step(ClientPhase::Registering, ClientPhaseEvent::RegisterOutcomeOk),
        ClientPhase::Running
    );
    assert_eq!(
        phase_step(ClientPhase::Registering, ClientPhaseEvent::RegisterOutcomeFail),
        ClientPhase::Terminated
    );
}

#[test]
fn pong_keeps_the_session_running() {
    assert_eq!(
        phase_step(ClientPhase::Running, ClientPhaseEvent::PongReceived),
        ClientPhase::Running
    );
}
