use chat_relay::codec::{decode, FrameError, FRAME_LEN};
use chat_relay::conn::{classify_line, step, ConnEffect, ConnEvent, LineAction, Phase};
use chat_relay::registry::Registry;

#[test]
fn registry_issues_fresh_ids_in_order() {
    let mut reg = Registry::new();
    assert_eq!(reg.register(), 0);
    assert_eq!(reg.register(), 1);
    assert_eq!(reg.register(), 2);
}

#[test]
fn broadcast_targets_every_peer_once() {
    let mut reg = Registry::new();
    let a = reg.register();
    let b = reg.register();
    let c = reg.register();
    let plan = reg.broadcast_pass("hi").unwrap();
    assert_eq!(plan.targets, vec![a, b, c]);
    assert_eq!(decode(&plan.frame).unwrap(), "hi");
}

#[test]
fn sender_is_among_broadcast_targets() {
    let mut reg = Registry::new();
    let sender = reg.register();
    reg.register();
    let plan = reg.broadcast_pass("hello").unwrap();
    assert_eq!(plan.targets.iter().filter(|&&t| t == sender).count(), 1);
}

#[test]
fn failed_write_evicts_peer_from_next_pass() {
    let mut reg = Registry::new();
    let a = reg.register();
    let b = reg.register();
    let first = reg.broadcast_pass("ping").unwrap();
    assert_eq!(first.targets, vec![a, b]);
    reg.apply_write_results(&vec![true, false]);
    let second = reg.broadcast_pass("pong").unwrap();
    assert_eq!(second.targets, vec![a]);
    assert_eq!(decode(&second.frame).unwrap(), "pong");
}

#[test]
fn surviving_peers_keep_their_order() {
    let mut reg = Registry::new();
    let ids: Vec<u64> = (0..4).map(|_| reg.register()).collect();
    reg.apply_write_results(&vec![false, true, false, true]);
    let plan = reg.broadcast_pass("m").unwrap();
    assert_eq!(plan.targets, vec![ids[1], ids[3]]);
}

#[test]
fn broadcast_of_overlong_message_is_rejected() {
    let mut reg = Registry::new();
    reg.register();
    let long = "y".repeat(FRAME_LEN + 8);
    assert!(matches!(reg.broadcast_pass(&long), Err(FrameError::FrameTooLong)));
    assert!(reg.broadcast_pass("short").is_ok());
}

#[test]
fn quit_sentinel_ends_the_client() {
    assert!(matches!(classify_line(String::from(":quit")), LineAction::Quit));
}

#[test]
fn ordinary_line_is_sent_unchanged() {
    match classify_line(String::from("hello there")) {
        LineAction::Send(m) => assert_eq!(m, "hello there"),
        LineAction::Quit => panic!("ordinary line classified as quit"),
    }
}

#[test]
fn near_sentinel_lines_are_sent() {
    assert!(matches!(classify_line(String::from(":quit ")), LineAction::Send(_)));
    assert!(matches!(classify_line(String::from("quit")), LineAction::Send(_)));
    assert!(matches!(classify_line(String::from("")), LineAction::Send(_)));
}

#[test]
fn connect_opens_the_connection() {
    let (phase, effect) = step(Phase::Connecting, ConnEvent::Connected);
    assert_eq!(phase, Phase::Open);
    assert!(matches!(effect, ConnEffect::NoEffect));
}

#[test]
fn arriving_frame_is_delivered_while_open() {
    let mut frame = vec![0u8; FRAME_LEN];
    frame[..5].copy_from_slice(&[0x68, 0x65, 0x6c, 0x6c, 0x6f]);
    let (phase, effect) = step(Phase::Open, ConnEvent::FrameArrived(frame));
    assert_eq!(phase, Phase::Open);
    match effect {
        ConnEffect::Deliver(s) => assert_eq!(s, "hello"),
        other => panic!("expected a delivery, got {:?}", other),
    }
}

#[test]
fn undecodable_frame_closes_the_connection() {
    let mut frame = vec![0u8; FRAME_LEN];
    frame[0] = 0xff;
    frame[1] = 0xfe;
    let (phase, effect) = step(Phase::Open, ConnEvent::FrameArrived(frame));
    assert_eq!(phase, Phase::Closed);
    assert!(matches!(effect, ConnEffect::Reject(FrameError::BadEncoding)));
}

#[test]
fn would_block_is_tolerated() {
    let (phase, effect) = step(Phase::Open, ConnEvent::Paused);
    assert_eq!(phase, Phase::Open);
    assert!(matches!(effect, ConnEffect::NoEffect));
}

#[test]
fn io_failure_closes_the_connection() {
    let (phase, _) = step(Phase::Open, ConnEvent::IoFailed);
    assert_eq!(phase, Phase::Closed);
}

#[test]
fn quit_closes_an_open_connection() {
    let (phase, effect) = step(Phase::Open, ConnEvent::QuitEntered);
    assert_eq!(phase, Phase::Closed);
    assert!(matches!(effect, ConnEffect::NoEffect));
}

#[test]
fn closed_is_terminal() {
    let (phase, effect) = step(Phase::Closed, ConnEvent::Connected);
    assert_eq!(phase, Phase::Closed);
    assert!(matches!(effect, ConnEffect::NoEffect));
    let (phase, _) = step(Phase::Closed, ConnEvent::FrameSent);
    assert_eq!(phase, Phase::Closed);
}
