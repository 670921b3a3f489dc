use rabbit_warren::error::RabbitError;
use rabbit_warren::ack::AckManager;
use rabbit_warren::frame::Frame;
use rabbit_warren::lane_manager::LaneManager;
use rabbit_warren::reliability::ReliabilityManager;
use rabbit_warren::txn::TxnCounter;

fn ack_frame(lane: &str, seq: &str) -> Frame {
    let mut f = Frame::new("ACK");
    f.set_header("Lane", lane);
    f.set_header("ACK", seq);
    f
}

#[test]
fn ack_frame_acknowledges_and_stops_retransmission() {
    let mut lanes = LaneManager::new();
    let mut rel = ReliabilityManager::new(100, 3);
    let seq = lanes.next_seq(1).unwrap();
    rel.track_frame(1, seq, "data".to_string(), 0);
    let ack = AckManager::new();
    let out = ack.handle_control_frame(&mut lanes, &mut rel, &ack_frame("1", "1"));
    assert!(out.is_empty());
    assert_eq!(lanes.lane(1).acks, 1);
    assert!(rel.pending_frames().is_empty());
}

#[test]
fn ack_twice_is_ack_once() {
    let mut lanes = LaneManager::new();
    let mut rel = ReliabilityManager::new(100, 3);
    for _ in 0..3 {
        let s = lanes.next_seq(2).unwrap();
        rel.track_frame(2, s, format!("d{}", s), 0);
    }
    let ack = AckManager::new();
    let f = ack_frame("2", "2");
    ack.handle_control_frame(&mut lanes, &mut rel, &f);
    let acks_once = lanes.lane(2).acks;
    let pending_once: Vec<(u16, u64)> = rel.pending_frames().iter().map(|p| (p.lane, p.seq)).collect();
    ack.handle_control_frame(&mut lanes, &mut rel, &f);
    assert_eq!(lanes.lane(2).acks, acks_once);
    let pending_twice: Vec<(u16, u64)> = rel.pending_frames().iter().map(|p| (p.lane, p.seq)).collect();
    assert_eq!(pending_once, pending_twice);
    assert_eq!(pending_twice, vec![(2, 1), (2, 3)]);
}

#[test]
fn invalid_numbers_in_control_frames() {
    let mut lanes = LaneManager::new();
    let mut rel = ReliabilityManager::new(100, 3);
    rel.track_frame(0, 5, "x".to_string(), 0);
    let ack = AckManager::new();
    let out = ack.handle_control_frame(&mut lanes, &mut rel, &ack_frame("zz", "nope"));
    assert!(out.is_empty());
    assert_eq!(rel.pending_frames().len(), 1);
    let mut credit = Frame::new("CREDIT");
    credit.set_header("Lane", "3");
    credit.set_header("Credit", "lots");
    assert!(ack.handle_control_frame(&mut lanes, &mut rel, &credit).is_empty());
    assert_eq!(lanes.lane(3).credits, 16);
    let mut credit2 = Frame::new("CREDIT");
    credit2.set_header("Lane", "3");
    credit2.set_header("Credit", "++4");
    ack.handle_control_frame(&mut lanes, &mut rel, &credit2);
    assert_eq!(lanes.lane(3).credits, 20);
    let other = Frame::new("FETCH");
    assert!(ack.handle_control_frame(&mut lanes, &mut rel, &other).is_empty());
}

#[test]
fn outbound_control_frames() {
    let ack = AckManager::new();
    assert_eq!(ack.send_ack(4, 17), "ACK\r\nLane: 4\r\nACK: 17\r\nEnd:\r\n");
    assert_eq!(ack.send_credit(4, 3), "CREDIT\r\nLane: 4\r\nCredit: +3\r\nEnd:\r\n");
    let parsed = Frame::parse(&ack.send_ack(4, 17)).unwrap();
    assert_eq!(parsed.header("ACK"), Some(&"17".to_string()));
}

#[test]
fn retransmission_schedule() {
    let mut rel = ReliabilityManager::new(100, 3);
    rel.track_frame(1, 7, "frame-7".to_string(), 0);
    assert!(rel.resend_due(50).is_empty());
    assert_eq!(rel.resend_due(100), vec!["frame-7".to_string()]);
    assert_eq!(rel.resend_due(150), Vec::<String>::new());
    assert_eq!(rel.resend_due(200), vec!["frame-7".to_string()]);
    assert!(rel.resend_due(300).is_empty());
    assert!(rel.resend_due(1000).is_empty());
    assert_eq!(rel.exhausted(), vec![(1, 7)]);
    assert_eq!(rel.pending_frames()[0].attempts, 3);
}

#[test]
fn confirm_before_retry_suppresses_resends() {
    let mut rel = ReliabilityManager::new(100, 3);
    rel.track_frame(1, 7, "frame-7".to_string(), 0);
    rel.confirm_ack(1, 7);
    assert!(rel.resend_due(100).is_empty());
    assert!(rel.resend_due(200).is_empty());
    assert!(rel.exhausted().is_empty());
}

#[test]
fn tracking_same_key_replaces_entry() {
    let mut rel = ReliabilityManager::new(10, 5);
    rel.track_frame(1, 1, "old".to_string(), 0);
    rel.track_frame(1, 1, "new".to_string(), 5);
    assert_eq!(rel.pending_frames().len(), 1);
    assert_eq!(rel.resend_due(15), vec!["new".to_string()]);
}

#[test]
fn transaction_ids_count_up() {
    let mut c = TxnCounter::new();
    assert_eq!(c.next(), "T-1");
    assert_eq!(c.next(), "T-2");
    assert_eq!(c.next(), "T-3");
}

#[test]
fn status_lines_name_each_failure() {
    let all = [
        (RabbitError::MalformedFrame, "400 MalformedFrame"),
        (RabbitError::UnsupportedScheme, "400 UnsupportedScheme"),
        (RabbitError::Unauthorised, "401 Unauthorised"),
        (RabbitError::MissingField, "400 MissingField"),
        (RabbitError::Forbidden, "403 Forbidden"),
        (RabbitError::FingerprintMismatch, "403 FingerprintMismatch"),
        (RabbitError::SignatureInvalid, "403 SignatureInvalid"),
        (RabbitError::ManifestMalformed, "400 ManifestMalformed"),
        (RabbitError::SessionUnknown, "401 SessionUnknown"),
        (RabbitError::RetryExhausted, "504 RetryExhausted"),
        (RabbitError::PersistenceIO, "500 PersistenceIO"),
    ];
    for (e, line) in all.iter() {
        assert_eq!(e.status_line(), *line);
    }
}
