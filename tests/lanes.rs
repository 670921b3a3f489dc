use rabbit_warren::ack::AckManager;
use rabbit_warren::frame::Frame;
use rabbit_warren::lane::{Arrival, Lane};
use rabbit_warren::lane_manager::LaneManager;
use rabbit_warren::reliability::ReliabilityManager;

#[test]
fn next_seq_counts_from_one() {
    let mut lane = Lane::new(3);
    let got: Vec<u64> = (0..5).map(|_| lane.next_seq()).collect();
    assert_eq!(got, vec![1, 2, 3, 4, 5]);
    assert_eq!(lane.next_seq_out, 6);
}

#[test]
fn ack_moves_only_forward_and_within_sent() {
    let mut lane = Lane::new(1);
    lane.next_seq();
    lane.next_seq();
    lane.next_seq();
    lane.ack(2);
    assert_eq!(lane.acks, 2);
    lane.ack(1);
    assert_eq!(lane.acks, 2);
    lane.ack(2);
    assert_eq!(lane.acks, 2);
    lane.ack(9);
    assert_eq!(lane.acks, 2);
    lane.ack(3);
    assert_eq!(lane.acks, 3);
}

#[test]
fn try_send_uses_credit_then_queues() {
    let mut lane = Lane::new(7);
    for i in 0..16 {
        assert_eq!(lane.try_send(format!("m{}", i)), Some(format!("m{}", i)));
    }
    assert_eq!(lane.credits, 0);
    assert_eq!(lane.try_send("late".to_string()), None);
    assert_eq!(lane.pending_out.len(), 1);
    lane.add_credit(5);
    assert_eq!(lane.flush_pending(), vec!["late".to_string()]);
    assert_eq!(lane.credits, 4);
    assert!(lane.flush_pending().is_empty());
}

#[test]
fn credit_conservation_example() {
    let mut lane = Lane::new(2);
    let mut used = 0u32;
    for i in 0..20 {
        if lane.try_send(format!("f{}", i)).is_some() {
            used += 1;
        }
    }
    lane.add_credit(2);
    used += lane.flush_pending().len() as u32;
    lane.add_credit(10);
    used += lane.flush_pending().len() as u32;
    assert_eq!(lane.credits + used, 16 + 2 + 10);
    assert!(lane.pending_out.is_empty());
}

#[test]
fn receive_classifies_sequence_numbers() {
    let mut lane = Lane::new(1);
    assert_eq!(lane.receive(1), Arrival::InOrder);
    assert_eq!(lane.expected_seq_in, 2);
    assert_eq!(lane.receive(1), Arrival::Duplicate);
    assert_eq!(lane.receive(5), Arrival::Ahead);
    assert_eq!(lane.expected_seq_in, 2);
}

#[test]
fn credit_blocks_then_flushes() {
    let mut lanes = LaneManager::new();
    let mut reliability = ReliabilityManager::new(500, 5);
    for i in 1..=16 {
        assert!(lanes.send_or_queue(5, format!("frame-{}", i)).is_some());
    }
    assert_eq!(lanes.send_or_queue(5, "frame-17".to_string()), None);
    assert_eq!(lanes.send_or_queue(5, "frame-18".to_string()), None);
    assert_eq!(lanes.send_or_queue(5, "frame-19".to_string()), None);
    assert_eq!(lanes.send_or_queue(5, "frame-20".to_string()), None);
    let mut credit = Frame::new("CREDIT");
    credit.set_header("Lane", "5");
    credit.set_header("Credit", "+3");
    let ack = AckManager::new();
    let out = ack.handle_control_frame(&mut lanes, &mut reliability, &credit);
    assert_eq!(out, vec!["frame-17".to_string(), "frame-18".to_string(), "frame-19".to_string()]);
    let lane = lanes.lane(5);
    assert_eq!(lane.credits, 0);
    assert_eq!(lane.pending_out.len(), 1);
}

#[test]
fn lane_manager_makes_lanes_on_first_use() {
    let mut lanes = LaneManager::new();
    assert_eq!(lanes.next_seq(9), Some(1));
    assert_eq!(lanes.next_seq(9), Some(2));
    assert_eq!(lanes.lane(9).next_seq_out, 3);
    assert_eq!(lanes.lane(4).credits, 16);
    lanes.ack(77, 1);
    assert_eq!(lanes.lane(9).acks, 0);
    lanes.ack(9, 2);
    assert_eq!(lanes.lane(9).acks, 2);
    assert_eq!(lanes.receive(9, 1), Arrival::InOrder);
}

#[test]
fn credit_beyond_window_is_capped() {
    let mut lanes = LaneManager::new();
    assert!(lanes.add_credit(1, u32::MAX).is_empty());
    assert_eq!(lanes.lane(1).credits, u32::MAX);
}
