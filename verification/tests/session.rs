use std::collections::HashMap;

use etr::protocol::StreamType;
use etr::session::stream::MAX_HISTORY_BYTES;
use etr::session::{SessionState, StreamLifecycle, StreamState};

fn make_state() -> SessionState {
    SessionState::new([0u8; 16], "passkey".to_string())
}

fn make_stream() -> StreamState {
    let mut s = StreamState::new(0, StreamType::Terminal);
    s.max_history = 4;
    s
}

#[test]
fn test_stream_zero_exists() {
    let s = make_state();
    assert!(s.stream(0).is_some());
    assert_eq!(s.stream(0).unwrap().stream_type, StreamType::Terminal);
}

#[test]
fn test_open_and_close_stream() {
    let mut s = make_state();
    s.open_stream(1, StreamType::PortForward);
    assert!(s.stream(1).is_some());
    s.close_stream(1);
    assert_eq!(s.stream(1).unwrap().lifecycle, StreamLifecycle::Closed);
}

#[test]
fn test_last_received_map() {
    let mut s = make_state();
    s.stream_mut(0).unwrap().next_in_seq = 6; // received up to seq 5
    let map = s.last_received_map();
    assert_eq!(map[&0], 5);
}

#[test]
fn test_collect_replays() {
    let mut s = make_state();
    let st = s.stream_mut(0).unwrap();
    st.record_send(1, b"a".to_vec());
    st.record_send(2, b"b".to_vec());
    st.record_send(3, b"c".to_vec());

    let peer_acks = [(0u32, 1u64)].into();
    let replays = s.collect_replays(&peer_acks);
    let stream0 = &replays[&0];
    assert_eq!(stream0.len(), 2);
    assert_eq!(stream0[0].0, 2);
    assert_eq!(stream0[1].0, 3);
}

#[test]
fn test_close_stream_nonexistent_noop() {
    let mut s = make_state();
    s.close_stream(99);
    assert!(s.stream(99).is_none());
}

#[test]
fn test_apply_server_acks_unknown_stream_ignored() {
    let mut s = make_state();
    let acks = [(5u32, 100u64)].into();
    s.apply_server_acks(&acks);
    assert!(s.stream(5).is_none());
}

#[test]
fn test_last_received_map_nothing_received() {
    let s = make_state();
    let map = s.last_received_map();
    assert_eq!(map[&0], 0);
}

#[test]
fn test_last_received_map_after_receive() {
    let mut s = make_state();
    s.stream_mut(0).unwrap().next_in_seq = 4;
    let map = s.last_received_map();
    assert_eq!(map[&0], 3);
}

#[test]
fn test_collect_replays_empty_peer_map_returns_all() {
    let mut s = make_state();
    let st = s.stream_mut(0).unwrap();
    st.record_send(1, b"x".to_vec());
    st.record_send(2, b"y".to_vec());

    let replays = s.collect_replays(&HashMap::new());
    let r = &replays[&0];
    assert_eq!(r.len(), 2);
    assert_eq!(r[0].0, 1);
    assert_eq!(r[1].0, 2);
}

#[test]
fn test_collect_replays_empty_history_omitted() {
    let s = make_state();
    let replays = s.collect_replays(&HashMap::new());
    assert!(replays.is_empty());
}

#[test]
fn test_stream_unknown_returns_none() {
    let s = make_state();
    assert!(s.stream(42).is_none());
}

#[test]
fn test_open_stream_idempotent() {
    let mut s = make_state();
    s.open_stream(2, StreamType::PortForward);
    s.open_stream(2, StreamType::PortForward);
    assert!(s.streams.contains_key(&2));
    assert_eq!(s.streams.iter().filter(|(id, _)| **id == 2).count(), 1);
}

#[test]
fn test_record_and_evict() {
    let mut s = make_stream();
    for i in 1u64..=5 {
        s.record_send(i, vec![i as u8]);
    }
    // max_history=4, so seq 1 evicted
    assert_eq!(s.send_history.len(), 4);
    assert_eq!(s.send_history.front().unwrap().0, 2);
}

#[test]
fn test_acknowledge_trims_history() {
    let mut s = make_stream();
    for i in 1u64..=4 {
        s.record_send(i, vec![i as u8]);
    }
    s.acknowledge_up_to(2);
    assert_eq!(s.send_history.len(), 2);
    assert_eq!(s.send_history.front().unwrap().0, 3);
}

#[test]
fn test_replay_from() {
    let mut s = make_stream();
    for i in 1u64..=4 {
        s.record_send(i, vec![i as u8]);
    }
    let replays = s.replay_from(2);
    assert_eq!(replays.len(), 2);
    assert_eq!(replays[0].0, 3);
    assert_eq!(replays[1].0, 4);
}

#[test]
fn test_replay_from_zero_on_empty_history() {
    let s = make_stream();
    assert!(s.replay_from(0).is_empty());
}

#[test]
fn test_replay_from_zero_returns_all() {
    let mut s = make_stream();
    s.record_send(1, b"a".to_vec());
    s.record_send(2, b"b".to_vec());
    let replays = s.replay_from(0);
    assert_eq!(replays.len(), 2);
}

#[test]
fn test_acknowledge_up_to_drains_all() {
    let mut s = make_stream();
    for i in 1u64..=4 {
        s.record_send(i, vec![i as u8]);
    }
    s.acknowledge_up_to(u64::MAX);
    assert!(s.send_history.is_empty());
}

#[test]
fn test_acknowledge_up_to_empty_history_noop() {
    let mut s = make_stream();
    s.acknowledge_up_to(100); // should not panic
    assert!(s.send_history.is_empty());
}

#[test]
fn test_acknowledge_up_to_past_end_noop() {
    let mut s = make_stream();
    s.record_send(1, b"x".to_vec());
    s.acknowledge_up_to(0); // nothing to trim
    assert_eq!(s.send_history.len(), 1);
}

#[test]
fn test_initial_seq_numbers() {
    let s = StreamState::new(0, StreamType::Terminal);
    assert_eq!(s.next_out_seq, 1);
    assert_eq!(s.next_in_seq, 1);
    assert_eq!(s.lifecycle, StreamLifecycle::Open);
}

#[test]
fn history_is_capped_by_bytes() {
    let mut s = StreamState::new(0, StreamType::Terminal);
    let big = vec![0u8; MAX_HISTORY_BYTES / 2];
    s.record_send(1, big.clone());
    s.record_send(2, big.clone());
    assert_eq!(s.send_history.len(), 2);
    s.record_send(3, vec![1]);
    let kept: Vec<u64> = s.send_history.iter().map(|e| e.0).collect();
    assert_eq!(kept, vec![2, 3]);
    s.record_send(4, vec![0u8; MAX_HISTORY_BYTES + 1]);
    assert!(s.send_history.is_empty());
}

#[test]
fn sending_numbers_payloads_one_after_the_other() {
    let mut s = make_state();
    assert_eq!(s.send_terminal(b"a"), 1);
    assert_eq!(s.send_terminal(b"b"), 2);
    assert_eq!(s.stream(0).unwrap().next_out_seq, 3);
    let replays = s.stream(0).unwrap().replay_from(1);
    assert_eq!(replays, vec![(2, b"b".to_vec())]);
}

#[test]
fn the_highest_number_received_counts() {
    let mut s = make_state();
    s.terminal_received(5);
    s.terminal_received(3);
    assert_eq!(s.last_received_map()[&0], 5);
}

#[test]
fn acknowledging_loses_nothing_that_is_missing() {
    let mut s = make_state();
    for b in [b"a", b"b", b"c"] {
        s.send_terminal(b);
    }
    let peer: HashMap<u32, u64> = [(0, 2)].into();
    let before = s.collect_replays(&peer);
    s.apply_server_acks(&peer);
    assert_eq!(s.stream(0).unwrap().send_history.len(), 1);
    assert_eq!(s.collect_replays(&peer), before);
    assert_eq!(s.resume(&peer), vec![(3, b"c".to_vec())]);
    assert!(s.resume(&[(0, 3)].into()).is_empty());
}

#[test]
fn a_replay_leaves_no_gap_and_repeats_nothing() {
    let mut sender = StreamState::new(0, StreamType::Terminal);
    let mut receiver = StreamState::new(0, StreamType::Terminal);
    for b in 0..5u8 {
        sender.send(&[b]);
    }
    receiver.note_received(1);
    receiver.note_received(2);
    sender.acknowledge_up_to(1);
    let replay = sender.replay_from(receiver.next_in_seq - 1);
    assert_eq!(replay, vec![(3, vec![2]), (4, vec![3]), (5, vec![4])]);
    for (seq, _) in &replay {
        receiver.note_received(*seq);
    }
    assert_eq!(receiver.next_in_seq, sender.next_out_seq);
    assert!(sender.replay_from(receiver.next_in_seq - 1).is_empty());
}
