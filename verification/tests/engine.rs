use pass_token::state::Data;
use pass_token::state::Message;
use pass_token::state::Transmit;

fn make_ring(n: usize) -> Vec<Data> {
    let names: Vec<String> = (1..=n).map(|k| format!("p{}", k)).collect();
    names.iter().map(|name| Data::from_list(name, &names, 0).unwrap()).collect()
}

fn marker(from: usize, snapshot_id: u32, initiator: usize) -> Message {
    Message::Marker { from, snapshot_id, initiator }
}

/// Token circulation: p1 sends the initial token; after exactly N hops every
/// counter has grown by exactly one and only the process holding the token
/// has it set.
#[test]
fn token_circulation_three_hops() {
    let mut ps = make_ring(3);

    let t = ps[0].pass_token();
    assert_eq!(t, Transmit { to: 2, msg: Message::Token });
    assert!(!ps[0].has_token);

    // hop 1: p2 receives and forwards
    let out = ps[1].recv_message(Message::Token);
    assert!(out.is_empty());
    assert_eq!(ps[1].state, 1);
    assert!(ps[1].has_token);
    let t = ps[1].pass_token();
    assert_eq!(t, Transmit { to: 3, msg: Message::Token });
    assert!(!ps[1].has_token);

    // hop 2: p3 receives and forwards
    ps[2].recv_message(Message::Token);
    assert_eq!(ps[2].state, 1);
    let t = ps[2].pass_token();
    assert_eq!(t, Transmit { to: 1, msg: Message::Token });

    // hop 3: back at p1
    ps[0].recv_message(Message::Token);
    assert_eq!(ps[0].state, 1);

    for p in &ps {
        assert_eq!(p.state, 1);
    }
    assert!(ps[0].has_token);
    assert!(!ps[1].has_token);
    assert!(!ps[2].has_token);
}

/// The deterministic single full circuit: p1 sends, p2 and p3 each reach
/// state 1 and forward, and p1's counter becomes 1.
#[test]
fn single_circuit_is_deterministic() {
    for _ in 0..3 {
        let mut ps = make_ring(3);
        let t1 = ps[0].pass_token();
        assert_eq!(t1.to, 2);
        ps[1].recv_message(Message::Token);
        assert_eq!(ps[1].state, 1);
        let t2 = ps[1].pass_token();
        assert_eq!(t2.to, 3);
        ps[2].recv_message(Message::Token);
        assert_eq!(ps[2].state, 1);
        let t3 = ps[2].pass_token();
        assert_eq!(t3.to, 1);
        ps[0].recv_message(Message::Token);
        assert_eq!(ps[0].state, 1);
    }
}

/// Snapshot safety on a 3-process ring: process 1 initiates, the run
/// completes, every process records exactly one local state, and the
/// initiator observes all other processes converged before broadcasting the
/// reset.
#[test]
fn snapshot_runs_to_completion() {
    let mut ps = make_ring(3);
    let sid = 1u32;

    // p1 initiates: marker to every other peer
    assert!(ps[0].should_initiate(sid, 0));
    let out = ps[0].initiate_snapshot(sid);
    assert_eq!(
        out,
        vec![
            Transmit { to: 2, msg: marker(1, sid, 1) },
            Transmit { to: 3, msg: marker(1, sid, 1) },
        ]
    );
    assert_eq!(ps[0].snapshots.len(), 1);
    assert_eq!(ps[0].snapshots[0].recorded_local_state, 0);
    assert!(ps[0].snapshots[0].seen_marker);

    // first markers reach p2 and p3: both record and forward, once
    let out2 = ps[1].recv_message(marker(1, sid, 1));
    assert_eq!(
        out2,
        vec![
            Transmit { to: 1, msg: marker(2, sid, 1) },
            Transmit { to: 3, msg: marker(2, sid, 1) },
        ]
    );
    let out3 = ps[2].recv_message(marker(1, sid, 1));
    assert_eq!(
        out3,
        vec![
            Transmit { to: 1, msg: marker(3, sid, 1) },
            Transmit { to: 2, msg: marker(3, sid, 1) },
        ]
    );

    // forwarded markers reach the initiator: channels close, no reaction yet
    assert!(ps[0].recv_message(marker(2, sid, 1)).is_empty());
    assert!(ps[0].recv_message(marker(3, sid, 1)).is_empty());
    assert_eq!(ps[0].snapshots[0].closed_channels, vec![2, 3]);

    // cross markers reach p2 and p3: all their channels close, they report
    let acc2 = ps[1].recv_message(marker(3, sid, 1));
    assert_eq!(acc2, vec![Transmit { to: 1, msg: Message::AllChannelsClosed { from: 2 } }]);
    let acc3 = ps[2].recv_message(marker(2, sid, 1));
    assert_eq!(acc3, vec![Transmit { to: 1, msg: Message::AllChannelsClosed { from: 3 } }]);

    // exactly one recorded local state per process
    for p in &ps {
        assert_eq!(p.snapshots.len(), 1);
        assert_eq!(p.snapshots[0].recorded_local_state, 0);
    }

    // the initiator collects both reports; on the last one it has observed
    // n_peers - 1 converged processes and completes with a reset broadcast
    assert!(ps[0].recv_message(Message::AllChannelsClosed { from: 2 }).is_empty());
    assert_eq!(ps[0].converged_processes, vec![2]);
    let resets = ps[0].recv_message(Message::AllChannelsClosed { from: 3 });
    assert_eq!(
        resets,
        vec![
            Transmit { to: 2, msg: Message::ResetSnapshot },
            Transmit { to: 3, msg: Message::ResetSnapshot },
        ]
    );
    assert!(ps[0].snapshots.is_empty());
    assert!(ps[0].converged_processes.is_empty());

    // the reset reaches the others: all bookkeeping is gone everywhere
    assert!(ps[1].recv_message(Message::ResetSnapshot).is_empty());
    assert!(ps[2].recv_message(Message::ResetSnapshot).is_empty());
    for p in &ps {
        assert!(p.snapshots.is_empty());
        assert!(p.converged_processes.is_empty());
    }
}

/// Idempotence of marker forwarding: however many further markers of one
/// session arrive, a process that has seen one never re-broadcasts.
#[test]
fn marker_forwarding_is_idempotent() {
    let mut ps = make_ring(4);
    let sid = 9u32;

    let first = ps[1].recv_message(marker(1, sid, 1));
    assert_eq!(first.len(), 3);
    assert!(first.iter().all(|t| matches!(t.msg, Message::Marker { .. })));
    assert!(ps[1].snapshots[0].seen_marker);

    // a duplicate marker from the same peer and markers from others follow
    for from in [1usize, 3, 4, 3] {
        let out = ps[1].recv_message(marker(from, sid, 1));
        assert!(out.iter().all(|t| !matches!(t.msg, Message::Marker { .. })));
    }
}

/// A token that arrives on a still-open predecessor channel after the local
/// state was recorded is kept as an in-flight message of the snapshot; one
/// on a closed channel is not.
#[test]
fn in_flight_token_is_recorded_on_open_channel_only() {
    let mut ps = make_ring(3);
    let sid = 5u32;

    // p3 initiates; p2 first sees the marker from p3, so the channel from
    // its predecessor p1 stays open
    ps[2].initiate_snapshot(sid);
    ps[1].recv_message(marker(3, sid, 3));
    assert_eq!(ps[1].snapshots[0].closed_channels, vec![3]);
    assert_eq!(ps[1].snapshots[0].recorded_local_state, 0);

    // a token from p1 is still in flight for the snapshot
    ps[1].recv_message(Message::Token);
    assert_eq!(ps[1].state, 1);
    assert_eq!(ps[1].snapshots[0].channel_values, vec![Message::Token]);
    // the recorded state stays what it was at marker time
    assert_eq!(ps[1].snapshots[0].recorded_local_state, 0);

    // the marker from p1 closes that channel; a later token is not recorded
    ps[1].recv_message(marker(1, sid, 3));
    ps[1].recv_message(Message::Token);
    assert_eq!(ps[1].state, 2);
    assert_eq!(ps[1].snapshots[0].channel_values, vec![Message::Token]);
}

/// Tokens keep flowing while a snapshot is active.
#[test]
fn token_flow_is_not_blocked_by_snapshots() {
    let mut ps = make_ring(3);
    ps[1].recv_message(marker(1, 2, 1));
    ps[1].recv_message(Message::Token);
    assert!(ps[1].has_token);
    let t = ps[1].pass_token();
    assert_eq!(t, Transmit { to: 3, msg: Message::Token });
}

/// Reset scenario: after a completed snapshot and the reset broadcast, all
/// bookkeeping for the id is empty and the same id can be initiated again.
#[test]
fn same_id_can_be_reused_after_reset() {
    let mut ps = make_ring(2);
    let sid = 3u32;

    // run a 2-process snapshot to completion
    ps[0].initiate_snapshot(sid);
    let report = ps[1].recv_message(marker(1, sid, 1));
    // p2 forwards the marker and, its single channel closed, reports at once
    assert_eq!(
        report,
        vec![
            Transmit { to: 1, msg: marker(2, sid, 1) },
            Transmit { to: 1, msg: Message::AllChannelsClosed { from: 2 } },
        ]
    );
    assert!(ps[0].recv_message(marker(2, sid, 1)).is_empty());
    let resets = ps[0].recv_message(Message::AllChannelsClosed { from: 2 });
    assert_eq!(resets, vec![Transmit { to: 2, msg: Message::ResetSnapshot }]);
    ps[1].recv_message(Message::ResetSnapshot);

    for p in &ps {
        assert!(p.snapshots.is_empty());
        assert!(p.converged_processes.is_empty());
    }

    // the same id starts afresh
    assert!(ps[0].should_initiate(sid, 0));
    let again = ps[0].initiate_snapshot(sid);
    assert_eq!(again, vec![Transmit { to: 2, msg: marker(1, sid, 1) }]);
    assert_eq!(ps[0].snapshots.len(), 1);
    assert!(ps[0].snapshots[0].closed_channels.is_empty());
    assert!(ps[0].snapshots[0].channel_values.is_empty());
}

/// The snapshot trigger fires only at the configured counter value and only
/// while the id is not already tracked.
#[test]
fn snapshot_trigger() {
    let mut ps = make_ring(2);
    assert!(!ps[0].should_initiate(1, 2));
    ps[0].pass_token();
    ps[0].recv_message(Message::Token);
    ps[0].recv_message(Message::Token);
    assert_eq!(ps[0].state, 2);
    assert!(ps[0].should_initiate(1, 2));
    ps[0].initiate_snapshot(1);
    assert!(!ps[0].should_initiate(1, 2));
}

/// Message validity: senders must be other peers, initiators any peer.
#[test]
fn message_validity() {
    let ps = make_ring(3);
    let p2 = &ps[1];
    assert!(p2.msg_valid(&Message::Token));
    assert!(p2.msg_valid(&Message::ResetSnapshot));
    assert!(p2.msg_valid(&marker(1, 1, 3)));
    assert!(!p2.msg_valid(&marker(2, 1, 3))); // own id as sender
    assert!(!p2.msg_valid(&marker(0, 1, 3))); // ids are 1-based
    assert!(!p2.msg_valid(&marker(4, 1, 3))); // beyond the peer list
    assert!(!p2.msg_valid(&marker(1, 1, 0))); // initiator out of range
    assert!(p2.msg_valid(&Message::AllChannelsClosed { from: 3 }));
    assert!(!p2.msg_valid(&Message::AllChannelsClosed { from: 2 }));
}

/// Distinct snapshot ids are tracked as distinct concurrent sessions.
#[test]
fn concurrent_sessions_are_kept_apart() {
    let mut ps = make_ring(3);
    ps[1].recv_message(marker(1, 10, 1));
    ps[1].recv_message(marker(3, 20, 3));
    assert_eq!(ps[1].snapshots.len(), 2);
    assert_eq!(ps[1].snapshots[0].snapshot_id, 10);
    assert_eq!(ps[1].snapshots[0].closed_channels, vec![1]);
    assert_eq!(ps[1].snapshots[1].snapshot_id, 20);
    assert_eq!(ps[1].snapshots[1].closed_channels, vec![3]);
}

/// Three full circuits on a five-process ring: every counter ends at the
/// number of circuits and the token is back where it started.
#[test]
fn token_circulation_five_ring_three_rounds() {
    let mut ps = make_ring(5);
    let mut sender = 0usize;
    ps[sender].pass_token();
    for _ in 0..(5 * 3) {
        let next = ps[sender].successor - 1;
        ps[next].recv_message(Message::Token);
        ps[next].pass_token();
        sender = next;
    }
    for p in &ps {
        assert_eq!(p.state, 3);
        assert!(!p.has_token);
    }
    assert_eq!(sender, 0);
}

/// A token that is in flight across the snapshot cut ends up in exactly one
/// process's recorded channel messages.
#[test]
fn in_flight_token_crosses_the_cut_once() {
    let mut ps = make_ring(3);
    let sid = 8u32;

    // the token has left p3 for p1 but not yet arrived when p2 initiates
    ps[0].pass_token();
    ps[1].recv_message(Message::Token);
    ps[1].pass_token();
    ps[2].recv_message(Message::Token);
    ps[2].pass_token();

    ps[1].initiate_snapshot(sid);
    ps[0].recv_message(marker(2, sid, 2));
    ps[2].recv_message(marker(2, sid, 2));

    // the in-flight token reaches p1 on the still-open channel from p3
    ps[0].recv_message(Message::Token);
    assert_eq!(ps[0].snapshots[0].channel_values, vec![Message::Token]);
    // p1 recorded its state before that token arrived
    assert_eq!(ps[0].snapshots[0].recorded_local_state, 0);
    assert_eq!(ps[0].state, 1);

    // the forwarded markers close the remaining channels
    ps[0].recv_message(marker(3, sid, 2));
    ps[2].recv_message(marker(1, sid, 2));
    ps[1].recv_message(marker(1, sid, 2));
    ps[1].recv_message(marker(3, sid, 2));

    // the token crossed exactly one channel of the cut
    assert_eq!(ps[0].snapshots[0].channel_values.len(), 1);
    assert!(ps[1].snapshots[0].channel_values.is_empty());
    assert!(ps[2].snapshots[0].channel_values.is_empty());
}

/// Blank session bookkeeping starts with nothing seen, closed or recorded.
#[test]
fn default_session_is_blank() {
    let s = pass_token::state::ChandyLamport::default();
    assert_eq!(s.snapshot_id, 0);
    assert_eq!(s.initiator_id, 0);
    assert!(!s.seen_marker);
    assert!(s.closed_channels.is_empty());
    assert_eq!(s.recorded_local_state, 0);
    assert!(s.channel_values.is_empty());
}
