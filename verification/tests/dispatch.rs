use pass_token::dispatch::sort_markers_first;
use pass_token::socketry::mesh_targets;
use pass_token::socketry::may_retry;
use pass_token::socketry::ATTEMPT_WAIT_SECS;
use pass_token::socketry::MAX_ATTEMPTS;
use pass_token::socketry::PORT;
use pass_token::state::Message;

fn marker(from: usize, snapshot_id: u32, initiator: usize) -> Message {
    Message::Marker { from, snapshot_id, initiator }
}

#[test]
fn markers_come_first_and_order_is_kept() {
    let batch = vec![
        Message::Token,
        marker(1, 1, 1),
        Message::ResetSnapshot,
        marker(3, 1, 1),
        Message::Token,
    ];
    let sorted = sort_markers_first(&batch);
    assert_eq!(
        sorted,
        vec![
            marker(1, 1, 1),
            marker(3, 1, 1),
            Message::Token,
            Message::ResetSnapshot,
            Message::Token,
        ]
    );
}

#[test]
fn sorting_an_empty_or_uniform_batch_changes_nothing() {
    assert_eq!(sort_markers_first(&Vec::new()), Vec::new());
    let tokens = vec![Message::Token, Message::Token];
    assert_eq!(sort_markers_first(&tokens), tokens);
    let markers = vec![marker(1, 1, 1), marker(2, 1, 1)];
    assert_eq!(sort_markers_first(&markers), markers);
}

#[test]
fn mesh_connects_to_every_other_peer() {
    let names: Vec<String> = ["p1", "p2", "p3"].iter().map(|s| s.to_string()).collect();
    assert_eq!(mesh_targets("p1", &names), vec![2, 3]);
    assert_eq!(mesh_targets("p2", &names), vec![1, 3]);
    assert_eq!(mesh_targets("p3", &names), vec![1, 2]);
    // a hostname not in the list connects to everyone
    assert_eq!(mesh_targets("q", &names), vec![1, 2, 3]);
}

#[test]
fn retry_budget() {
    assert_eq!(PORT, 6969);
    assert_eq!(ATTEMPT_WAIT_SECS, 5);
    for a in 0..MAX_ATTEMPTS {
        assert!(may_retry(a));
    }
    assert!(!may_retry(MAX_ATTEMPTS));
    assert!(!may_retry(MAX_ATTEMPTS + 1));
}
