//! The event loop's ordering rule: when several messages become ready in one
//! polling cycle, all pending markers must be processed before any pending
//! token, and otherwise the arrival order is kept (a stable priority rule).

use vstd::prelude::*;

use crate::state::Message;

verus! {

/// Whether a message is a snapshot marker.
pub open spec fn is_marker(m: Message) -> bool {
    m is Marker
}

/// The markers of a batch, in their arrival order.
pub open spec fn markers_of(s: Seq<Message>) -> Seq<Message>
    decreases s.len(),
{
    if s.len() == 0 {
        Seq::empty()
    } else if is_marker(s.last()) {
        markers_of(s.drop_last()).push(s.last())
    } else {
        markers_of(s.drop_last())
    }
}

/// The non-marker messages of a batch, in their arrival order.
pub open spec fn non_markers_of(s: Seq<Message>) -> Seq<Message>
    decreases s.len(),
{
    if s.len() == 0 {
        Seq::empty()
    } else if !is_marker(s.last()) {
        non_markers_of(s.drop_last()).push(s.last())
    } else {
        non_markers_of(s.drop_last())
    }
}

/// Reorders one polling cycle's batch so that every marker precedes every
/// other message, keeping the arrival order within each of the two groups:
/// exactly the batch's markers followed by exactly its other messages.
pub fn sort_markers_first(msgs: &Vec<Message>) -> (r: Vec<Message>)
    ensures
        r@ == markers_of(msgs@) + non_markers_of(msgs@),
{
    let mut out: Vec<Message> = Vec::new();
    let n = msgs.len();
    let mut i: usize = 0;
    while i < n
        invariant
            n == msgs@.len(),
            i <= n,
            out@ == markers_of(msgs@.take(i as int)),
        decreases n - i,
    {
        let m = msgs[i];
        proof {
            assert(msgs@.take(i as int + 1).drop_last() =~= msgs@.take(i as int));
            assert(msgs@.take(i as int + 1).last() == m);
        }
        if matches!(m, Message::Marker { .. }) {
            out.push(m);
        }
        i += 1;
    }
    proof {
        assert(msgs@.take(n as int) =~= msgs@);
    }
    i = 0;
    while i < n
        invariant
            n == msgs@.len(),
            i <= n,
            out@ == markers_of(msgs@) + non_markers_of(msgs@.take(i as int)),
        decreases n - i,
    {
        let m = msgs[i];
        proof {
            assert(msgs@.take(i as int + 1).drop_last() =~= msgs@.take(i as int));
            assert(msgs@.take(i as int + 1).last() == m);
        }
        if !matches!(m, Message::Marker { .. }) {
            out.push(m);
        }
        i += 1;
    }
    proof {
        assert(msgs@.take(n as int) =~= msgs@);
    }
    out
}

} // verus!
