//! The mathematical model of the protocol engine: ghost views of the engine's
//! state and the transition functions that the executable operations are
//! proved to follow, one transition per protocol event.

use vstd::prelude::*;

use crate::state::Message;
use crate::state::Transmit;

verus! {

/// The view of one snapshot session's bookkeeping.
pub ghost struct SessionV {
    pub snapshot_id: u32,
    pub initiator_id: usize,
    pub seen_marker: bool,
    pub closed_channels: Seq<usize>,
    pub recorded_local_state: u32,
    pub channel_values: Seq<Message>,
}

/// The view of one process's whole engine state.
pub ghost struct DataV {
    pub id: usize,
    pub state: u32,
    pub predecessor: usize,
    pub successor: usize,
    pub has_token: bool,
    pub n_peers: usize,
    pub snapshots: Seq<SessionV>,
    pub converged: Seq<usize>,
}

/// A peer id is a 1-based position in the peer list.
pub open spec fn valid_id(p: usize, n: usize) -> bool {
    1 <= p <= n
}

/// A peer id other than the local process's own id.
pub open spec fn valid_other(p: usize, n: usize, id: usize) -> bool {
    valid_id(p, n) && p != id
}

/// Which peer ids a message may carry when the local process is `id` out of
/// `n` peers: senders are always other peers, initiators are any peer.
pub open spec fn valid_msg(m: Message, n: usize, id: usize) -> bool {
    match m {
        Message::Token => true,
        Message::Marker { from, snapshot_id, initiator } => valid_other(from, n, id)
            && valid_id(initiator, n),
        Message::AllChannelsClosed { from } => valid_other(from, n, id),
        Message::ResetSnapshot => true,
    }
}

/// Well-formedness of one session as held by process `id` of `n`: the closed
/// channels are distinct incoming channels, i.e. other peers' ids.
pub open spec fn wf_session(s: SessionV, n: usize, id: usize) -> bool {
    &&& s.closed_channels.no_duplicates()
    &&& forall|j: int|
        0 <= j < s.closed_channels.len() ==> valid_other(#[trigger] s.closed_channels[j], n, id)
    &&& valid_id(s.initiator_id, n)
}

/// Well-formedness of a whole engine state: valid ring ids, sessions keyed by
/// distinct snapshot ids, and a duplicate-free converged set of other peers.
pub open spec fn wf_data(v: DataV) -> bool {
    &&& 1 <= v.n_peers
    &&& valid_id(v.id, v.n_peers)
    &&& valid_id(v.predecessor, v.n_peers)
    &&& valid_id(v.successor, v.n_peers)
    &&& forall|i: int, j: int|
        0 <= i < j < v.snapshots.len() ==> (#[trigger] v.snapshots[i]).snapshot_id != (
        #[trigger] v.snapshots[j]).snapshot_id
    &&& forall|i: int|
        0 <= i < v.snapshots.len() ==> wf_session(#[trigger] v.snapshots[i], v.n_peers, v.id)
    &&& v.converged.no_duplicates()
    &&& forall|j: int|
        0 <= j < v.converged.len() ==> valid_other(#[trigger] v.converged[j], v.n_peers, v.id)
}

/// The index of the first session with the given snapshot id, or -1.
pub open spec fn session_index(ss: Seq<SessionV>, sid: u32) -> int
    decreases ss.len(),
{
    if ss.len() == 0 {
        -1
    } else if ss[0].snapshot_id == sid {
        0
    } else {
        let r = session_index(ss.drop_first(), sid);
        if r < 0 {
            -1
        } else {
            r + 1
        }
    }
}

pub open spec fn has_session(ss: Seq<SessionV>, sid: u32) -> bool {
    session_index(ss, sid) >= 0
}

/// What `session_index` finds: either no session carries the id, or the
/// returned index is the first one that does.
pub proof fn lemma_session_index(ss: Seq<SessionV>, sid: u32)
    ensures
        session_index(ss, sid) < 0 ==> forall|j: int|
            0 <= j < ss.len() ==> (#[trigger] ss[j]).snapshot_id != sid,
        session_index(ss, sid) >= 0 ==> {
            let r = session_index(ss, sid);
            &&& 0 <= r < ss.len()
            &&& ss[r].snapshot_id == sid
            &&& forall|j: int| 0 <= j < r ==> (#[trigger] ss[j]).snapshot_id != sid
        },
    decreases ss.len(),
{
    if ss.len() != 0 && ss[0].snapshot_id != sid {
        let d = ss.drop_first();
        lemma_session_index(d, sid);
        let r = session_index(ss, sid);
        if r < 0 {
            assert forall|j: int| 0 <= j < ss.len() implies (#[trigger] ss[j]).snapshot_id != sid by {
                if j >= 1 {
                    assert(ss[j] == d[j - 1]);
                    assert(d[j - 1].snapshot_id != sid);
                }
            }
        } else {
            assert(r == session_index(d, sid) + 1);
            assert(ss[r] == d[r - 1]);
            assert forall|j: int| 0 <= j < r implies (#[trigger] ss[j]).snapshot_id != sid by {
                if j >= 1 {
                    assert(ss[j] == d[j - 1]);
                    assert(d[j - 1].snapshot_id != sid);
                }
            }
        }
    }
}

/// The index of the first session whose initiator is the given process, or -1.
pub open spec fn own_session_index(ss: Seq<SessionV>, id: usize) -> int
    decreases ss.len(),
{
    if ss.len() == 0 {
        -1
    } else if ss[0].initiator_id == id {
        0
    } else {
        let r = own_session_index(ss.drop_first(), id);
        if r < 0 {
            -1
        } else {
            r + 1
        }
    }
}

/// What `own_session_index` finds.
pub proof fn lemma_own_session_index(ss: Seq<SessionV>, id: usize)
    ensures
        own_session_index(ss, id) < 0 ==> forall|j: int|
            0 <= j < ss.len() ==> (#[trigger] ss[j]).initiator_id != id,
        own_session_index(ss, id) >= 0 ==> {
            let r = own_session_index(ss, id);
            &&& 0 <= r < ss.len()
            &&& ss[r].initiator_id == id
            &&& forall|j: int| 0 <= j < r ==> (#[trigger] ss[j]).initiator_id != id
        },
    decreases ss.len(),
{
    if ss.len() != 0 && ss[0].initiator_id != id {
        let d = ss.drop_first();
        lemma_own_session_index(d, id);
        let r = own_session_index(ss, id);
        if r < 0 {
            assert forall|j: int| 0 <= j < ss.len() implies (#[trigger] ss[j]).initiator_id != id by {
                if j >= 1 {
                    assert(ss[j] == d[j - 1]);
                    assert(d[j - 1].initiator_id != id);
                }
            }
        } else {
            assert(r == own_session_index(d, id) + 1);
            assert(ss[r] == d[r - 1]);
            assert forall|j: int| 0 <= j < r implies (#[trigger] ss[j]).initiator_id != id by {
                if j >= 1 {
                    assert(ss[j] == d[j - 1]);
                    assert(d[j - 1].initiator_id != id);
                }
            }
        }
    }
}

/// The ids of every peer other than `id`, in increasing order: the targets of
/// a broadcast over the full mesh.
pub open spec fn others(id: usize, n: usize) -> Seq<usize> {
    Seq::new((n - 1) as nat, |k: int| if k + 1 < id { (k + 1) as usize } else { (k + 2) as usize })
}

/// One copy of `m` addressed to every other peer, in increasing peer order.
pub open spec fn broadcast_all(id: usize, n: usize, m: Message) -> Seq<Transmit> {
    others(id, n).map_values(|p: usize| Transmit { to: p, msg: m })
}

/// The session created on first contact with a snapshot id, before the local
/// state is recorded.
pub open spec fn fresh_session(sid: u32, initiator: usize) -> SessionV {
    SessionV {
        snapshot_id: sid,
        initiator_id: initiator,
        seen_marker: false,
        closed_channels: Seq::empty(),
        recorded_local_state: 0,
        channel_values: Seq::empty(),
    }
}

/// Recording a token on a session: a token that arrives on the predecessor
/// channel while the session has recorded its state and that channel is still
/// open is kept as an in-flight message of the snapshot.
pub open spec fn record_token(s: SessionV, pred: usize) -> SessionV {
    if s.seen_marker && !s.closed_channels.contains(pred) {
        SessionV { channel_values: s.channel_values.push(Message::Token), ..s }
    } else {
        s
    }
}

/// Closing the incoming channel from `from` for one session; closing an
/// already closed channel changes nothing.
pub open spec fn close_channel(s: SessionV, from: usize) -> SessionV {
    if s.closed_channels.contains(from) {
        s
    } else {
        SessionV { closed_channels: s.closed_channels.push(from), ..s }
    }
}

/// Receiving a token: every open session records it, the token is now held,
/// and the sequence counter advances by one.
pub open spec fn spec_recv_token(v: DataV) -> DataV {
    DataV {
        state: (v.state + 1) as u32,
        has_token: true,
        snapshots: v.snapshots.map_values(|s: SessionV| record_token(s, v.predecessor)),
        ..v
    }
}

/// Passing the token: the local process no longer holds it, and a token
/// message leaves for the ring successor.
pub open spec fn spec_pass_token(v: DataV) -> (DataV, Transmit) {
    (DataV { has_token: false, ..v }, Transmit { to: v.successor, msg: Message::Token })
}

/// Initiating a snapshot: a session is created with the local process as
/// initiator, the local state is recorded at once, and a marker goes out on
/// every outgoing channel.
pub open spec fn spec_initiate(v: DataV, sid: u32) -> (DataV, Seq<Transmit>) {
    let s = SessionV {
        snapshot_id: sid,
        initiator_id: v.id,
        seen_marker: true,
        closed_channels: Seq::empty(),
        recorded_local_state: v.state,
        channel_values: Seq::empty(),
    };
    (
        DataV { snapshots: v.snapshots.push(s), ..v },
        broadcast_all(v.id, v.n_peers, Message::Marker { from: v.id, snapshot_id: sid, initiator: v.id }),
    )
}

/// Receiving a marker, the heart of the snapshot protocol. A session is
/// created on first contact; on the first marker of a session the local state
/// is recorded and the marker is forwarded on every outgoing channel, exactly
/// once per session; then the triggering channel is closed. Once all incoming
/// channels are closed, a non-initiator reports convergence to the initiator,
/// while the initiator completes the snapshot if every other peer has already
/// converged (broadcasting the reset and discarding the session).
pub open spec fn spec_recv_marker(v: DataV, from: usize, sid: u32, initiator: usize) -> (
    DataV,
    Seq<Transmit>,
) {
    let ss0 = if has_session(v.snapshots, sid) {
        v.snapshots
    } else {
        v.snapshots.push(fresh_session(sid, initiator))
    };
    let i = session_index(ss0, sid);
    let s = ss0[i];
    let first = !s.seen_marker;
    let s1 = if first {
        SessionV { seen_marker: true, recorded_local_state: v.state, ..s }
    } else {
        s
    };
    let s2 = close_channel(s1, from);
    let ss1 = ss0.update(i, s2);
    let fwd: Seq<Transmit> = if first {
        broadcast_all(v.id, v.n_peers, Message::Marker { from: v.id, snapshot_id: sid, initiator: s.initiator_id })
    } else {
        Seq::empty()
    };
    let all_closed = s2.closed_channels.len() == v.n_peers - 1;
    if all_closed && s2.initiator_id != v.id {
        (
            DataV { snapshots: ss1, ..v },
            fwd.push(Transmit { to: s2.initiator_id, msg: Message::AllChannelsClosed { from: v.id } }),
        )
    } else if all_closed && s2.initiator_id == v.id && v.converged.len() == v.n_peers - 1 {
        (
            DataV { snapshots: ss1.remove(i), converged: Seq::empty(), ..v },
            fwd + broadcast_all(v.id, v.n_peers, Message::ResetSnapshot),
        )
    } else {
        (DataV { snapshots: ss1, ..v }, fwd)
    }
}

/// Receiving a convergence report. The sender joins the converged set; if the
/// local process has a session it initiated, that session's incoming channels
/// are all closed, and every other peer has now converged, the snapshot is
/// globally complete: the session is discarded, the converged set is cleared,
/// and the reset is broadcast.
pub open spec fn spec_recv_acc(v: DataV, from: usize) -> (DataV, Seq<Transmit>) {
    let conv = if v.converged.contains(from) {
        v.converged
    } else {
        v.converged.push(from)
    };
    let i = own_session_index(v.snapshots, v.id);
    if i >= 0 && v.snapshots[i].closed_channels.len() == v.n_peers - 1 && conv.len() == v.n_peers
        - 1 {
        (
            DataV { snapshots: v.snapshots.remove(i), converged: Seq::empty(), ..v },
            broadcast_all(v.id, v.n_peers, Message::ResetSnapshot),
        )
    } else {
        (DataV { converged: conv, ..v }, Seq::empty())
    }
}

/// Receiving the reset broadcast: all session bookkeeping and the converged
/// set are discarded, so the same snapshot id can be used afresh.
pub open spec fn spec_recv_reset(v: DataV) -> DataV {
    DataV { snapshots: Seq::empty(), converged: Seq::empty(), ..v }
}

/// The engine's whole reaction to one decoded message: the next state and the
/// messages to transmit, in order.
pub open spec fn spec_recv(v: DataV, m: Message) -> (DataV, Seq<Transmit>) {
    match m {
        Message::Token => (spec_recv_token(v), Seq::empty()),
        Message::Marker { from, snapshot_id, initiator } => spec_recv_marker(
            v,
            from,
            snapshot_id,
            initiator,
        ),
        Message::AllChannelsClosed { from } => spec_recv_acc(v, from),
        Message::ResetSnapshot => (spec_recv_reset(v), Seq::empty()),
    }
}

/// Receiving a token preserves the engine invariant.
pub proof fn lemma_wf_recv_token(v: DataV)
    requires
        wf_data(v),
    ensures
        wf_data(spec_recv_token(v)),
{
    let w = spec_recv_token(v);
    assert forall|i: int| 0 <= i < w.snapshots.len() implies wf_session(
        #[trigger] w.snapshots[i],
        w.n_peers,
        w.id,
    ) by {
        assert(w.snapshots[i] == record_token(v.snapshots[i], v.predecessor));
    }
    assert forall|i: int, j: int| 0 <= i < j < w.snapshots.len() implies (
    #[trigger] w.snapshots[i]).snapshot_id != (#[trigger] w.snapshots[j]).snapshot_id by {
        assert(w.snapshots[i] == record_token(v.snapshots[i], v.predecessor));
        assert(w.snapshots[j] == record_token(v.snapshots[j], v.predecessor));
    }
}

/// Initiating a fresh snapshot preserves the engine invariant.
pub proof fn lemma_wf_initiate(v: DataV, sid: u32)
    requires
        wf_data(v),
        !has_session(v.snapshots, sid),
    ensures
        wf_data(spec_initiate(v, sid).0),
{
    let w = spec_initiate(v, sid).0;
    lemma_session_index(v.snapshots, sid);
    assert forall|i: int, j: int| 0 <= i < j < w.snapshots.len() implies (
    #[trigger] w.snapshots[i]).snapshot_id != (#[trigger] w.snapshots[j]).snapshot_id by {
        if j == v.snapshots.len() {
            assert(v.snapshots[i].snapshot_id != sid);
        }
    }
}

/// Removing one session preserves distinctness of ids and per-session
/// well-formedness.
proof fn lemma_wf_snapshots_remove(ss: Seq<SessionV>, i: int, n: usize, id: usize)
    requires
        0 <= i < ss.len(),
        forall|a: int, b: int|
            0 <= a < b < ss.len() ==> (#[trigger] ss[a]).snapshot_id != (
            #[trigger] ss[b]).snapshot_id,
        forall|a: int| 0 <= a < ss.len() ==> wf_session(#[trigger] ss[a], n, id),
    ensures
        forall|a: int, b: int|
            0 <= a < b < ss.remove(i).len() ==> (#[trigger] ss.remove(i)[a]).snapshot_id != (
            #[trigger] ss.remove(i)[b]).snapshot_id,
        forall|a: int| 0 <= a < ss.remove(i).len() ==> wf_session(#[trigger] ss.remove(i)[a], n, id),
{
    let sr = ss.remove(i);
    assert(sr.len() == ss.len() - 1);
    assert forall|a: int| 0 <= a < sr.len() implies #[trigger] sr[a] == (if a < i {
        ss[a]
    } else {
        ss[a + 1]
    }) by {}
}

/// Receiving a marker with valid peer ids preserves the engine invariant.
pub proof fn lemma_wf_recv_marker(v: DataV, from: usize, sid: u32, initiator: usize)
    requires
        wf_data(v),
        valid_other(from, v.n_peers, v.id),
        valid_id(initiator, v.n_peers),
    ensures
        wf_data(spec_recv_marker(v, from, sid, initiator).0),
{
    let ss0 = if has_session(v.snapshots, sid) {
        v.snapshots
    } else {
        v.snapshots.push(fresh_session(sid, initiator))
    };
    lemma_session_index(v.snapshots, sid);
    if !has_session(v.snapshots, sid) {
        lemma_session_index(ss0, sid);
        if session_index(ss0, sid) < 0 {
            assert(ss0[ss0.len() - 1].snapshot_id == sid);
            assert(false);
        }
    }
    let i = session_index(ss0, sid);
    lemma_session_index(ss0, sid);
    assert(0 <= i < ss0.len() && ss0[i].snapshot_id == sid);
    assert forall|a: int, b: int| 0 <= a < b < ss0.len() implies (
    #[trigger] ss0[a]).snapshot_id != (#[trigger] ss0[b]).snapshot_id by {
        if b == v.snapshots.len() && ss0 != v.snapshots {
            assert(v.snapshots[a].snapshot_id != sid);
        }
    }
    assert forall|a: int| 0 <= a < ss0.len() implies wf_session(#[trigger] ss0[a], v.n_peers, v.id)
        by {}
    let s = ss0[i];
    let s1 = if !s.seen_marker {
        SessionV { seen_marker: true, recorded_local_state: v.state, ..s }
    } else {
        s
    };
    let s2 = close_channel(s1, from);
    assert(wf_session(s2, v.n_peers, v.id)) by {
        if !s1.closed_channels.contains(from) {
            assert forall|j: int| 0 <= j < s2.closed_channels.len() implies valid_other(
                #[trigger] s2.closed_channels[j],
                v.n_peers,
                v.id,
            ) by {}
        }
    }
    let ss1 = ss0.update(i, s2);
    assert forall|a: int, b: int| 0 <= a < b < ss1.len() implies (
    #[trigger] ss1[a]).snapshot_id != (#[trigger] ss1[b]).snapshot_id by {
        assert(ss1[a] == if a == i { s2 } else { ss0[a] });
        assert(ss1[b] == if b == i { s2 } else { ss0[b] });
    }
    let all_closed = s2.closed_channels.len() == v.n_peers - 1;
    if all_closed && s2.initiator_id == v.id && v.converged.len() == v.n_peers - 1 {
        lemma_wf_snapshots_remove(ss1, i, v.n_peers, v.id);
    }
}

/// Receiving a convergence report from a valid peer preserves the invariant.
pub proof fn lemma_wf_recv_acc(v: DataV, from: usize)
    requires
        wf_data(v),
        valid_other(from, v.n_peers, v.id),
    ensures
        wf_data(spec_recv_acc(v, from).0),
{
    let i = own_session_index(v.snapshots, v.id);
    lemma_own_session_index(v.snapshots, v.id);
    let conv = if v.converged.contains(from) {
        v.converged
    } else {
        v.converged.push(from)
    };
    if i >= 0 && v.snapshots[i].closed_channels.len() == v.n_peers - 1 && conv.len() == v.n_peers
        - 1 {
        lemma_wf_snapshots_remove(v.snapshots, i, v.n_peers, v.id);
    }
}

/// One engine-level token hop matches the counter model of
/// `crate::ring::lemma_token_circulation`: receiving the token grows the
/// local counter by exactly one, leaves the token held and transmits
/// nothing, and passing it on clears the flag and addresses the ring
/// successor.
pub proof fn lemma_hop_refines_engine(v: DataV)
    requires
        v.state < u32::MAX,
    ensures
        spec_recv(v, Message::Token).0.state == v.state + 1,
        spec_recv(v, Message::Token).0.has_token,
        spec_recv(v, Message::Token).1 =~= Seq::<Transmit>::empty(),
        !spec_pass_token(spec_recv(v, Message::Token).0).0.has_token,
        spec_pass_token(spec_recv(v, Message::Token).0).1 == (Transmit {
            to: v.successor,
            msg: Message::Token,
        }),
{
}

/// Every message the engine emits is addressed to another existing peer, so
/// the caller always finds an outgoing channel for it.
pub proof fn lemma_transmits_addressable(v: DataV, m: Message)
    requires
        wf_data(v),
        valid_msg(m, v.n_peers, v.id),
    ensures
        forall|k: int|
            0 <= k < spec_recv(v, m).1.len() ==> valid_other(
                (#[trigger] spec_recv(v, m).1[k]).to,
                v.n_peers,
                v.id,
            ),
{
    let r = spec_recv(v, m).1;
    assert forall|k: int| 0 <= k < r.len() implies valid_other(
        (#[trigger] r[k]).to,
        v.n_peers,
        v.id,
    ) by {
        match m {
            Message::Token => {},
            Message::Marker { from, snapshot_id, initiator } => {
                let sid = snapshot_id;
                let ss0 = if has_session(v.snapshots, sid) {
                    v.snapshots
                } else {
                    v.snapshots.push(fresh_session(sid, initiator))
                };
                lemma_session_index(v.snapshots, sid);
                lemma_session_index(ss0, sid);
                let i = session_index(ss0, sid);
                if i < 0 {
                    assert(ss0[ss0.len() - 1].snapshot_id == sid);
                }
                assert(wf_session(ss0[i], v.n_peers, v.id));
                let fwd = broadcast_all(
                    v.id,
                    v.n_peers,
                    Message::Marker { from: v.id, snapshot_id: sid, initiator: ss0[i].initiator_id },
                );
                let resets = broadcast_all(v.id, v.n_peers, Message::ResetSnapshot);
                if k < fwd.len() {
                    assert(fwd[k].to == others(v.id, v.n_peers)[k]);
                }
                if k < resets.len() {
                    assert(resets[k].to == others(v.id, v.n_peers)[k]);
                }
            },
            Message::AllChannelsClosed { from } => {
                let resets = broadcast_all(v.id, v.n_peers, Message::ResetSnapshot);
                if k < resets.len() {
                    assert(resets[k].to == others(v.id, v.n_peers)[k]);
                }
            },
            Message::ResetSnapshot => {},
        }
    }
}

/// The markers of a snapshot initiation are likewise addressed to the other
/// peers, one each.
pub proof fn lemma_initiation_addressable(v: DataV, sid: u32)
    requires
        wf_data(v),
    ensures
        spec_initiate(v, sid).1.len() == v.n_peers - 1,
        forall|k: int|
            0 <= k < spec_initiate(v, sid).1.len() ==> valid_other(
                (#[trigger] spec_initiate(v, sid).1[k]).to,
                v.n_peers,
                v.id,
            ),
{
    let r = spec_initiate(v, sid).1;
    assert forall|k: int| 0 <= k < r.len() implies valid_other(
        (#[trigger] r[k]).to,
        v.n_peers,
        v.id,
    ) by {
        assert(r[k].to == others(v.id, v.n_peers)[k]);
    }
}

/// Idempotence of marker forwarding: a process that has already seen a
/// marker for a session never re-broadcasts one, however many further
/// markers for that session arrive — its whole reaction to such a marker
/// contains no marker message at all.
pub proof fn lemma_marker_idempotent(v: DataV, from: usize, sid: u32, initiator: usize)
    requires
        has_session(v.snapshots, sid),
        v.snapshots[session_index(v.snapshots, sid)].seen_marker,
    ensures
        forall|k: int|
            0 <= k < spec_recv_marker(v, from, sid, initiator).1.len() ==> !((
            #[trigger] spec_recv_marker(v, from, sid, initiator).1[k]).msg is Marker),
{
    let r = spec_recv_marker(v, from, sid, initiator).1;
    let i = session_index(v.snapshots, sid);
    lemma_session_index(v.snapshots, sid);
    assert forall|k: int| 0 <= k < r.len() implies !((#[trigger] r[k]).msg is Marker) by {
        let resets = broadcast_all(v.id, v.n_peers, Message::ResetSnapshot);
        if k < resets.len() {
            assert(resets[k] == Transmit { to: others(v.id, v.n_peers)[k], msg: Message::ResetSnapshot });
        }
    }
}

/// The sequence counter moves with the token and with nothing else: it grows
/// by exactly one on a token receipt, which also takes the token, and stays
/// put on every other message, which also leaves the token flag alone.
pub proof fn lemma_counter_moves_with_token(v: DataV, m: Message)
    requires
        m is Token ==> v.state < u32::MAX,
    ensures
        m is Token ==> spec_recv(v, m).0.state == v.state + 1 && spec_recv(v, m).0.has_token,
        !(m is Token) ==> spec_recv(v, m).0.state == v.state && spec_recv(v, m).0.has_token
            == v.has_token,
{
}

/// The snapshot cut is immutable: once a process has recorded its state for
/// a session, no later message changes that recording (or the fact that the
/// marker was seen) for as long as the session is tracked.
pub proof fn lemma_recorded_state_stable(v: DataV, m: Message, sid: u32)
    requires
        wf_data(v),
        has_session(v.snapshots, sid),
        v.snapshots[session_index(v.snapshots, sid)].seen_marker,
    ensures
        ({
            let w = spec_recv(v, m).0;
            let s = v.snapshots[session_index(v.snapshots, sid)];
            forall|j: int|
                0 <= j < w.snapshots.len() && (#[trigger] w.snapshots[j]).snapshot_id == sid
                    ==> w.snapshots[j].seen_marker && w.snapshots[j].recorded_local_state
                    == s.recorded_local_state
        }),
{
    lemma_session_index(v.snapshots, sid);
    let i = session_index(v.snapshots, sid);
    let s = v.snapshots[i];
    let w = spec_recv(v, m).0;
    match m {
        Message::Token => {
            assert forall|j: int|
                0 <= j < w.snapshots.len() && (#[trigger] w.snapshots[j]).snapshot_id
                    == sid implies w.snapshots[j].seen_marker && w.snapshots[j].recorded_local_state
                == s.recorded_local_state by {
                assert(w.snapshots[j] == record_token(v.snapshots[j], v.predecessor));
                assert(v.snapshots[j].snapshot_id == sid);
                if j != i {
                    assert(v.snapshots[i].snapshot_id != v.snapshots[j].snapshot_id);
                }
            }
        },
        Message::Marker { from, snapshot_id: msid, initiator } => {
            let ss0 = if has_session(v.snapshots, msid) {
                v.snapshots
            } else {
                v.snapshots.push(fresh_session(msid, initiator))
            };
            lemma_session_index(ss0, msid);
            lemma_session_index(v.snapshots, msid);
            if !has_session(v.snapshots, msid) && session_index(ss0, msid) < 0 {
                assert(ss0[ss0.len() - 1].snapshot_id == msid);
            }
            let i0 = session_index(ss0, msid);
            let s0 = ss0[i0];
            let s1 = if !s0.seen_marker {
                SessionV { seen_marker: true, recorded_local_state: v.state, ..s0 }
            } else {
                s0
            };
            let s2 = close_channel(s1, from);
            let ss1 = ss0.update(i0, s2);
            assert(s2.snapshot_id == msid);
            if msid == sid {
                assert(ss0 == v.snapshots && i0 == i && s0 == s);
                assert(s1 == s);
            }
            assert forall|j: int|
                0 <= j < ss1.len() && (#[trigger] ss1[j]).snapshot_id == sid implies
                ss1[j].seen_marker && ss1[j].recorded_local_state == s.recorded_local_state by {
                if j == i0 {
                    assert(msid == sid);
                } else {
                    assert(ss1[j] == ss0[j]);
                    if j < v.snapshots.len() {
                        assert(ss0[j] == v.snapshots[j]);
                        if j != i {
                            assert(v.snapshots[i].snapshot_id != v.snapshots[j].snapshot_id);
                        }
                    } else {
                        assert(ss0[j] == fresh_session(msid, initiator));
                    }
                }
            }
            let all_closed = s2.closed_channels.len() == v.n_peers - 1;
            if all_closed && s2.initiator_id == v.id && v.converged.len() == v.n_peers - 1 {
                assert(w.snapshots == ss1.remove(i0));
                assert forall|j: int|
                    0 <= j < w.snapshots.len() && (#[trigger] w.snapshots[j]).snapshot_id
                        == sid implies w.snapshots[j].seen_marker
                    && w.snapshots[j].recorded_local_state == s.recorded_local_state by {
                    if j < i0 {
                        assert(w.snapshots[j] == ss1[j]);
                    } else {
                        assert(w.snapshots[j] == ss1[j + 1]);
                    }
                }
            } else {
                assert(w.snapshots == ss1);
            }
        },
        Message::AllChannelsClosed { from } => {
            let conv = if v.converged.contains(from) {
                v.converged
            } else {
                v.converged.push(from)
            };
            let k = own_session_index(v.snapshots, v.id);
            lemma_own_session_index(v.snapshots, v.id);
            if k >= 0 && v.snapshots[k].closed_channels.len() == v.n_peers - 1 && conv.len()
                == v.n_peers - 1 {
                assert(w.snapshots == v.snapshots.remove(k));
                assert forall|j: int|
                    0 <= j < w.snapshots.len() && (#[trigger] w.snapshots[j]).snapshot_id
                        == sid implies w.snapshots[j].seen_marker
                    && w.snapshots[j].recorded_local_state == s.recorded_local_state by {
                    let a = if j < k {
                        j
                    } else {
                        j + 1
                    };
                    assert(w.snapshots[j] == v.snapshots[a]);
                    if a != i {
                        assert(v.snapshots[i].snapshot_id != v.snapshots[a].snapshot_id);
                    }
                }
            } else {
                assert(w.snapshots == v.snapshots);
            }
        },
        Message::ResetSnapshot => {},
    }
}

/// Reset: processing the reset broadcast discards every session with its
/// closed channels and recorded messages, empties the converged set, and
/// transmits nothing, so any snapshot id can be initiated afresh.
pub proof fn lemma_reset_clears(v: DataV, sid: u32)
    ensures
        spec_recv(v, Message::ResetSnapshot).0.snapshots =~= Seq::<SessionV>::empty(),
        spec_recv(v, Message::ResetSnapshot).0.converged =~= Seq::<usize>::empty(),
        spec_recv(v, Message::ResetSnapshot).1 =~= Seq::<Transmit>::empty(),
        !has_session(spec_recv(v, Message::ResetSnapshot).0.snapshots, sid),
{
}

/// The whole dispatch preserves the engine invariant, whatever valid message
/// arrives.
pub proof fn lemma_wf_recv(v: DataV, m: Message)
    requires
        wf_data(v),
        valid_msg(m, v.n_peers, v.id),
    ensures
        wf_data(spec_recv(v, m).0),
{
    match m {
        Message::Token => lemma_wf_recv_token(v),
        Message::Marker { from, snapshot_id, initiator } => lemma_wf_recv_marker(
            v,
            from,
            snapshot_id,
            initiator,
        ),
        Message::AllChannelsClosed { from } => lemma_wf_recv_acc(v, from),
        Message::ResetSnapshot => {},
    }
}

} // verus!
