//! The protocol engine: process identity, token circulation, and the
//! snapshot state machine. Every operation is a pure state transition that
//! returns the messages to transmit; the surrounding event loop only moves
//! bytes.

use vstd::prelude::*;

use crate::model::DataV;
use crate::model::SessionV;
use crate::model::broadcast_all;
use crate::model::close_channel;
use crate::model::fresh_session;
use crate::model::has_session;
use crate::model::lemma_own_session_index;
use crate::model::lemma_session_index;
use crate::model::lemma_wf_initiate;
use crate::model::others;
use crate::model::own_session_index;
use crate::model::record_token;
use crate::model::session_index;
use crate::model::spec_initiate;
use crate::model::spec_pass_token;
use crate::model::spec_recv;
use crate::model::spec_recv_acc;
use crate::model::spec_recv_marker;
use crate::model::spec_recv_reset;
use crate::model::spec_recv_token;
use crate::model::valid_id;
use crate::model::valid_msg;
use crate::model::valid_other;
use crate::model::wf_data;
use crate::ring::first_index_of;
use crate::ring::name_seqs;
use crate::ring::pred_index;
use crate::ring::succ_index;

verus! {

/// The wire-visible message union exchanged between peer processes.
#[derive(Clone, Copy, Debug, PartialEq, Eq, Structural)]
pub enum Message {
    /// A circulating token; carries no payload.
    Token,
    /// A snapshot marker: the sender, the session it belongs to, and the
    /// process that initiated that session.
    Marker { from: usize, snapshot_id: u32, initiator: usize },
    /// Sent by a non-initiator to the initiator once markers have been
    /// received on all of its incoming channels.
    AllChannelsClosed { from: usize },
    /// Broadcast by the initiator once every process has converged;
    /// instructs receivers to discard their session bookkeeping.
    ResetSnapshot,
}

/// The errors the protocol layer itself can report.
#[derive(Clone, Copy, Debug, PartialEq, Eq, Structural)]
pub enum Reasons {
    /// The local hostname does not occur in the peer list.
    HostNotInHostsfile,
    /// A received buffer does not decode to any `Message`.
    BadMessage,
}

/// A message together with the 1-based id of the peer it must be sent to.
#[derive(Clone, Copy, Debug, PartialEq, Eq, Structural)]
pub struct Transmit {
    pub to: usize,
    pub msg: Message,
}

/// Per-session Chandy-Lamport bookkeeping, one instance per in-flight
/// snapshot id.
#[derive(Clone, Debug)]
pub struct ChandyLamport {
    /// The session this bookkeeping belongs to.
    pub snapshot_id: u32,
    /// The process that initiated the session.
    pub initiator_id: usize,
    /// Whether a marker for this session has already been processed (and
    /// therefore forwarded) by this process.
    pub seen_marker: bool,
    /// Ids of peers whose incoming channel is closed for this session.
    pub closed_channels: Vec<usize>,
    /// The sequence counter captured when this process first saw a marker
    /// of this session.
    pub recorded_local_state: u32,
    /// Tokens observed on the still-open predecessor channel after the
    /// local state was recorded.
    pub channel_values: Vec<Message>,
}

impl View for ChandyLamport {
    type V = SessionV;

    open spec fn view(&self) -> SessionV {
        SessionV {
            snapshot_id: self.snapshot_id,
            initiator_id: self.initiator_id,
            seen_marker: self.seen_marker,
            closed_channels: self.closed_channels@,
            recorded_local_state: self.recorded_local_state,
            channel_values: self.channel_values@,
        }
    }
}

impl Default for ChandyLamport {
    /// Blank bookkeeping: attached to no snapshot or initiator yet, nothing
    /// seen, closed or recorded.
    fn default() -> (r: Self)
        ensures
            r@ == (SessionV {
                snapshot_id: 0,
                initiator_id: 0,
                seen_marker: false,
                closed_channels: Seq::empty(),
                recorded_local_state: 0,
                channel_values: Seq::empty(),
            }),
    {
        ChandyLamport {
            snapshot_id: 0,
            initiator_id: 0,
            seen_marker: false,
            closed_channels: Vec::new(),
            recorded_local_state: 0,
            channel_values: Vec::new(),
        }
    }
}

/// The engine state of one process: its ring identity, the token-circulation
/// counters, and the snapshot sessions it currently tracks.
#[derive(Clone, Debug)]
pub struct Data {
    /// 1-based position of this process in the peer list.
    pub id: usize,
    /// The sequence counter: how many tokens have been received.
    pub state: u32,
    /// 1-based id of the ring predecessor.
    pub predecessor: usize,
    /// 1-based id of the ring successor.
    pub successor: usize,
    /// Whether the token is held locally and not yet forwarded.
    pub has_token: bool,
    /// The number of peers in the list, this process included.
    pub n_peers: usize,
    /// The in-flight snapshot sessions, keyed by distinct snapshot ids.
    pub snapshots: Vec<ChandyLamport>,
    /// Ids of other peers that reported all their channels closed, kept by
    /// the initiator of the active session.
    pub converged_processes: Vec<usize>,
}

impl View for Data {
    type V = DataV;

    open spec fn view(&self) -> DataV {
        DataV {
            id: self.id,
            state: self.state,
            predecessor: self.predecessor,
            successor: self.successor,
            has_token: self.has_token,
            n_peers: self.n_peers,
            snapshots: self.snapshots@.map_values(|c: ChandyLamport| c@),
            converged: self.converged_processes@,
        }
    }
}

impl Data {
    /// The engine's invariant, established by `from_list` and preserved by
    /// every operation.
    pub open spec fn wf(&self) -> bool {
        wf_data(self@)
    }

    /// Derives this process's ring identity from its hostname and the shared
    /// ordered peer list: the 1-based position of the hostname, and the ids
    /// of its ring predecessor and successor with wrap-around. Fails exactly
    /// when the hostname does not occur in the list. The counters start at
    /// the supplied value with no token held and no session tracked.
    pub fn from_list(hostname: &str, peer_list: &Vec<String>, state: u32) -> (r: Result<
        Data,
        Reasons,
    >)
        ensures
            ({
                let names = name_seqs(peer_list@);
                let idx = first_index_of(names, hostname@);
                match r {
                    Ok(d) => {
                        &&& 0 <= idx < names.len()
                        &&& d@ == (DataV {
                            id: (idx + 1) as usize,
                            state: state,
                            predecessor: (pred_index(idx, names.len() as int) + 1) as usize,
                            successor: (succ_index(idx, names.len() as int) + 1) as usize,
                            has_token: false,
                            n_peers: peer_list.len(),
                            snapshots: Seq::empty(),
                            converged: Seq::empty(),
                        })
                        &&& d.wf()
                    },
                    Err(e) => {
                        &&& e == Reasons::HostNotInHostsfile
                        &&& idx < 0
                    },
                }
            }),
    {
        let n = peer_list.len();
        let host: String = hostname.to_owned();
        let mut i: usize = 0;
        let ghost names = name_seqs(peer_list@);
        proof {
            crate::ring::lemma_first_index_of(names, hostname@);
        }
        while i < n
            invariant
                n == peer_list.len(),
                names == name_seqs(peer_list@),
                host@ == hostname@,
                i <= n,
                forall|j: int| 0 <= j < i ==> (#[trigger] names[j]) != hostname@,
            decreases n - i,
        {
            if peer_list[i] == host {
                assert(names[i as int] == hostname@);
                let ghost idx = first_index_of(names, hostname@);
                proof {
                    crate::ring::lemma_first_index_of(names, hostname@);
                    assert(idx == i);
                }
                let l = n - 1;
                let predecessor = if i == 0 {
                    l
                } else {
                    i - 1
                };
                let successor = if i == l {
                    0
                } else {
                    i + 1
                };
                let d = Data {
                    id: i + 1,
                    state,
                    predecessor: predecessor + 1,
                    successor: successor + 1,
                    has_token: false,
                    n_peers: n,
                    snapshots: Vec::new(),
                    converged_processes: Vec::new(),
                };
                assert(d@.snapshots =~= Seq::<SessionV>::empty());
                assert(d@.converged =~= Seq::<usize>::empty());
                return Ok(d);
            }
            i += 1;
        }
        Err(Reasons::HostNotInHostsfile)
    }

    /// The position of the session with this snapshot id, if any is tracked.
    fn find_session_pos(&self, snapshot_id: u32) -> (r: Option<usize>)
        ensures
            match r {
                Some(i) => i == session_index(self@.snapshots, snapshot_id) && i
                    < self@.snapshots.len(),
                None => session_index(self@.snapshots, snapshot_id) < 0,
            },
    {
        proof {
            lemma_session_index(self@.snapshots, snapshot_id);
        }
        let mut i: usize = 0;
        while i < self.snapshots.len()
            invariant
                i <= self@.snapshots.len(),
                forall|j: int|
                    0 <= j < i ==> (#[trigger] self@.snapshots[j]).snapshot_id != snapshot_id,
            decreases self@.snapshots.len() - i,
        {
            if self.snapshots[i].snapshot_id == snapshot_id {
                proof {
                    lemma_session_index(self@.snapshots, snapshot_id);
                    let r = session_index(self@.snapshots, snapshot_id);
                    if r < 0 {
                        assert(self@.snapshots[i as int].snapshot_id != snapshot_id);
                    }
                    if r < i {
                        assert(self@.snapshots[r].snapshot_id != snapshot_id);
                    }
                    if r > i {
                        assert(self@.snapshots[i as int].snapshot_id != snapshot_id);
                    }
                }
                return Some(i);
            }
            i += 1;
        }
        None
    }

    /// Passes the token to the ring successor: the token is no longer held
    /// locally and a token message leaves for the successor.
    pub fn pass_token(&mut self) -> (out: Transmit)
        ensures
            final(self)@ == spec_pass_token(old(self)@).0,
            out == spec_pass_token(old(self)@).1,
            old(self).wf() ==> final(self).wf(),
    {
        self.has_token = false;
        Transmit { to: self.successor, msg: Message::Token }
    }

    /// Whether the configured snapshot trigger fires: the sequence counter
    /// has reached the activation value and no session with this id exists
    /// yet, so `initiate_snapshot` may be called.
    pub fn should_initiate(&self, snapshot_id: u32, activate_state: u32) -> (r: bool)
        ensures
            r == (self@.state == activate_state && !has_session(self@.snapshots, snapshot_id)),
    {
        self.state == activate_state && self.find_session_pos(snapshot_id).is_none()
    }

    /// Starts a snapshot with this process as initiator: the local state is
    /// recorded at once and a marker is sent on every outgoing channel.
    /// Callable only while no session with this id is tracked.
    pub fn initiate_snapshot(&mut self, snapshot_id: u32) -> (out: Vec<Transmit>)
        requires
            old(self).wf(),
            !has_session(old(self)@.snapshots, snapshot_id),
        ensures
            final(self)@ == spec_initiate(old(self)@, snapshot_id).0,
            out@ == spec_initiate(old(self)@, snapshot_id).1,
            final(self).wf(),
    {
        let ghost v0 = self@;
        let session = ChandyLamport {
            snapshot_id,
            initiator_id: self.id,
            seen_marker: true,
            closed_channels: Vec::new(),
            recorded_local_state: self.state,
            channel_values: Vec::new(),
        };
        let out = broadcast_msgs(
            self.id,
            self.n_peers,
            Message::Marker { from: self.id, snapshot_id, initiator: self.id },
        );
        self.snapshots.push(session);
        proof {
            assert(self@.snapshots =~= spec_initiate(v0, snapshot_id).0.snapshots);
            assert(self@ == spec_initiate(v0, snapshot_id).0);
            lemma_wf_initiate(v0, snapshot_id);
        }
        out
    }

    /// The position of the first session this process itself initiated, if
    /// any is tracked.
    fn find_own_pos(&self) -> (r: Option<usize>)
        ensures
            match r {
                Some(i) => i == own_session_index(self@.snapshots, self@.id) && i
                    < self@.snapshots.len(),
                None => own_session_index(self@.snapshots, self@.id) < 0,
            },
    {
        proof {
            lemma_own_session_index(self@.snapshots, self@.id);
        }
        let mut i: usize = 0;
        while i < self.snapshots.len()
            invariant
                i <= self@.snapshots.len(),
                forall|j: int|
                    0 <= j < i ==> (#[trigger] self@.snapshots[j]).initiator_id != self@.id,
            decreases self@.snapshots.len() - i,
        {
            if self.snapshots[i].initiator_id == self.id {
                proof {
                    lemma_own_session_index(self@.snapshots, self@.id);
                    let r = own_session_index(self@.snapshots, self@.id);
                    if r < 0 {
                        assert(self@.snapshots[i as int].initiator_id != self@.id);
                    }
                    if r < i {
                        assert(self@.snapshots[r].initiator_id != self@.id);
                    }
                    if r > i {
                        assert(self@.snapshots[i as int].initiator_id != self@.id);
                    }
                }
                return Some(i);
            }
            i += 1;
        }
        None
    }

    /// Whether a decoded message carries peer ids that are possible on this
    /// process's incoming channels; the caller must check this before
    /// handing the message to `recv_message`.
    pub fn msg_valid(&self, msg: &Message) -> (r: bool)
        ensures
            r == valid_msg(*msg, self@.n_peers, self@.id),
    {
        match *msg {
            Message::Token => true,
            Message::Marker { from, snapshot_id: _, initiator } => 1 <= from && from
                <= self.n_peers && from != self.id && 1 <= initiator && initiator <= self.n_peers,
            Message::AllChannelsClosed { from } => 1 <= from && from <= self.n_peers && from
                != self.id,
            Message::ResetSnapshot => true,
        }
    }

    /// Receiving a token: every open session records it as an in-flight
    /// message of its snapshot, the token is now held, and the sequence
    /// counter advances by one.
    fn recv_token(&mut self)
        requires
            old(self).wf(),
            old(self)@.state < u32::MAX,
        ensures
            final(self)@ == spec_recv_token(old(self)@),
            final(self).wf(),
    {
        let ghost v0 = self@;
        let pred = self.predecessor;
        let n = self.snapshots.len();
        let mut i: usize = 0;
        while i < n
            invariant
                n == self.snapshots@.len(),
                i <= n,
                pred == v0.predecessor,
                self.id == v0.id,
                self.state == v0.state,
                self.predecessor == v0.predecessor,
                self.successor == v0.successor,
                self.has_token == v0.has_token,
                self.n_peers == v0.n_peers,
                self.converged_processes@ == v0.converged,
                forall|j: int|
                    0 <= j < i ==> (#[trigger] self.snapshots@[j])@ == record_token(
                        v0.snapshots[j],
                        v0.predecessor,
                    ),
                forall|j: int| i <= j < n ==> (#[trigger] self.snapshots@[j])@ == v0.snapshots[j],
            decreases n - i,
        {
            if self.snapshots[i].seen_marker && !contains_id(
                &self.snapshots[i].closed_channels,
                pred,
            ) {
                self.snapshots[i].channel_values.push(Message::Token);
            }
            i += 1;
        }
        self.state = self.state + 1;
        self.has_token = true;
        proof {
            assert(self@.snapshots =~= spec_recv_token(v0).snapshots);
            assert(self@.converged =~= spec_recv_token(v0).converged);
            assert(self@ == spec_recv_token(v0));
            crate::model::lemma_wf_recv_token(v0);
        }
    }

    /// Receiving a marker: the Chandy-Lamport step described by
    /// `spec_recv_marker`.
    fn recv_marker(&mut self, from: usize, snapshot_id: u32, initiator: usize) -> (out: Vec<
        Transmit,
    >)
        requires
            old(self).wf(),
            valid_other(from, old(self)@.n_peers, old(self)@.id),
            valid_id(initiator, old(self)@.n_peers),
        ensures
            final(self)@ == spec_recv_marker(old(self)@, from, snapshot_id, initiator).0,
            out@ == spec_recv_marker(old(self)@, from, snapshot_id, initiator).1,
            final(self).wf(),
    {
        let ghost v0 = self@;
        let ghost ss0 = if has_session(v0.snapshots, snapshot_id) {
            v0.snapshots
        } else {
            v0.snapshots.push(fresh_session(snapshot_id, initiator))
        };
        let i: usize;
        match self.find_session_pos(snapshot_id) {
            Some(p) => {
                i = p;
                proof {
                    assert(ss0 == v0.snapshots);
                }
            },
            None => {
                i = self.snapshots.len();
                self.snapshots.push(
                    ChandyLamport {
                        snapshot_id,
                        initiator_id: initiator,
                        seen_marker: false,
                        closed_channels: Vec::new(),
                        recorded_local_state: 0,
                        channel_values: Vec::new(),
                    },
                );
                proof {
                    assert(!has_session(v0.snapshots, snapshot_id));
                    assert(self@.snapshots =~= ss0);
                    lemma_session_index(ss0, snapshot_id);
                    let r = session_index(ss0, snapshot_id);
                    if r < 0 {
                        assert(ss0[ss0.len() - 1].snapshot_id == snapshot_id);
                    } else {
                        lemma_session_index(v0.snapshots, snapshot_id);
                        if r < v0.snapshots.len() {
                            assert(v0.snapshots[r] == ss0[r]);
                        }
                    }
                    assert(r == i);
                }
            },
        }
        proof {
            assert(self@.snapshots == ss0);
            assert(i == session_index(ss0, snapshot_id));
            lemma_session_index(ss0, snapshot_id);
            assert(0 <= i < ss0.len());
        }
        let ghost s = ss0[i as int];
        let ghost s1 = if !s.seen_marker {
            SessionV { seen_marker: true, recorded_local_state: v0.state, ..s }
        } else {
            s
        };
        let first = !self.snapshots[i].seen_marker;
        let init_stored = self.snapshots[i].initiator_id;
        let mut out: Vec<Transmit> = Vec::new();
        if first {
            self.snapshots[i].seen_marker = true;
            self.snapshots[i].recorded_local_state = self.state;
            out = broadcast_msgs(
                self.id,
                self.n_peers,
                Message::Marker { from: self.id, snapshot_id, initiator: init_stored },
            );
        }
        proof {
            assert(self@.snapshots =~= ss0.update(i as int, s1));
        }
        let ghost s2 = close_channel(s1, from);
        if !contains_id(&self.snapshots[i].closed_channels, from) {
            self.snapshots[i].closed_channels.push(from);
        }
        proof {
            assert(self@.snapshots =~= ss0.update(i as int, s2));
        }
        if self.snapshots[i].closed_channels.len() == self.n_peers - 1 {
            let init_id = self.snapshots[i].initiator_id;
            if init_id != self.id {
                out.push(Transmit { to: init_id, msg: Message::AllChannelsClosed { from: self.id } });
            } else if self.converged_processes.len() == self.n_peers - 1 {
                let _removed = self.snapshots.remove(i);
                self.converged_processes.clear();
                let mut resets = broadcast_msgs(self.id, self.n_peers, Message::ResetSnapshot);
                out.append(&mut resets);
                proof {
                    assert(self@.snapshots =~= ss0.update(i as int, s2).remove(i as int));
                }
            }
        }
        proof {
            let r = spec_recv_marker(v0, from, snapshot_id, initiator);
            assert(self@.snapshots =~= r.0.snapshots);
            assert(self@.converged =~= r.0.converged);
            assert(self@ == r.0);
            assert(out@ =~= r.1);
            crate::model::lemma_wf_recv_marker(v0, from, snapshot_id, initiator);
        }
        out
    }

    /// Receiving a convergence report: the sender joins the converged set,
    /// and the initiator completes its snapshot once its own channels are
    /// closed and every other peer has converged.
    fn recv_acc(&mut self, from: usize) -> (out: Vec<Transmit>)
        requires
            old(self).wf(),
            valid_other(from, old(self)@.n_peers, old(self)@.id),
        ensures
            final(self)@ == spec_recv_acc(old(self)@, from).0,
            out@ == spec_recv_acc(old(self)@, from).1,
            final(self).wf(),
    {
        let ghost v0 = self@;
        if !contains_id(&self.converged_processes, from) {
            self.converged_processes.push(from);
        }
        let mut out: Vec<Transmit> = Vec::new();
        match self.find_own_pos() {
            Some(i) => {
                if self.snapshots[i].closed_channels.len() == self.n_peers - 1
                    && self.converged_processes.len() == self.n_peers - 1 {
                    let _removed = self.snapshots.remove(i);
                    self.converged_processes.clear();
                    out = broadcast_msgs(self.id, self.n_peers, Message::ResetSnapshot);
                }
            },
            None => {},
        }
        proof {
            let r = spec_recv_acc(v0, from);
            assert(self@.snapshots =~= r.0.snapshots);
            assert(self@.converged =~= r.0.converged);
            assert(self@ == r.0);
            assert(out@ =~= r.1);
            crate::model::lemma_wf_recv_acc(v0, from);
        }
        out
    }

    /// The engine's reaction to one decoded message: mutates the local state
    /// as `spec_recv` says and returns the messages to transmit, in order.
    /// The caller checks `msg_valid` first and, for a token, that the
    /// sequence counter has room to grow.
    pub fn recv_message(&mut self, msg: Message) -> (out: Vec<Transmit>)
        requires
            old(self).wf(),
            valid_msg(msg, old(self)@.n_peers, old(self)@.id),
            msg is Token ==> old(self)@.state < u32::MAX,
        ensures
            final(self)@ == spec_recv(old(self)@, msg).0,
            out@ == spec_recv(old(self)@, msg).1,
            final(self).wf(),
    {
        let ghost v0 = self@;
        match msg {
            Message::Token => {
                self.recv_token();
                Vec::new()
            },
            Message::Marker { from, snapshot_id, initiator } => self.recv_marker(
                from,
                snapshot_id,
                initiator,
            ),
            Message::AllChannelsClosed { from } => self.recv_acc(from),
            Message::ResetSnapshot => {
                self.snapshots = Vec::new();
                self.converged_processes = Vec::new();
                proof {
                    assert(self@.snapshots =~= spec_recv_reset(v0).snapshots);
                    assert(self@ == spec_recv_reset(v0));
                }
                Vec::new()
            },
        }
    }
}

/// Whether a duplicate-free id list already holds `x`.
fn contains_id(v: &Vec<usize>, x: usize) -> (r: bool)
    ensures
        r == v@.contains(x),
{
    let mut i: usize = 0;
    while i < v.len()
        invariant
            i <= v@.len(),
            forall|j: int| 0 <= j < i ==> v@[j] != x,
        decreases v@.len() - i,
    {
        if v[i] == x {
            return true;
        }
        i += 1;
    }
    assert(!v@.contains(x));
    false
}

/// One copy of `m` for every peer other than `id`, in increasing peer order:
/// the executable counterpart of `broadcast_all`.
fn broadcast_msgs(id: usize, n: usize, m: Message) -> (out: Vec<Transmit>)
    requires
        1 <= id <= n,
    ensures
        out@ == broadcast_all(id, n, m),
{
    let mut out: Vec<Transmit> = Vec::new();
    let mut k: usize = 0;
    while k < n - 1
        invariant
            1 <= id <= n,
            k <= n - 1,
            out@.len() == k,
            forall|j: int| 0 <= j < k ==> out@[j] == broadcast_all(id, n, m)[j],
        decreases n - 1 - k,
    {
        let target = if k + 1 < id {
            k + 1
        } else {
            k + 2
        };
        proof {
            assert(others(id, n)[k as int] == target);
        }
        out.push(Transmit { to: target, msg: m });
        k += 1;
    }
    proof {
        assert(out@ =~= broadcast_all(id, n, m));
    }
    out
}

} // verus!
