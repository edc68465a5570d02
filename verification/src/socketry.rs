//! The computable part of mesh construction: which peers to connect to and
//! under which keys, and how often a failed connect or bind may be retried.
//! The sockets themselves are opened by the process around the library.

use vstd::prelude::*;

use crate::ring::name_seqs;

verus! {

/// The fixed mesh port every peer binds and connects to.
pub const PORT: u16 = 6969;

/// How many times a failed connect or bind is retried before giving up.
pub const MAX_ATTEMPTS: u32 = 10;

/// Seconds to wait between two attempts.
pub const ATTEMPT_WAIT_SECS: u64 = 5;

/// The 1-based ids of the peers whose name is not `h`, in list order: the
/// keys under which outgoing channels are opened.
pub open spec fn other_positions(names: Seq<Seq<char>>, h: Seq<char>) -> Seq<usize>
    decreases names.len(),
{
    if names.len() == 0 {
        Seq::empty()
    } else if names.last() == h {
        other_positions(names.drop_last(), h)
    } else {
        other_positions(names.drop_last(), h).push(names.len() as usize)
    }
}

/// The peers an outgoing channel must be opened to: every peer of the list
/// whose name differs from the local hostname, keyed by its 1-based id, in
/// list order.
pub fn mesh_targets(hostname: &str, peer_list: &Vec<String>) -> (r: Vec<usize>)
    ensures
        r@ == other_positions(name_seqs(peer_list@), hostname@),
{
    let host: String = hostname.to_owned();
    let mut out: Vec<usize> = Vec::new();
    let n = peer_list.len();
    let ghost names = name_seqs(peer_list@);
    let mut i: usize = 0;
    while i < n
        invariant
            n == peer_list.len(),
            names == name_seqs(peer_list@),
            host@ == hostname@,
            i <= n,
            out@ == other_positions(names.take(i as int), hostname@),
        decreases n - i,
    {
        proof {
            assert(names.take(i as int + 1).drop_last() =~= names.take(i as int));
            assert(names.take(i as int + 1).last() == names[i as int]);
            assert(names.take(i as int + 1).len() == i + 1);
        }
        if !(peer_list[i] == host) {
            out.push(i + 1);
        }
        i += 1;
    }
    proof {
        assert(names.take(n as int) =~= names);
    }
    out
}

/// With the hostname absent from the list, every peer is a target.
proof fn lemma_other_positions_absent(names: Seq<Seq<char>>, h: Seq<char>)
    requires
        forall|j: int| 0 <= j < names.len() ==> (#[trigger] names[j]) != h,
        names.len() <= usize::MAX,
    ensures
        other_positions(names, h) =~= Seq::new(names.len(), |k: int| (k + 1) as usize),
    decreases names.len(),
{
    if names.len() > 0 {
        let d = names.drop_last();
        assert forall|j: int| 0 <= j < d.len() implies (#[trigger] d[j]) != h by {
            assert(d[j] == names[j]);
        }
        lemma_other_positions_absent(d, h);
        assert(names.last() == names[names.len() - 1]);
    }
}

/// The mesh and the engine's broadcasts agree: when the local hostname
/// stands exactly once in the peer list, at position `idx`, the peers the
/// mesh opens channels to are exactly the targets the engine broadcasts to
/// as process `idx + 1`, in the same order.
pub proof fn lemma_mesh_matches_broadcast(names: Seq<Seq<char>>, h: Seq<char>, idx: int)
    requires
        0 <= idx < names.len(),
        names[idx] == h,
        forall|j: int| 0 <= j < names.len() && j != idx ==> (#[trigger] names[j]) != h,
        names.len() <= usize::MAX,
    ensures
        other_positions(names, h) =~= crate::model::others(
            (idx + 1) as usize,
            names.len() as usize,
        ),
    decreases names.len(),
{
    let n = names.len() as int;
    let id = (idx + 1) as usize;
    let targets = crate::model::others(id, n as usize);
    assert(names.last() == names[n - 1]);
    let d = names.drop_last();
    if idx == n - 1 {
        assert forall|j: int| 0 <= j < d.len() implies (#[trigger] d[j]) != h by {
            assert(d[j] == names[j]);
        }
        lemma_other_positions_absent(d, h);
        assert forall|k: int| 0 <= k < n - 1 implies other_positions(names, h)[k] == targets[k] by {
            assert(other_positions(names, h)[k] == (k + 1) as usize);
            assert(k + 1 < id);
        }
        assert(other_positions(names, h).len() == n - 1);
        assert(other_positions(names, h) =~= targets);
    } else {
        assert(names[idx] == d[idx]);
        assert forall|j: int| 0 <= j < d.len() && j != idx implies (#[trigger] d[j]) != h by {
            assert(d[j] == names[j]);
        }
        lemma_mesh_matches_broadcast(d, h, idx);
        let prev = crate::model::others(id, (n - 1) as usize);
        assert(other_positions(names, h) =~= prev.push(n as usize));
        assert forall|k: int| 0 <= k < n - 1 implies prev.push(n as usize)[k] == targets[k] by {
            if k < n - 2 {
                assert(prev[k] == targets[k]);
            } else {
                assert(k + 1 >= id);
                assert(targets[k] == (k + 2) as usize);
            }
        }
        assert(prev.push(n as usize) =~= targets);
    }
}

/// Whether one more connect or bind attempt may be made after `attempts`
/// failures; after `MAX_ATTEMPTS` failures the error becomes fatal.
pub fn may_retry(attempts: u32) -> (r: bool)
    ensures
        r == (attempts < MAX_ATTEMPTS),
{
    attempts < MAX_ATTEMPTS
}

} // verus!
