//! Ring arithmetic on peer-list positions: predecessor and successor indices
//! with wrap-around, the position of a hostname in the peer list, and the
//! laws that make the derived identities a ring.

use vstd::prelude::*;

verus! {

/// The zero-based index of the ring predecessor of position `i` among `n`.
pub open spec fn pred_index(i: int, n: int) -> int {
    if i == 0 {
        n - 1
    } else {
        i - 1
    }
}

/// The zero-based index of the ring successor of position `i` among `n`.
pub open spec fn succ_index(i: int, n: int) -> int {
    if i == n - 1 {
        0
    } else {
        i + 1
    }
}

/// The names of a peer list, as character sequences.
pub open spec fn name_seqs(peer_list: Seq<String>) -> Seq<Seq<char>> {
    peer_list.map_values(|s: String| s@)
}

/// The first position of `h` in `names`, or -1 if it does not occur.
pub open spec fn first_index_of(names: Seq<Seq<char>>, h: Seq<char>) -> int
    decreases names.len(),
{
    if names.len() == 0 {
        -1
    } else if names[0] == h {
        0
    } else {
        let r = first_index_of(names.drop_first(), h);
        if r < 0 {
            -1
        } else {
            r + 1
        }
    }
}

/// What `first_index_of` finds: either `h` occurs nowhere, or the result is
/// the first position where it occurs.
pub proof fn lemma_first_index_of(names: Seq<Seq<char>>, h: Seq<char>)
    ensures
        first_index_of(names, h) < 0 ==> forall|j: int|
            0 <= j < names.len() ==> (#[trigger] names[j]) != h,
        first_index_of(names, h) >= 0 ==> {
            let r = first_index_of(names, h);
            &&& 0 <= r < names.len()
            &&& names[r] == h
            &&& forall|j: int| 0 <= j < r ==> (#[trigger] names[j]) != h
        },
    decreases names.len(),
{
    if names.len() != 0 && names[0] != h {
        let d = names.drop_first();
        lemma_first_index_of(d, h);
        let r = first_index_of(names, h);
        if r < 0 {
            assert forall|j: int| 0 <= j < names.len() implies (#[trigger] names[j]) != h by {
                if j >= 1 {
                    assert(names[j] == d[j - 1]);
                    assert(d[j - 1] != h);
                }
            }
        } else {
            assert(r == first_index_of(d, h) + 1);
            assert(names[r] == d[r - 1]);
            assert forall|j: int| 0 <= j < r implies (#[trigger] names[j]) != h by {
                if j >= 1 {
                    assert(names[j] == d[j - 1]);
                    assert(d[j - 1] != h);
                }
            }
        }
    }
}

/// Ring closure: every position is the predecessor of its successor and the
/// successor of its predecessor, for any ring of at least one position.
pub proof fn lemma_ring_closure(i: int, n: int)
    requires
        n >= 1,
        0 <= i < n,
    ensures
        pred_index(succ_index(i, n), n) == i,
        succ_index(pred_index(i, n), n) == i,
{
}

/// Identity derivation is injective: two processes at different positions of
/// one peer list derive distinct 1-based ids, and each id lies in `1..=n`.
pub proof fn lemma_ids_distinct(i: int, j: int, n: int)
    requires
        0 <= i < n,
        0 <= j < n,
        i != j,
    ensures
        i + 1 != j + 1,
        1 <= i + 1 <= n,
        1 <= j + 1 <= n,
{
}

/// On a duplicate-free peer list every process finds itself at its own
/// position: the name at position `i` has first index `i`. Together with
/// `lemma_ids_distinct` this makes the ids derived across one valid peer
/// list exactly `1..=n`, one per process.
pub proof fn lemma_position_of_own_name(names: Seq<Seq<char>>, i: int)
    requires
        names.no_duplicates(),
        0 <= i < names.len(),
    ensures
        first_index_of(names, names[i]) == i,
{
    lemma_first_index_of(names, names[i]);
    let r = first_index_of(names, names[i]);
    if r < 0 {
        assert(names[i] != names[i]);
    }
    assert(names[r] == names[i]);
    if r != i {
        assert(names[r] == names[i] && r != i);
    }
}

/// `x` brought back into the ring `0..n`, for `0 <= x < 2n`.
pub open spec fn wrap(x: int, n: int) -> int {
    if x < n {
        x
    } else {
        x - n
    }
}

/// One token hop: the holder's successor receives the token, so its counter
/// grows by one, and it becomes the holder.
pub open spec fn hop_counters(c: Seq<int>, h: int, n: int) -> Seq<int> {
    c.update(succ_index(h, n), c[succ_index(h, n)] + 1)
}

/// The counters after `k` token hops starting from holder `h`.
pub open spec fn after_hops(c: Seq<int>, h: int, n: int, k: nat) -> Seq<int>
    decreases k,
{
    if k == 0 {
        c
    } else {
        after_hops(hop_counters(c, h, n), succ_index(h, n), n, (k - 1) as nat)
    }
}

/// The holder after `k` token hops starting from holder `h`.
pub open spec fn holder_after(h: int, n: int, k: nat) -> int
    decreases k,
{
    if k == 0 {
        h
    } else {
        holder_after(succ_index(h, n), n, (k - 1) as nat)
    }
}

/// Whether position `i` received the token within the first `k` hops.
spec fn was_hit(i: int, h: int, n: int, k: nat) -> bool {
    exists|m: int| 1 <= m <= k && i == #[trigger] wrap(h + m, n)
}

proof fn lemma_hops_core(c: Seq<int>, h: int, n: int, k: nat)
    requires
        n >= 1,
        0 <= h < n,
        c.len() == n,
        k <= n,
    ensures
        after_hops(c, h, n, k).len() == n,
        holder_after(h, n, k) == wrap(h + k, n),
        forall|i: int|
            0 <= i < n ==> after_hops(c, h, n, k)[i] == c[i] + (if was_hit(i, h, n, k) {
                1int
            } else {
                0int
            }),
    decreases k,
{
    if k == 0 {
        assert forall|i: int| 0 <= i < n implies !was_hit(i, h, n, 0) by {}
    } else {
        let h1 = succ_index(h, n);
        let c1 = hop_counters(c, h, n);
        let k1 = (k - 1) as nat;
        assert(h1 == wrap(h + 1, n));
        lemma_hops_core(c1, h1, n, k1);
        assert(after_hops(c, h, n, k) == after_hops(c1, h1, n, k1));
        assert(holder_after(h, n, k) == wrap(h1 + k1, n));
        assert(wrap(h1 + k1, n) == wrap(h + k, n));
        assert forall|i: int| 0 <= i < n implies after_hops(c, h, n, k)[i] == c[i] + (if was_hit(
            i,
            h,
            n,
            k,
        ) {
            1int
        } else {
            0int
        }) by {
            let hit1 = was_hit(i, h1, n, k1);
            assert(c1[i] == c[i] + (if i == h1 {
                1int
            } else {
                0int
            }));
            if was_hit(i, h, n, k) {
                let m = choose|m: int| 1 <= m <= k && i == #[trigger] wrap(h + m, n);
                if m != 1 {
                    assert(wrap(h1 + (m - 1), n) == wrap(h + m, n));
                    assert(1 <= m - 1 <= k1 && i == wrap(h1 + (m - 1), n));
                    assert(was_hit(i, h1, n, k1));
                }
            }
            if i == h1 {
                assert(1 <= 1 <= k && i == wrap(h + 1, n));
                assert(was_hit(i, h, n, k));
            }
            if hit1 {
                let m1 = choose|m: int| 1 <= m <= k1 && i == #[trigger] wrap(h1 + m, n);
                assert(wrap(h + (m1 + 1), n) == wrap(h1 + m1, n));
                assert(1 <= m1 + 1 <= k && i == wrap(h + (m1 + 1), n));
                assert(was_hit(i, h, n, k));
            }
            if i == h1 && hit1 {
                let m1 = choose|m: int| 1 <= m <= k1 && i == #[trigger] wrap(h1 + m, n);
                assert(wrap(h1 + m1, n) != h1);
            }
        }
    }
}

/// Token circulation. The counters model each process's sequence counter by
/// ring position and a hop is the holder's successor receiving the token, as
/// the contracts of `Data::recv_message` and `Data::pass_token` state per
/// process. After exactly `n` hops with no snapshot active, every counter
/// has grown by exactly one, and the token is back with the process that
/// held it at the start (so at most that one process holds it).
pub proof fn lemma_token_circulation(c: Seq<int>, h: int, n: int)
    requires
        n >= 1,
        0 <= h < n,
        c.len() == n,
    ensures
        holder_after(h, n, n as nat) == h,
        after_hops(c, h, n, n as nat).len() == n,
        forall|i: int| 0 <= i < n ==> after_hops(c, h, n, n as nat)[i] == c[i] + 1,
{
    lemma_hops_core(c, h, n, n as nat);
    assert(wrap(h + n, n) == h);
    assert forall|i: int| 0 <= i < n implies #[trigger] was_hit(i, h, n, n as nat) by {
        let m = if i > h {
            i - h
        } else {
            i - h + n
        };
        assert(1 <= m <= n && i == wrap(h + m, n));
    }
}

} // verus!
