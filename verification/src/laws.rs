//! The library's laws: properties that relate several operations,
//! stated over the same views the operations' contracts use.

use vstd::prelude::*;
use crate::storage::Storage;

verus! {

/// Adding a value locally is idempotent: if `s1` is `s0` after
/// `add_message(v)` and `s2` is `s1` after `add_message(v)` again, the
/// second application changes nothing that `allValues` can see.
pub proof fn lemma_add_local_idempotent(s0: Storage, s1: Storage, s2: Storage, v: u64)
    requires
        s1.message_set() == s0.message_set().insert(v),
        s2.message_set() == s1.message_set().insert(v),
    ensures
        s2.message_set() == s1.message_set(),
{
    assert(s2.message_set() =~= s1.message_set());
}

/// The ledger never shrinks: any operation whose transition leaves a
/// neighbour's ledger sets equal or unions something into them keeps
/// everything recorded before.
pub proof fn lemma_ledger_monotone(
    s0: Storage,
    s1: Storage,
    n: Seq<char>,
    sent_added: Set<u64>,
    received_added: Set<u64>,
)
    requires
        s1.sent_of(n) == s0.sent_of(n).union(sent_added) || s1.sent_of(n) == s0.sent_of(n),
        s1.received_of(n) == s0.received_of(n).union(received_added) || s1.received_of(n)
            == s0.received_of(n),
    ensures
        s0.sent_of(n).subset_of(s1.sent_of(n)),
        s0.received_of(n).subset_of(s1.received_of(n)),
{
}

/// No redundant resend: a value the ledger records as sent to or
/// received from a neighbour is never outstanding for it.
pub proof fn lemma_no_redundant_resend(s: Storage, n: Seq<char>, v: u64)
    requires
        s.sent_of(n).contains(v) || s.received_of(n).contains(v),
    ensures
        !s.outstanding_for(n).contains(v),
{
}

/// Merging from peers commutes and absorbs duplication: applying
/// `addFromPeer` batches `a` then `b` reaches the same message set as
/// `b` then `a`, and a repeated batch the same set as one.
pub proof fn lemma_merge_order_insensitive(
    s0: Storage,
    s1: Storage,
    s2: Storage,
    t1: Storage,
    t2: Storage,
    a: Set<u64>,
    b: Set<u64>,
)
    requires
        s1.message_set() == s0.message_set().union(a),
        s2.message_set() == s1.message_set().union(b),
        t1.message_set() == s0.message_set().union(b),
        t2.message_set() == t1.message_set().union(a),
    ensures
        s2.message_set() == t2.message_set(),
        s2.message_set() == s0.message_set().union(a.union(b)),
        a == b ==> s1.message_set() == s2.message_set(),
{
    assert(s2.message_set() =~= t2.message_set());
    assert(s2.message_set() =~= s0.message_set().union(a.union(b)));
    if a == b {
        assert(s1.message_set() =~= s2.message_set());
    }
}

/// One delivered gossip round makes the receiver cover the sender: if
/// everything the sender's ledger already records for the neighbour has
/// indeed reached it, then after the neighbour merges one full payload
/// its message set holds everything the sender holds. Repeated rounds
/// over a connected graph therefore drive every set to the union of all
/// accepted values.
pub proof fn lemma_one_round_propagation(
    sender: Storage,
    receiver_before: Set<u64>,
    receiver_after: Set<u64>,
    n: Seq<char>,
)
    requires
        receiver_after == receiver_before.union(sender.outstanding_for(n)),
        sender.sent_of(n).subset_of(receiver_before),
        sender.received_of(n).subset_of(receiver_before),
    ensures
        sender.message_set().subset_of(receiver_after),
{
}

/// One gossip payload closes the gap: the values picked for a
/// neighbour, together with what its ledger already records, cover this
/// node's whole message set. Repeated ticks therefore drive every
/// reachable neighbour to hold a superset of this node's set, which is
/// the local step behind network-wide convergence.
pub proof fn lemma_gossip_covers(s: Storage, n: Seq<char>)
    ensures
        s.message_set().subset_of(
            s.outstanding_for(n).union(s.sent_of(n)).union(s.received_of(n)),
        ),
{
}

} // verus!
