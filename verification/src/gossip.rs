//! The gossip scheduler: one tick of anti-entropy. Each tick draws a
//! random fan-out, samples that many distinct neighbours, and for each
//! one sends the values it has not been shown to have, marking them as
//! sent. A configurable back-off counter can batch sends; it never
//! touches the message set or the `received` ledger, so convergence
//! does not depend on it.

use vstd::prelude::*;
use crate::message::{Body, Message};
use crate::node::{Node, ids_distinct, id_found};
use crate::rng::rng_range;
use crate::storage::Storage;

verus! {

/// The delay between two scheduler ticks, in milliseconds. The tick
/// itself is `gossip_messages`; the timer that waits this long between
/// ticks belongs to the runtime around the library.
pub const GOSSIP_DELAY: u64 = 500;

/// The scheduler's tuning knobs.
pub struct GossipConfig {
    /// The fewest neighbours contacted per tick (when that many exist).
    pub min_fanout: usize,
    /// The most neighbours contacted per tick.
    pub max_fanout: usize,
    /// A neighbour is sent to only once its idle counter has reached
    /// this; zero disables the throttle.
    pub backoff_ticks: u8,
}

impl Default for GossipConfig {
    /// Fan out to between one and twenty-five neighbours per tick, with
    /// the back-off throttle disabled.
    fn default() -> (r: GossipConfig)
        ensures
            r.min_fanout == 1,
            r.max_fanout == 25,
            r.backoff_ticks == 0,
    {
        GossipConfig { min_fanout: 1, max_fanout: 25, backoff_ticks: 0 }
    }
}

/// What one tick did to one sampled neighbour: either it was skipped —
/// nothing outstanding for it, or its idle counter still under the
/// back-off bound — and only that counter was stepped up, or exactly
/// its outstanding values went out in an envelope of the tick's output,
/// were marked sent, and its counter was stepped down.
pub open spec fn tick_outcome(
    pre: Storage,
    post: Storage,
    sends: Seq<Message>,
    config: GossipConfig,
    n: Seq<char>,
) -> bool {
    ||| {
        &&& (pre.outstanding_for(n) == Set::<u64>::empty()
            || (config.backoff_ticks > 0 && pre.retries_of(n) < config.backoff_ticks))
        &&& post.sent_of(n) == pre.sent_of(n)
        &&& post.retries_of(n) == if pre.retries_of(n) < 255 {
            pre.retries_of(n) + 1
        } else {
            pre.retries_of(n)
        }
    }
    ||| {
        &&& pre.outstanding_for(n) != Set::<u64>::empty()
        &&& (config.backoff_ticks > 0 ==> pre.retries_of(n) >= config.backoff_ticks)
        &&& (exists|k: int| 0 <= k < sends.len() && (#[trigger] sends[k]).dest@ == n)
        &&& post.sent_of(n) == pre.sent_of(n).union(pre.outstanding_for(n))
        &&& post.retries_of(n) == if pre.retries_of(n) > 0 {
            (pre.retries_of(n) - 1) as nat
        } else {
            0nat
        }
    }
}

/// The sample a tick worked through: a set of distinct neighbours whose
/// size is the drawn fan-out — at least the configured minimum, capped
/// by the maximum and by how many neighbours exist — such that every
/// member saw its `tick_outcome` and every non-member's ledger and
/// counter are untouched.
pub open spec fn tick_sample(
    pre: Storage,
    post: Storage,
    sends: Seq<Message>,
    config: GossipConfig,
    node: Node,
    chosen: Set<Seq<char>>,
) -> bool {
    &&& chosen.finite()
    &&& chosen.subset_of(node.neighbour_set())
    &&& chosen.len() <= config.max_fanout
    &&& chosen.len() >= vstd::math::min(
        config.min_fanout as int,
        vstd::math::min(config.max_fanout as int, node.neighbours_view().len() as int),
    )
    &&& forall|n: Seq<char>| #[trigger] chosen.contains(n)
        ==> tick_outcome(pre, post, sends, config, n)
    &&& forall|n: Seq<char>| !chosen.contains(n) ==> #[trigger] post.sent_of(n) == pre.sent_of(n)
        && post.retries_of(n) == pre.retries_of(n)
}

/// One scheduler tick. Samples a random fan-out of distinct neighbours
/// and, for each sampled neighbour with outstanding values whose idle
/// counter has reached the back-off bound, produces a gossip envelope
/// with exactly those values and marks them sent; a sampled neighbour
/// with nothing outstanding, or still under the bound, only has its
/// idle counter raised. The returned envelopes are handed to the bus.
/// The sample itself is random, so the contract exposes it as a ghost
/// witness: some set of the drawn size was worked through in full.
pub fn gossip_messages(
    node: &Node,
    storage: &mut Storage,
    config: &GossipConfig,
    rng: &mut rand::rngs::StdRng,
) -> (sends: Vec<Message>)
    ensures
        final(storage).message_set() == old(storage).message_set(),
        forall|n: Seq<char>| #[trigger] final(storage).received_of(n)
            == old(storage).received_of(n),
        forall|n: Seq<char>| old(storage).sent_of(n).subset_of(
            #[trigger] final(storage).sent_of(n),
        ),
        forall|n: Seq<char>| #[trigger] final(storage).sent_of(n)
            == old(storage).sent_of(n)
            || final(storage).sent_of(n)
            == old(storage).sent_of(n).union(old(storage).outstanding_for(n)),
        forall|n: Seq<char>| #[trigger] final(storage).retries_of(n)
            <= old(storage).retries_of(n) + 1
            && old(storage).retries_of(n) <= final(storage).retries_of(n) + 1,
        sends@.len() <= config.max_fanout,
        sends@.len() <= node.neighbours_view().len(),
        forall|k: int, l: int| 0 <= k < l < sends@.len()
            ==> (#[trigger] sends@[k]).dest@ != (#[trigger] sends@[l]).dest@,
        forall|k: int| 0 <= k < sends@.len() ==> {
            let m = #[trigger] sends@[k];
            &&& m.src@ == node.id_view()
            &&& node.neighbour_set().contains(m.dest@)
            &&& (m.body matches Body::Gossip { messages }
                && messages@.to_set() == old(storage).outstanding_for(m.dest@)
                && messages@.len() > 0
                && messages@.no_duplicates())
            &&& old(storage).outstanding_for(m.dest@) != Set::<u64>::empty()
            &&& config.backoff_ticks > 0
                ==> old(storage).retries_of(m.dest@) >= config.backoff_ticks
            &&& final(storage).sent_of(m.dest@)
                == old(storage).sent_of(m.dest@).union(old(storage).outstanding_for(m.dest@))
            &&& final(storage).outstanding_for(m.dest@) == Set::<u64>::empty()
        },
        exists|chosen: Set<Seq<char>>| tick_sample(
            *old(storage),
            *final(storage),
            sends@,
            *config,
            *node,
            chosen,
        ),
{
    let ghost o = *old(storage);
    let neighbours = node.get_network();
    let nlen = neighbours.len();
    let hi = if config.max_fanout < nlen {
        config.max_fanout
    } else {
        nlen
    };
    let lo = if config.min_fanout < hi {
        config.min_fanout
    } else {
        hi
    };
    let fanout = rng_range(rng, lo, hi);
    let selected = crate::node::sample_ids(neighbours, fanout, rng);
    let src_id = node.get_id();

    let mut sends: Vec<Message> = Vec::new();
    let ghost mut touched = Set::<Seq<char>>::empty();
    let mut i: usize = 0;
    while i < selected.len()
        invariant
            0 <= i <= selected@.len(),
            selected@.len() <= fanout,
            fanout <= config.max_fanout || fanout <= node.neighbours_view().len(),
            selected@.len() <= node.neighbours_view().len(),
            ids_distinct(selected@),
            forall|k: int| 0 <= k < selected@.len()
                ==> id_found(node.neighbours_view(), (#[trigger] selected@[k])@),
            src_id@ == node.id_view(),
            storage.message_set() == o.message_set(),
            forall|n: Seq<char>| #[trigger] storage.received_of(n) == o.received_of(n),
            forall|n: Seq<char>| !touched.contains(n)
                ==> #[trigger] storage.sent_of(n) == o.sent_of(n),
            forall|n: Seq<char>| !touched.contains(n)
                ==> #[trigger] storage.retries_of(n) == o.retries_of(n),
            forall|n: Seq<char>| #[trigger] storage.sent_of(n) == o.sent_of(n)
                || storage.sent_of(n) == o.sent_of(n).union(o.outstanding_for(n)),
            forall|n: Seq<char>| #[trigger] storage.retries_of(n) <= o.retries_of(n) + 1
                && o.retries_of(n) <= storage.retries_of(n) + 1,
            forall|n: Seq<char>| touched.contains(n)
                ==> exists|k: int| 0 <= k < i && (#[trigger] selected@[k])@ == n,
            touched.finite(),
            touched.len() == i,
            touched.subset_of(node.neighbour_set()),
            forall|n: Seq<char>| #[trigger] touched.contains(n)
                ==> tick_outcome(o, *storage, sends@, *config, n),
            sends@.len() <= i,
            forall|k: int, l: int| 0 <= k < l < sends@.len()
                ==> (#[trigger] sends@[k]).dest@ != (#[trigger] sends@[l]).dest@,
            forall|k: int| 0 <= k < sends@.len()
                ==> touched.contains((#[trigger] sends@[k]).dest@),
            forall|k: int| 0 <= k < sends@.len() ==> {
                let m = #[trigger] sends@[k];
                &&& m.src@ == node.id_view()
                &&& node.neighbour_set().contains(m.dest@)
                &&& (m.body matches Body::Gossip { messages }
                    && messages@.to_set() == o.outstanding_for(m.dest@)
                    && messages@.len() > 0
                    && messages@.no_duplicates())
                &&& o.outstanding_for(m.dest@) != Set::<u64>::empty()
                &&& config.backoff_ticks > 0
                    ==> o.retries_of(m.dest@) >= config.backoff_ticks
                &&& storage.sent_of(m.dest@)
                    == o.sent_of(m.dest@).union(o.outstanding_for(m.dest@))
                &&& storage.outstanding_for(m.dest@) == Set::<u64>::empty()
            },
        decreases selected@.len() - i,
    {
        let d = selected[i].clone();
        let ghost dv = d@;
        let ghost pre_store = *storage;
        let ghost pre_sends = sends@;
        let ghost pre_touched = touched;
        proof {
            // This neighbour has not been processed yet: the sample is
            // duplicate-free.
            if touched.contains(dv) {
                let k = choose|k: int| 0 <= k < i && selected@[k]@ == dv;
                assert(selected@[k]@ == selected@[i as int]@);
                assert(false);
            }
            assert(storage.sent_of(dv) == o.sent_of(dv));
            assert(storage.received_of(dv) == o.received_of(dv));
            assert(storage.retries_of(dv) == o.retries_of(dv));
            assert(storage.outstanding_for(dv) =~= o.outstanding_for(dv));
        }
        let outstanding = storage.get_messages_for_node(d.clone());
        let idle = storage.get_retries(d.clone());
        if outstanding.len() == 0 || (config.backoff_ticks > 0 && idle < config.backoff_ticks) {
            proof {
                if outstanding@.len() == 0 {
                    assert(outstanding@.to_set() =~= Set::<u64>::empty());
                }
            }
            storage.increase_or_insert(d);
        } else {
            proof {
                assert(outstanding@.to_set().contains(outstanding@[0]));
                assert(o.outstanding_for(dv) != Set::<u64>::empty());
                // Outstanding values all lie in the message set, so
                // marking them sends the ledger exactly to the union.
                assert(outstanding@.to_set().intersect(storage.message_set())
                    =~= o.outstanding_for(dv));
            }
            let payload = crate::storage::copy_values(&outstanding);
            let message = Message {
                src: src_id.clone(),
                dest: d.clone(),
                body: Body::Gossip { messages: payload },
            };
            storage.add_to_sent_messages(outstanding, d.clone());
            storage.decrease_or_remove(d);
            proof {
                assert(storage.sent_of(dv)
                    == o.sent_of(dv).union(o.outstanding_for(dv)));
                assert(storage.outstanding_for(dv) =~= Set::<u64>::empty());
                assert(id_found(node.neighbours_view(), dv));
                assert(node.neighbour_set().contains(dv));
            }
            sends.push(message);
            proof {
                assert(sends@[sends@.len() - 1].dest@ == dv);
            }
        }
        proof {
            touched = touched.insert(dv);
            vstd::set::axiom_set_insert_len(pre_touched, dv);
            assert(id_found(node.neighbours_view(), dv));
            assert(node.neighbour_set().contains(dv));
            assert forall|n: Seq<char>| touched.contains(n) implies exists|k: int|
                0 <= k < i + 1 && (#[trigger] selected@[k])@ == n by {
                if n == dv {
                    assert(selected@[i as int]@ == n);
                } else {
                    let k = choose|k: int| 0 <= k < i && selected@[k]@ == n;
                    assert(selected@[k]@ == n);
                }
            }
            // Each already-processed neighbour keeps its outcome: this
            // iteration left its ledger and counter alone, and the
            // envelopes emitted so far are a prefix of the new output.
            assert forall|n: Seq<char>| #[trigger] touched.contains(n) implies tick_outcome(
                o,
                *storage,
                sends@,
                *config,
                n,
            ) by {
                if n != dv {
                    assert(tick_outcome(o, pre_store, pre_sends, *config, n));
                    assert(storage.sent_of(n) == pre_store.sent_of(n));
                    assert(storage.retries_of(n) == pre_store.retries_of(n));
                    if exists|k: int| 0 <= k < pre_sends.len() && (#[trigger] pre_sends[k]).dest@
                        == n {
                        let k = choose|k: int|
                            0 <= k < pre_sends.len() && (#[trigger] pre_sends[k]).dest@ == n;
                        assert(sends@[k] == pre_sends[k]);
                    }
                }
            }
        }
        i = i + 1;
    }
    proof {
        // The processed set is the witness: exactly the drawn fan-out
        // of neighbours, each with its outcome.
        assert(vstd::math::min(fanout as int, node.neighbours_view().len() as int)
            == fanout as int);
        assert(selected@.len() == fanout);
        assert(lo as int == vstd::math::min(
            config.min_fanout as int,
            vstd::math::min(config.max_fanout as int, node.neighbours_view().len() as int),
        ));
        assert(tick_sample(o, *storage, sends@, *config, *node, touched));
    }
    sends
}

} // verus!
