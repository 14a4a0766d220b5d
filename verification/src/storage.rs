//! The message store: the node's grow-only set of broadcast values and,
//! per neighbour, a ledger of what has been sent to or received from that
//! neighbour, plus an idle-tick counter used by the gossip back-off policy.
//!
//! The store's data invariant (kept as a type invariant, so it holds at
//! all times): the value set and every ledger entry are free of
//! duplicates, ledger keys are distinct, every ledger entry is a subset
//! of the value set, and every idle counter that is present is positive.

use vstd::prelude::*;

verus! {

/// True when no two entries share a key (keys compared by content).
pub open spec fn keys_distinct<T>(entries: Seq<(String, T)>) -> bool {
    forall|i: int, j: int|
        0 <= i < j < entries.len() ==> entries[i].0@ != entries[j].0@
}

/// True when some entry has key `n`.
pub open spec fn key_found<T>(entries: Seq<(String, T)>, n: Seq<char>) -> bool {
    exists|i: int| 0 <= i < entries.len() && entries[i].0@ == n
}

/// The index of the entry with key `n` (meaningful when `key_found`
/// holds and keys are distinct).
pub open spec fn key_index<T>(entries: Seq<(String, T)>, n: Seq<char>) -> int {
    choose|i: int| 0 <= i < entries.len() && entries[i].0@ == n
}

/// The set of values recorded for key `n`, or the empty set when the
/// key is absent.
pub open spec fn entry_set(entries: Seq<(String, Vec<u64>)>, n: Seq<char>) -> Set<u64> {
    if key_found(entries, n) {
        entries[key_index(entries, n)].1@.to_set()
    } else {
        Set::<u64>::empty()
    }
}

/// The counter recorded for key `n`, or zero when the key is absent.
pub open spec fn counter_of(entries: Seq<(String, u8)>, n: Seq<char>) -> nat {
    if key_found(entries, n) {
        entries[key_index(entries, n)].1 as nat
    } else {
        0
    }
}

/// With distinct keys, an entry whose key is `n` is the entry that
/// `key_index` designates.
pub proof fn lemma_key_index_of<T>(entries: Seq<(String, T)>, n: Seq<char>, i: int)
    requires
        keys_distinct(entries),
        0 <= i < entries.len(),
        entries[i].0@ == n,
    ensures
        key_found(entries, n),
        key_index(entries, n) == i,
{
    assert(key_found(entries, n));
    let k = key_index(entries, n);
    if k != i {
        if k < i {
            assert(entries[k].0@ != entries[i].0@);
        } else {
            assert(entries[i].0@ != entries[k].0@);
        }
    }
}

/// Two entry lists with pointwise equal key contents agree on
/// `key_found`, and (with distinct keys) on `key_index`.
proof fn lemma_keys_pointwise<T, U>(a: Seq<(String, T)>, b: Seq<(String, U)>)
    requires
        a.len() == b.len(),
        forall|j: int| 0 <= j < a.len() ==> a[j].0@ == #[trigger] b[j].0@,
    ensures
        forall|m: Seq<char>| #[trigger] key_found(b, m) == key_found(a, m),
        keys_distinct(a) ==> keys_distinct(b),
        keys_distinct(a) ==> forall|m: Seq<char>|
            key_found(a, m) ==> #[trigger] key_index(b, m) == key_index(a, m),
{
    assert forall|m: Seq<char>| #[trigger] key_found(b, m) == key_found(a, m) by {
        if key_found(a, m) {
            let i = key_index(a, m);
            assert(b[i].0@ == m);
        }
        if key_found(b, m) {
            let i = choose|i: int| 0 <= i < b.len() && b[i].0@ == m;
            assert(a[i].0@ == m);
        }
    }
    if keys_distinct(a) {
        assert forall|i: int, j: int| 0 <= i < j < b.len() implies b[i].0@ != b[j].0@ by {
            assert(a[i].0@ != a[j].0@);
        }
        assert forall|m: Seq<char>| key_found(a, m) implies #[trigger] key_index(b, m)
            == key_index(a, m) by {
            let i = key_index(a, m);
            assert(a[i].0@ == m);
            assert(b[i].0@ == m);
            lemma_key_index_of(b, m, i);
        }
    }
}

/// Replacing the values of one entry (key kept) changes `entry_set`
/// at that key alone.
proof fn lemma_entry_set_update(a: Seq<(String, Vec<u64>)>, b: Seq<(String, Vec<u64>)>, i: int)
    requires
        keys_distinct(a),
        a.len() == b.len(),
        0 <= i < a.len(),
        forall|j: int| 0 <= j < a.len() ==> a[j].0@ == #[trigger] b[j].0@,
        forall|j: int| 0 <= j < a.len() && j != i ==> a[j].1@ == #[trigger] b[j].1@,
    ensures
        keys_distinct(b),
        entry_set(b, a[i].0@) == b[i].1@.to_set(),
        forall|m: Seq<char>| m != a[i].0@ ==> #[trigger] entry_set(b, m) == entry_set(a, m),
{
    lemma_keys_pointwise(a, b);
    lemma_key_index_of(b, a[i].0@, i);
    assert forall|m: Seq<char>| m != a[i].0@ implies #[trigger] entry_set(b, m)
        == entry_set(a, m) by {
        if key_found(a, m) {
            let k = key_index(a, m);
            assert(a[k].0@ == m);
            if k == i {
                assert(false);
            }
        }
    }
}

/// Appending an entry under a fresh key changes `entry_set` at that
/// key alone.
proof fn lemma_entry_set_push(a: Seq<(String, Vec<u64>)>, b: Seq<(String, Vec<u64>)>, n: Seq<char>)
    requires
        keys_distinct(a),
        !key_found(a, n),
        b.len() == a.len() + 1,
        forall|j: int| 0 <= j < a.len() ==> a[j].0@ == #[trigger] b[j].0@
            && a[j].1@ == b[j].1@,
        b[a.len() as int].0@ == n,
    ensures
        keys_distinct(b),
        entry_set(b, n) == b[a.len() as int].1@.to_set(),
        forall|m: Seq<char>| m != n ==> #[trigger] entry_set(b, m) == entry_set(a, m),
{
    assert forall|i: int, j: int| 0 <= i < j < b.len() implies b[i].0@ != b[j].0@ by {
        if j < a.len() {
            assert(a[i].0@ != a[j].0@);
        } else {
            if b[i].0@ == n {
                assert(a[i].0@ == n);
            }
        }
    }
    lemma_key_index_of(b, n, a.len() as int);
    assert forall|m: Seq<char>| m != n implies #[trigger] entry_set(b, m) == entry_set(a, m) by {
        if key_found(a, m) {
            let k = key_index(a, m);
            assert(b[k].0@ == m);
            lemma_key_index_of(b, m, k);
            lemma_key_index_of(a, m, k);
        } else {
            if key_found(b, m) {
                let k = choose|i: int| 0 <= i < b.len() && b[i].0@ == m;
                assert(k == a.len());
            }
        }
    }
}

/// Pushing a value onto a sequence inserts it into the sequence's set.
pub proof fn lemma_to_set_push(s: Seq<u64>, e: u64)
    ensures
        s.push(e).to_set() == s.to_set().insert(e),
{
    assert forall|a: u64| s.push(e).to_set().contains(a) <==> s.to_set().insert(e).contains(a) by {
        if s.push(e).contains(a) {
            let i = choose|i: int| 0 <= i < s.push(e).len() && s.push(e)[i] == a;
            if i < s.len() {
                assert(s[i] == a);
            }
        }
        if s.contains(a) {
            let i = choose|i: int| 0 <= i < s.len() && s[i] == a;
            assert(s.push(e)[i] == a);
        }
        assert(s.push(e)[s.len() as int] == e);
    }
    assert(s.push(e).to_set() =~= s.to_set().insert(e));
}

/// A one-step unfolding of `take` used by loops that walk a sequence.
pub proof fn lemma_take_step<A>(s: Seq<A>, k: int)
    requires
        0 <= k < s.len(),
    ensures
        s.take(k + 1) == s.take(k).push(s[k]),
{
    assert(s.take(k + 1) =~= s.take(k).push(s[k]));
}

/// True of a vector exactly when the value occurs in it.
pub fn contains_value(values: &Vec<u64>, x: u64) -> (r: bool)
    ensures
        r == values@.contains(x),
{
    let mut i: usize = 0;
    while i < values.len()
        invariant
            0 <= i <= values@.len(),
            forall|j: int| 0 <= j < i ==> values@[j] != x,
        decreases values@.len() - i,
    {
        if values[i] == x {
            assert(values@[i as int] == x);
            return true;
        }
        i = i + 1;
    }
    false
}

/// A fresh copy of a vector of values.
pub(crate) fn copy_values(values: &Vec<u64>) -> (r: Vec<u64>)
    ensures
        r@ == values@,
{
    let mut r: Vec<u64> = Vec::new();
    let mut i: usize = 0;
    while i < values.len()
        invariant
            0 <= i <= values@.len(),
            r@ == values@.take(i as int),
        decreases values@.len() - i,
    {
        proof {
            lemma_take_step(values@, i as int);
        }
        r.push(values[i]);
        i = i + 1;
    }
    assert(values@.take(values@.len() as int) =~= values@);
    r
}

/// The index of the entry with the given key, if any.
fn find_key<T>(entries: &Vec<(String, T)>, node: &String) -> (r: Option<usize>)
    ensures
        match r {
            Some(i) => i < entries@.len() && entries@[i as int].0@ == node@,
            None => !key_found(entries@, node@),
        },
{
    let mut i: usize = 0;
    while i < entries.len()
        invariant
            0 <= i <= entries@.len(),
            forall|j: int| 0 <= j < i ==> entries@[j].0@ != node@,
        decreases entries@.len() - i,
    {
        if entries[i].0 == *node {
            return Some(i);
        }
        i = i + 1;
    }
    None
}

/// True when every per-neighbour ledger entry and counter of `b` is
/// the one `a` had.
pub open spec fn ledgers_unchanged(a: Storage, b: Storage) -> bool {
    &&& forall|n: Seq<char>| #[trigger] b.sent_of(n) == a.sent_of(n)
    &&& forall|n: Seq<char>| #[trigger] b.received_of(n) == a.received_of(n)
    &&& forall|n: Seq<char>| #[trigger] b.retries_of(n) == a.retries_of(n)
}

/// The grow-only message store with its per-neighbour delivery ledger.
pub struct Storage {
    messages: Vec<u64>,
    received: Vec<(String, Vec<u64>)>,
    sent: Vec<(String, Vec<u64>)>,
    retry: Vec<(String, u8)>,
}

impl Storage {
    #[verifier::type_invariant]
    spec fn wf(&self) -> bool {
        &&& self.messages@.no_duplicates()
        &&& keys_distinct(self.received@)
        &&& keys_distinct(self.sent@)
        &&& keys_distinct(self.retry@)
        &&& forall|i: int| 0 <= i < self.received@.len()
            ==> (#[trigger] self.received@[i]).1@.no_duplicates()
            && self.received@[i].1@.to_set().subset_of(self.messages@.to_set())
        &&& forall|i: int| 0 <= i < self.sent@.len()
            ==> (#[trigger] self.sent@[i]).1@.no_duplicates()
            && self.sent@[i].1@.to_set().subset_of(self.messages@.to_set())
        &&& forall|i: int| 0 <= i < self.retry@.len() ==> (#[trigger] self.retry@[i]).1 >= 1
    }

    /// The set of all values this node has accepted.
    pub closed spec fn message_set(&self) -> Set<u64> {
        self.messages@.to_set()
    }

    /// The values recorded as received from neighbour `n`.
    pub closed spec fn received_of(&self, n: Seq<char>) -> Set<u64> {
        entry_set(self.received@, n)
    }

    /// The values recorded as sent to neighbour `n`.
    pub closed spec fn sent_of(&self, n: Seq<char>) -> Set<u64> {
        entry_set(self.sent@, n)
    }

    /// The idle-tick counter of neighbour `n` (zero when absent).
    pub closed spec fn retries_of(&self, n: Seq<char>) -> nat {
        counter_of(self.retry@, n)
    }

    /// The values neighbour `n` has not been shown to have: the message
    /// set minus everything sent to or received from `n`.
    pub open spec fn outstanding_for(&self, n: Seq<char>) -> Set<u64> {
        self.message_set().difference(self.sent_of(n)).difference(self.received_of(n))
    }

    /// A store with no values, no ledger entries and no counters.
    pub fn new() -> (r: Storage)
        ensures
            r.message_set() == Set::<u64>::empty(),
            forall|n: Seq<char>| #[trigger] r.sent_of(n) == Set::<u64>::empty(),
            forall|n: Seq<char>| #[trigger] r.received_of(n) == Set::<u64>::empty(),
            forall|n: Seq<char>| #[trigger] r.retries_of(n) == 0,
    {
        let r = Storage {
            messages: Vec::new(),
            received: Vec::new(),
            sent: Vec::new(),
            retry: Vec::new(),
        };
        proof {
            assert(r.messages@.to_set() =~= Set::<u64>::empty());
        }
        r
    }

    /// Inserts a client-submitted value into the message set; a
    /// duplicate leaves the store unchanged.
    pub fn add_message(&mut self, message: u64)
        ensures
            final(self).message_set() == old(self).message_set().insert(message),
            forall|n: Seq<char>| #[trigger] final(self).sent_of(n) == old(self).sent_of(n),
            forall|n: Seq<char>| #[trigger] final(self).received_of(n) == old(self).received_of(n),
            forall|n: Seq<char>| #[trigger] final(self).retries_of(n) == old(self).retries_of(n),
    {
        proof {
            use_type_invariant(&*self);
        }
        if !contains_value(&self.messages, message) {
            let mut msgs = copy_values(&self.messages);
            msgs.push(message);
            proof {
                lemma_to_set_push(old(self).messages@, message);
            }
            self.messages = msgs;
        } else {
            proof {
                assert(old(self).messages@.to_set().insert(message)
                    =~= old(self).messages@.to_set());
            }
        }
    }

    /// Merges values received from `node` by gossip: each value joins
    /// the message set and the `received` ledger of that neighbour.
    pub fn add_messages(&mut self, messages: Vec<u64>, node: String)
        ensures
            final(self).message_set()
                == old(self).message_set().union(messages@.to_set()),
            final(self).received_of(node@)
                == old(self).received_of(node@).union(messages@.to_set()),
            forall|n: Seq<char>| n != node@
                ==> #[trigger] final(self).received_of(n) == old(self).received_of(n),
            forall|n: Seq<char>| #[trigger] final(self).sent_of(n) == old(self).sent_of(n),
            forall|n: Seq<char>| #[trigger] final(self).retries_of(n) == old(self).retries_of(n),
    {
        proof {
            use_type_invariant(&*self);
        }
        // Grow the message set first, so that the ledger entry written
        // below is already covered by it.
        let ghost pre_msgs = self.messages@;
        let mut msgs = copy_values(&self.messages);
        let mut i: usize = 0;
        while i < messages.len()
            invariant
                0 <= i <= messages@.len(),
                msgs@.no_duplicates(),
                msgs@.to_set() == pre_msgs.to_set().union(messages@.take(i as int).to_set()),
            decreases messages@.len() - i,
        {
            let m = messages[i];
            proof {
                lemma_take_step(messages@, i as int);
                lemma_to_set_push(messages@.take(i as int), m);
            }
            if !contains_value(&msgs, m) {
                proof {
                    lemma_to_set_push(msgs@, m);
                }
                msgs.push(m);
            }
            proof {
                assert(msgs@.to_set()
                    =~= pre_msgs.to_set().union(messages@.take(i + 1 as int).to_set()));
            }
            i = i + 1;
        }
        proof {
            assert(messages@.take(messages@.len() as int) =~= messages@);
        }
        self.messages = msgs;

        // Now extend (or create) the `received` entry of this neighbour.
        let ghost pre = self.received@;
        match find_key(&self.received, &node) {
            Some(idx) => {
                proof {
                    lemma_key_index_of(pre, node@, idx as int);
                }
                let key = self.received[idx].0.clone();
                let mut vals = copy_values(&self.received[idx].1);
                let mut j: usize = 0;
                while j < messages.len()
                    invariant
                        0 <= j <= messages@.len(),
                        vals@.no_duplicates(),
                        vals@.to_set()
                            == pre[idx as int].1@.to_set()
                                .union(messages@.take(j as int).to_set()),
                        idx < pre.len(),
                    decreases messages@.len() - j,
                {
                    let m = messages[j];
                    proof {
                        lemma_take_step(messages@, j as int);
                        lemma_to_set_push(messages@.take(j as int), m);
                    }
                    if !contains_value(&vals, m) {
                        proof {
                            lemma_to_set_push(vals@, m);
                        }
                        vals.push(m);
                    }
                    proof {
                        assert(vals@.to_set()
                            =~= pre[idx as int].1@.to_set()
                                .union(messages@.take(j + 1 as int).to_set()));
                    }
                    j = j + 1;
                }
                proof {
                    assert(messages@.take(messages@.len() as int) =~= messages@);
                }
                let rec = rebuild_with(&self.received, idx, key, vals);
                proof {
                    lemma_entry_set_update(pre, rec@, idx as int);
                }
                self.received = rec;
            },
            None => {
                let key = node.clone();
                let mut vals: Vec<u64> = Vec::new();
                let mut j: usize = 0;
                while j < messages.len()
                    invariant
                        0 <= j <= messages@.len(),
                        vals@.no_duplicates(),
                        vals@.to_set() == messages@.take(j as int).to_set(),
                    decreases messages@.len() - j,
                {
                    let m = messages[j];
                    proof {
                        lemma_take_step(messages@, j as int);
                        lemma_to_set_push(messages@.take(j as int), m);
                    }
                    if !contains_value(&vals, m) {
                        proof {
                            lemma_to_set_push(vals@, m);
                        }
                        vals.push(m);
                    }
                    proof {
                        assert(vals@.to_set() =~= messages@.take(j + 1 as int).to_set());
                    }
                    j = j + 1;
                }
                proof {
                    assert(messages@.take(messages@.len() as int) =~= messages@);
                    assert(vals@.to_set() =~= Set::<u64>::empty().union(messages@.to_set()));
                }
                let mut rec = clone_entries(&self.received);
                rec.push((key, vals));
                proof {
                    lemma_entry_set_push(pre, rec@, node@);
                }
                self.received = rec;
            },
        }
    }

    /// A snapshot of every value this node has accepted.
    pub fn get_messages(&self) -> (r: Vec<u64>)
        ensures
            r@.to_set() == self.message_set(),
            r@.no_duplicates(),
    {
        proof {
            use_type_invariant(self);
        }
        copy_values(&self.messages)
    }

    /// The values `node` has not been shown to have: everything in the
    /// message set that is in neither the `sent` nor the `received`
    /// ledger of that neighbour.
    pub fn get_messages_for_node(&self, node: String) -> (r: Vec<u64>)
        ensures
            r@.to_set() == self.outstanding_for(node@),
            r@.no_duplicates(),
            self.sent_of(node@).subset_of(self.message_set()),
            self.received_of(node@).subset_of(self.message_set()),
    {
        proof {
            use_type_invariant(self);
            if key_found(self.sent@, node@) {
                let i = key_index(self.sent@, node@);
            }
            if key_found(self.received@, node@) {
                let i = key_index(self.received@, node@);
            }
        }
        let sent_vals = entry_values(&self.sent, &node);
        let received_vals = entry_values(&self.received, &node);
        let mut out: Vec<u64> = Vec::new();
        let mut i: usize = 0;
        while i < self.messages.len()
            invariant
                0 <= i <= self.messages@.len(),
                out@.no_duplicates(),
                out@.to_set() == self.messages@.take(i as int).to_set()
                    .difference(self.sent_of(node@)).difference(self.received_of(node@)),
                self.messages@.no_duplicates(),
                match sent_vals {
                    Some(v) => key_found(self.sent@, node@) && self.sent_of(node@) == v@.to_set(),
                    None => self.sent_of(node@) == Set::<u64>::empty(),
                },
                match received_vals {
                    Some(v) => key_found(self.received@, node@)
                        && self.received_of(node@) == v@.to_set(),
                    None => self.received_of(node@) == Set::<u64>::empty(),
                },
            decreases self.messages@.len() - i,
        {
            let m = self.messages[i];
            proof {
                lemma_take_step(self.messages@, i as int);
                lemma_to_set_push(self.messages@.take(i as int), m);
            }
            let in_sent = match sent_vals {
                Some(v) => contains_value(v, m),
                None => false,
            };
            let in_received = match received_vals {
                Some(v) => contains_value(v, m),
                None => false,
            };
            if !in_sent && !in_received {
                proof {
                    // The source sequence has no duplicates, so this
                    // value cannot already be in the output.
                    if out@.contains(m) {
                        assert(out@.to_set().contains(m));
                        assert(self.messages@.take(i as int).to_set().contains(m));
                        assert(self.messages@.take(i as int).contains(m));
                        let j = choose|j: int|
                            0 <= j < self.messages@.take(i as int).len()
                                && self.messages@.take(i as int)[j] == m;
                        assert(self.messages@[j] == self.messages@[i as int]);
                        assert(false);
                    }
                    lemma_to_set_push(out@, m);
                }
                out.push(m);
            }
            proof {
                assert(out@.to_set()
                    =~= self.messages@.take(i + 1 as int).to_set()
                        .difference(self.sent_of(node@)).difference(self.received_of(node@)));
            }
            i = i + 1;
        }
        proof {
            assert(self.messages@.take(self.messages@.len() as int) =~= self.messages@);
        }
        out
    }

    /// `get_messages_for_node` under the name the scheduler uses.
    pub fn get_new_messages_for_neighbour(&self, node: String) -> (r: Vec<u64>)
        ensures
            r@.to_set() == self.outstanding_for(node@),
            r@.no_duplicates(),
            self.sent_of(node@).subset_of(self.message_set()),
            self.received_of(node@).subset_of(self.message_set()),
    {
        self.get_messages_for_node(node)
    }

    /// Records values as sent to `node`, directly after a gossip send
    /// or inferred from a gossip acknowledgment. Values the store has
    /// never accepted are ignored, so the ledger stays within the
    /// message set even under an acknowledgment naming unknown values.
    pub fn add_to_sent_messages(&mut self, messages: Vec<u64>, node: String)
        ensures
            final(self).sent_of(node@)
                == old(self).sent_of(node@)
                    .union(messages@.to_set().intersect(old(self).message_set())),
            forall|n: Seq<char>| n != node@
                ==> #[trigger] final(self).sent_of(n) == old(self).sent_of(n),
            final(self).message_set() == old(self).message_set(),
            forall|n: Seq<char>| #[trigger] final(self).received_of(n) == old(self).received_of(n),
            forall|n: Seq<char>| #[trigger] final(self).retries_of(n) == old(self).retries_of(n),
    {
        proof {
            use_type_invariant(&*self);
        }
        let ghost pre = self.sent@;
        let ghost msgset = self.messages@.to_set();
        match find_key(&self.sent, &node) {
            Some(idx) => {
                proof {
                    lemma_key_index_of(pre, node@, idx as int);
                }
                let key = self.sent[idx].0.clone();
                let mut vals = copy_values(&self.sent[idx].1);
                let mut j: usize = 0;
                while j < messages.len()
                    invariant
                        0 <= j <= messages@.len(),
                        vals@.no_duplicates(),
                        vals@.to_set()
                            == pre[idx as int].1@.to_set()
                                .union(messages@.take(j as int).to_set().intersect(msgset)),
                        vals@.to_set().subset_of(msgset),
                        idx < pre.len(),
                        msgset == self.messages@.to_set(),
                    decreases messages@.len() - j,
                {
                    let m = messages[j];
                    proof {
                        lemma_take_step(messages@, j as int);
                        lemma_to_set_push(messages@.take(j as int), m);
                    }
                    let known = contains_value(&self.messages, m);
                    if known && !contains_value(&vals, m) {
                        proof {
                            lemma_to_set_push(vals@, m);
                        }
                        vals.push(m);
                    }
                    proof {
                        assert(vals@.to_set()
                            =~= pre[idx as int].1@.to_set()
                                .union(messages@.take(j + 1 as int).to_set().intersect(msgset)));
                    }
                    j = j + 1;
                }
                proof {
                    assert(messages@.take(messages@.len() as int) =~= messages@);
                }
                let snt = rebuild_with(&self.sent, idx, key, vals);
                proof {
                    lemma_entry_set_update(pre, snt@, idx as int);
                }
                self.sent = snt;
            },
            None => {
                let key = node.clone();
                let mut vals: Vec<u64> = Vec::new();
                let mut j: usize = 0;
                while j < messages.len()
                    invariant
                        0 <= j <= messages@.len(),
                        vals@.no_duplicates(),
                        vals@.to_set() == messages@.take(j as int).to_set().intersect(msgset),
                        vals@.to_set().subset_of(msgset),
                        msgset == self.messages@.to_set(),
                    decreases messages@.len() - j,
                {
                    let m = messages[j];
                    proof {
                        lemma_take_step(messages@, j as int);
                        lemma_to_set_push(messages@.take(j as int), m);
                    }
                    let known = contains_value(&self.messages, m);
                    if known && !contains_value(&vals, m) {
                        proof {
                            lemma_to_set_push(vals@, m);
                        }
                        vals.push(m);
                    }
                    proof {
                        assert(vals@.to_set()
                            =~= messages@.take(j + 1 as int).to_set().intersect(msgset));
                    }
                    j = j + 1;
                }
                proof {
                    assert(messages@.take(messages@.len() as int) =~= messages@);
                    assert(vals@.to_set()
                        =~= Set::<u64>::empty().union(messages@.to_set().intersect(msgset)));
                }
                let mut snt = clone_entries(&self.sent);
                snt.push((key, vals));
                proof {
                    lemma_entry_set_push(pre, snt@, node@);
                }
                self.sent = snt;
            },
        }
    }

    /// The idle-tick counter of `node`, zero when none is recorded.
    pub fn get_retries(&self, node: String) -> (r: u8)
        ensures
            r as nat == self.retries_of(node@),
    {
        proof {
            use_type_invariant(self);
        }
        match find_key(&self.retry, &node) {
            Some(i) => {
                proof {
                    lemma_key_index_of(self.retry@, node@, i as int);
                }
                self.retry[i].1
            },
            None => 0,
        }
    }

    /// Bumps the idle-tick counter of `node` (saturating), creating it
    /// at one when absent.
    pub fn increase_or_insert(&mut self, node: String)
        ensures
            final(self).retries_of(node@)
                == if old(self).retries_of(node@) < 255 {
                    old(self).retries_of(node@) + 1
                } else {
                    old(self).retries_of(node@)
                },
            forall|n: Seq<char>| n != node@
                ==> #[trigger] final(self).retries_of(n) == old(self).retries_of(n),
            final(self).message_set() == old(self).message_set(),
            forall|n: Seq<char>| #[trigger] final(self).sent_of(n) == old(self).sent_of(n),
            forall|n: Seq<char>| #[trigger] final(self).received_of(n) == old(self).received_of(n),
    {
        proof {
            use_type_invariant(&*self);
        }
        let ghost pre = self.retry@;
        match find_key(&self.retry, &node) {
            Some(idx) => {
                proof {
                    lemma_key_index_of(pre, node@, idx as int);
                }
                let key = self.retry[idx].0.clone();
                let count = self.retry[idx].1;
                let bumped: u8 = if count < 255 {
                    count + 1
                } else {
                    count
                };
                let upd = rebuild_counters(&self.retry, idx, key, bumped);
                proof {
                    lemma_counter_update(pre, upd@, idx as int);
                }
                self.retry = upd;
            },
            None => {
                let key = node.clone();
                let mut upd = clone_counters(&self.retry);
                upd.push((key, 1));
                proof {
                    lemma_counter_push(pre, upd@, node@);
                }
                self.retry = upd;
            },
        }
    }

    /// Steps the idle-tick counter of `node` down by one, dropping the
    /// entry when it reaches zero; absent entries are left alone.
    pub fn decrease_or_remove(&mut self, node: String)
        ensures
            final(self).retries_of(node@)
                == if old(self).retries_of(node@) > 0 {
                    (old(self).retries_of(node@) - 1) as nat
                } else {
                    0nat
                },
            forall|n: Seq<char>| n != node@
                ==> #[trigger] final(self).retries_of(n) == old(self).retries_of(n),
            final(self).message_set() == old(self).message_set(),
            forall|n: Seq<char>| #[trigger] final(self).sent_of(n) == old(self).sent_of(n),
            forall|n: Seq<char>| #[trigger] final(self).received_of(n) == old(self).received_of(n),
    {
        proof {
            use_type_invariant(&*self);
        }
        let ghost pre = self.retry@;
        match find_key(&self.retry, &node) {
            Some(idx) => {
                proof {
                    lemma_key_index_of(pre, node@, idx as int);
                }
                let count = self.retry[idx].1;
                if count <= 1 {
                    let mut upd = clone_counters(&self.retry);
                    upd.remove(idx);
                    proof {
                        lemma_counter_remove(pre, upd@, idx as int);
                    }
                    self.retry = upd;
                } else {
                    let key = self.retry[idx].0.clone();
                    let upd = rebuild_counters(&self.retry, idx, key, count - 1);
                    proof {
                        lemma_counter_update(pre, upd@, idx as int);
                    }
                    self.retry = upd;
                }
            },
            None => {},
        }
    }
}

/// The values recorded under the given key, when an entry exists.
fn entry_values<'a>(entries: &'a Vec<(String, Vec<u64>)>, node: &String) -> (r: Option<
    &'a Vec<u64>,
>)
    requires
        keys_distinct(entries@),
    ensures
        match r {
            Some(v) => key_found(entries@, node@)
                && entry_set(entries@, node@) == v@.to_set(),
            None => !key_found(entries@, node@),
        },
{
    match find_key(entries, node) {
        Some(i) => {
            proof {
                lemma_key_index_of(entries@, node@, i as int);
            }
            Some(&entries[i].1)
        },
        None => None,
    }
}

/// A copy of a ledger list with entry `idx` replaced by the given key
/// and values (the key must match the old one in content).
fn rebuild_with(entries: &Vec<(String, Vec<u64>)>, idx: usize, key: String, vals: Vec<u64>) -> (r:
    Vec<(String, Vec<u64>)>)
    requires
        idx < entries@.len(),
        key@ == entries@[idx as int].0@,
    ensures
        r@.len() == entries@.len(),
        forall|j: int| 0 <= j < entries@.len() ==> entries@[j].0@ == #[trigger] r@[j].0@,
        forall|j: int| 0 <= j < entries@.len() && j != idx
            ==> entries@[j].1@ == #[trigger] r@[j].1@,
        r@[idx as int].1@ == vals@,
{
    let mut r: Vec<(String, Vec<u64>)> = Vec::new();
    let mut i: usize = 0;
    let mut replacement = Some((key, vals));
    while i < entries.len()
        invariant
            0 <= i <= entries@.len(),
            idx < entries@.len(),
            r@.len() == i,
            forall|j: int| 0 <= j < i ==> entries@[j].0@ == #[trigger] r@[j].0@,
            forall|j: int| 0 <= j < i && j != idx ==> entries@[j].1@ == #[trigger] r@[j].1@,
            i > idx ==> r@[idx as int].1@ == vals@,
            i <= idx ==> (replacement matches Some(p) && p.0@ == entries@[idx as int].0@
                && p.1@ == vals@),
        decreases entries@.len() - i,
    {
        if i == idx {
            let mut taken = None;
            core::mem::swap(&mut taken, &mut replacement);
            match taken {
                Some(p) => {
                    r.push(p);
                },
                None => {
                    proof {
                        assert(false);
                    }
                },
            }
        } else {
            let k = entries[i].0.clone();
            let v = copy_values(&entries[i].1);
            r.push((k, v));
        }
        i = i + 1;
    }
    r
}

/// A fresh copy of a ledger list.
fn clone_entries(entries: &Vec<(String, Vec<u64>)>) -> (r: Vec<(String, Vec<u64>)>)
    ensures
        r@.len() == entries@.len(),
        forall|j: int| 0 <= j < entries@.len() ==> entries@[j].0@ == #[trigger] r@[j].0@,
        forall|j: int| 0 <= j < entries@.len() ==> entries@[j].1@ == #[trigger] r@[j].1@,
{
    let mut r: Vec<(String, Vec<u64>)> = Vec::new();
    let mut i: usize = 0;
    while i < entries.len()
        invariant
            0 <= i <= entries@.len(),
            r@.len() == i,
            forall|j: int| 0 <= j < i ==> entries@[j].0@ == #[trigger] r@[j].0@,
            forall|j: int| 0 <= j < i ==> entries@[j].1@ == #[trigger] r@[j].1@,
        decreases entries@.len() - i,
    {
        let k = entries[i].0.clone();
        let v = copy_values(&entries[i].1);
        r.push((k, v));
        i = i + 1;
    }
    r
}

/// A fresh copy of a counter list.
fn clone_counters(entries: &Vec<(String, u8)>) -> (r: Vec<(String, u8)>)
    ensures
        r@ == entries@,
{
    let mut r: Vec<(String, u8)> = Vec::new();
    let mut i: usize = 0;
    while i < entries.len()
        invariant
            0 <= i <= entries@.len(),
            r@ == entries@.take(i as int),
        decreases entries@.len() - i,
    {
        let k = entries[i].0.clone();
        proof {
            lemma_take_step(entries@, i as int);
            assert((k, entries@[i as int].1) == entries@[i as int]);
        }
        r.push((k, entries[i].1));
        i = i + 1;
    }
    proof {
        assert(entries@.take(entries@.len() as int) =~= entries@);
    }
    r
}

/// A copy of a counter list with entry `idx` replaced.
fn rebuild_counters(entries: &Vec<(String, u8)>, idx: usize, key: String, count: u8) -> (r: Vec<
    (String, u8),
>)
    requires
        idx < entries@.len(),
        key@ == entries@[idx as int].0@,
    ensures
        r@.len() == entries@.len(),
        forall|j: int| 0 <= j < entries@.len() ==> entries@[j].0@ == #[trigger] r@[j].0@,
        forall|j: int| 0 <= j < entries@.len() && j != idx
            ==> entries@[j].1 == #[trigger] r@[j].1,
        r@[idx as int].1 == count,
{
    let mut r: Vec<(String, u8)> = Vec::new();
    let mut i: usize = 0;
    while i < entries.len()
        invariant
            0 <= i <= entries@.len(),
            idx < entries@.len(),
            r@.len() == i,
            key@ == entries@[idx as int].0@,
            forall|j: int| 0 <= j < i ==> entries@[j].0@ == #[trigger] r@[j].0@,
            forall|j: int| 0 <= j < i && j != idx ==> entries@[j].1 == #[trigger] r@[j].1,
            i > idx ==> r@[idx as int].1 == count,
        decreases entries@.len() - i,
    {
        if i == idx {
            let k = entries[i].0.clone();
            r.push((k, count));
        } else {
            let k = entries[i].0.clone();
            r.push((k, entries[i].1));
        }
        i = i + 1;
    }
    r
}

/// Replacing the counter of one entry (key kept) changes `counter_of`
/// at that key alone.
proof fn lemma_counter_update(a: Seq<(String, u8)>, b: Seq<(String, u8)>, i: int)
    requires
        keys_distinct(a),
        a.len() == b.len(),
        0 <= i < a.len(),
        forall|j: int| 0 <= j < a.len() ==> a[j].0@ == #[trigger] b[j].0@,
        forall|j: int| 0 <= j < a.len() && j != i ==> a[j].1 == #[trigger] b[j].1,
    ensures
        keys_distinct(b),
        counter_of(b, a[i].0@) == b[i].1 as nat,
        forall|m: Seq<char>| m != a[i].0@ ==> #[trigger] counter_of(b, m) == counter_of(a, m),
{
    lemma_keys_pointwise(a, b);
    lemma_key_index_of(b, a[i].0@, i);
    assert forall|m: Seq<char>| m != a[i].0@ implies #[trigger] counter_of(b, m)
        == counter_of(a, m) by {
        if key_found(a, m) {
            let k = key_index(a, m);
            assert(a[k].0@ == m);
            if k == i {
                assert(false);
            }
        }
    }
}

/// Appending a counter under a fresh key changes `counter_of` at that
/// key alone.
proof fn lemma_counter_push(a: Seq<(String, u8)>, b: Seq<(String, u8)>, n: Seq<char>)
    requires
        keys_distinct(a),
        !key_found(a, n),
        b.len() == a.len() + 1,
        forall|j: int| 0 <= j < a.len() ==> a[j].0@ == #[trigger] b[j].0@ && a[j].1 == b[j].1,
        b[a.len() as int].0@ == n,
    ensures
        keys_distinct(b),
        counter_of(b, n) == b[a.len() as int].1 as nat,
        forall|m: Seq<char>| m != n ==> #[trigger] counter_of(b, m) == counter_of(a, m),
{
    assert forall|i: int, j: int| 0 <= i < j < b.len() implies b[i].0@ != b[j].0@ by {
        if j < a.len() {
            assert(a[i].0@ != a[j].0@);
        } else {
            if b[i].0@ == n {
                assert(a[i].0@ == n);
            }
        }
    }
    lemma_key_index_of(b, n, a.len() as int);
    assert forall|m: Seq<char>| m != n implies #[trigger] counter_of(b, m) == counter_of(a, m) by {
        if key_found(a, m) {
            let k = key_index(a, m);
            assert(b[k].0@ == m);
            lemma_key_index_of(b, m, k);
            lemma_key_index_of(a, m, k);
        } else {
            if key_found(b, m) {
                let k = choose|i: int| 0 <= i < b.len() && b[i].0@ == m;
                assert(k == a.len());
            }
        }
    }
}

/// Removing one entry drops `counter_of` to zero at its key alone.
proof fn lemma_counter_remove(a: Seq<(String, u8)>, b: Seq<(String, u8)>, i: int)
    requires
        keys_distinct(a),
        0 <= i < a.len(),
        b == a.remove(i),
    ensures
        keys_distinct(b),
        counter_of(b, a[i].0@) == 0,
        forall|m: Seq<char>| m != a[i].0@ ==> #[trigger] counter_of(b, m) == counter_of(a, m),
{
    assert forall|p: int, q: int| 0 <= p < q < b.len() implies b[p].0@ != b[q].0@ by {
        let p0 = if p < i { p } else { p + 1 };
        let q0 = if q < i { q } else { q + 1 };
        assert(b[p] == a[p0]);
        assert(b[q] == a[q0]);
        assert(a[p0].0@ != a[q0].0@);
    }
    assert(!key_found(b, a[i].0@)) by {
        if key_found(b, a[i].0@) {
            let k = choose|k: int| 0 <= k < b.len() && b[k].0@ == a[i].0@;
            let k0 = if k < i { k } else { k + 1 };
            assert(b[k] == a[k0]);
            assert(a[k0].0@ == a[i].0@);
        }
    }
    assert forall|m: Seq<char>| m != a[i].0@ implies #[trigger] counter_of(b, m)
        == counter_of(a, m) by {
        if key_found(a, m) {
            let k = key_index(a, m);
            assert(a[k].0@ == m);
            let kb = if k < i { k } else { k - 1 };
            assert(b[kb] == a[k]);
            lemma_key_index_of(b, m, kb);
            lemma_key_index_of(a, m, k);
        } else {
            if key_found(b, m) {
                let k = choose|k: int| 0 <= k < b.len() && b[k].0@ == m;
                let k0 = if k < i { k } else { k + 1 };
                assert(b[k] == a[k0]);
            }
        }
    }
}

} // verus!
