//! Node identity and topology: this node's id, the cluster roster, and
//! the neighbour set it gossips with, fixed once at startup by one of
//! three interchangeable policies.

use vstd::prelude::*;
use crate::rng::rng_range;

verus! {

/// True when some element of `ids` has content `n`.
pub open spec fn id_found(ids: Seq<String>, n: Seq<char>) -> bool {
    exists|i: int| 0 <= i < ids.len() && ids[i]@ == n
}

/// The index of the element with content `n` (meaningful when
/// `id_found` holds and the elements are distinct).
pub open spec fn id_index(ids: Seq<String>, n: Seq<char>) -> int {
    choose|i: int| 0 <= i < ids.len() && ids[i]@ == n
}

/// True when no two elements have the same content.
pub open spec fn ids_distinct(ids: Seq<String>) -> bool {
    forall|i: int, j: int| 0 <= i < j < ids.len() ==> ids[i]@ != ids[j]@
}

/// The set of contents of the elements.
pub open spec fn id_set(ids: Seq<String>) -> Set<Seq<char>> {
    Set::new(|n: Seq<char>| id_found(ids, n))
}

/// The roster with later repetitions of an id dropped.
pub open spec fn dedup_ids(ids: Seq<String>) -> Seq<String>
    decreases ids.len(),
{
    if ids.len() == 0 {
        Seq::empty()
    } else {
        let rest = dedup_ids(ids.drop_last());
        if id_found(rest, ids.last()@) {
            rest
        } else {
            rest.push(ids.last())
        }
    }
}

/// `dedup_ids` keeps exactly the ids of the roster, each once.
pub proof fn lemma_dedup_ids(ids: Seq<String>)
    ensures
        ids_distinct(dedup_ids(ids)),
        forall|n: Seq<char>| #[trigger] id_found(dedup_ids(ids), n) == id_found(ids, n),
        dedup_ids(ids).len() <= ids.len(),
    decreases ids.len(),
{
    if ids.len() == 0 {
    } else {
        let rest = dedup_ids(ids.drop_last());
        lemma_dedup_ids(ids.drop_last());
        let d = dedup_ids(ids);
        if id_found(rest, ids.last()@) {
            assert(d == rest);
        } else {
            assert(d == rest.push(ids.last()));
        }
        if !id_found(rest, ids.last()@) {
            assert forall|i: int, j: int| 0 <= i < j < d.len() implies d[i]@ != d[j]@ by {
                if j < rest.len() {
                    assert(rest[i]@ != rest[j]@);
                } else {
                    assert(d[j]@ == ids.last()@);
                    if d[i]@ == ids.last()@ {
                        assert(rest[i]@ == ids.last()@);
                    }
                }
            }
        }
        assert forall|n: Seq<char>| #[trigger] id_found(d, n) == id_found(ids, n) by {
            if id_found(d, n) {
                let i = choose|i: int| 0 <= i < d.len() && d[i]@ == n;
                if i < rest.len() {
                    assert(d[i] == rest[i]);
                    assert(rest[i]@ == n);
                    assert(id_found(rest, n));
                    assert(id_found(ids.drop_last(), n));
                    let k = choose|k: int| 0 <= k < ids.len() - 1 && ids.drop_last()[k]@ == n;
                    assert(ids[k]@ == n);
                } else {
                    assert(ids.last()@ == n);
                    assert(ids[ids.len() - 1]@ == n);
                }
            }
            if id_found(ids, n) {
                let k = choose|k: int| 0 <= k < ids.len() && ids[k]@ == n;
                if k < ids.len() - 1 {
                    assert(ids.drop_last()[k]@ == n);
                    assert(id_found(rest, n));
                    let i = choose|i: int| 0 <= i < rest.len() && rest[i]@ == n;
                    assert(d[i]@ == n);
                } else {
                    if id_found(rest, n) {
                        let i = choose|i: int| 0 <= i < rest.len() && rest[i]@ == n;
                        assert(d[i]@ == n);
                    } else {
                        assert(d[d.len() - 1]@ == n);
                    }
                }
            }
        }
    }
}

/// With distinct elements, an element of content `n` sits where
/// `id_index` points.
pub proof fn lemma_id_index_of(ids: Seq<String>, n: Seq<char>, i: int)
    requires
        ids_distinct(ids),
        0 <= i < ids.len(),
        ids[i]@ == n,
    ensures
        id_found(ids, n),
        id_index(ids, n) == i,
{
    assert(id_found(ids, n));
    let k = id_index(ids, n);
    if k != i {
        if k < i {
            assert(ids[k]@ != ids[i]@);
        } else {
            assert(ids[i]@ != ids[k]@);
        }
    }
}

/// The ring links of `me` in the deduplicated roster: the id before it
/// and the id after it, wrapping around.
pub open spec fn ring_links(roster: Seq<String>, me: Seq<char>) -> (Seq<char>, Seq<char>) {
    let u = dedup_ids(roster);
    let i = id_index(u, me);
    let p = if i == 0 { u.len() - 1 } else { i - 1 };
    let s = if i + 1 == u.len() { 0int } else { i + 1 };
    (u[p]@, u[s]@)
}

/// How the neighbour set is drawn from the roster.
pub enum TopologyPolicy {
    /// Every other roster member is a neighbour.
    FullMesh,
    /// The ring predecessor and successor, plus `extra` random others.
    RingPlusRandom { extra: usize },
    /// A uniform random sample of `size` other roster members.
    RandomSubset { size: usize },
}

/// Why initialization was refused.
#[derive(Debug, PartialEq, Eq, Structural)]
pub enum ConfigError {
    /// The node's own id does not appear in the supplied roster.
    SelfNotInRoster,
}

/// This node's identity and its fixed neighbour set.
pub struct Node {
    id: String,
    available_nodes: Vec<String>,
    neighbours: Vec<String>,
}

impl Node {
    #[verifier::type_invariant]
    spec fn wf(&self) -> bool {
        &&& ids_distinct(self.neighbours@)
        &&& forall|i: int| 0 <= i < self.neighbours@.len()
            ==> (#[trigger] self.neighbours@[i])@ != self.id@
        &&& forall|i: int| 0 <= i < self.neighbours@.len()
            ==> id_found(self.available_nodes@, (#[trigger] self.neighbours@[i])@)
    }

    /// This node's id.
    pub closed spec fn id_view(&self) -> Seq<char> {
        self.id@
    }

    /// The roster the node was initialized with.
    pub closed spec fn roster_view(&self) -> Seq<String> {
        self.available_nodes@
    }

    /// The neighbour list, in the order the scheduler samples from.
    pub closed spec fn neighbours_view(&self) -> Seq<String> {
        self.neighbours@
    }

    /// The set of neighbour ids.
    pub open spec fn neighbour_set(&self) -> Set<Seq<char>> {
        id_set(self.neighbours_view())
    }

    /// Resolves the node's identity and neighbour set from the cluster
    /// roster. Refused when `self_id` is not a roster member.
    pub fn init(
        self_id: String,
        roster: Vec<String>,
        policy: &TopologyPolicy,
        rng: &mut rand::rngs::StdRng,
    ) -> (r: Result<Node, ConfigError>)
        ensures
            r is Err <==> !id_found(roster@, self_id@),
            r matches Err(e) ==> e == ConfigError::SelfNotInRoster,
            r matches Ok(node) ==> {
                &&& node.id_view() == self_id@
                &&& node.roster_view() == roster@
                &&& node.neighbour_set().subset_of(id_set(roster@).remove(self_id@))
                &&& match *policy {
                    TopologyPolicy::FullMesh => node.neighbour_set()
                        == id_set(roster@).remove(self_id@),
                    TopologyPolicy::RingPlusRandom { extra } => {
                        &&& node.neighbours_view().len() <= 2 + extra
                        &&& dedup_ids(roster@).len() <= 1 ==> node.neighbours_view().len() == 0
                        &&& dedup_ids(roster@).len() >= 2 ==> {
                            let links = if dedup_ids(roster@).len() == 2 { 1int } else { 2int };
                            &&& node.neighbour_set().contains(ring_links(roster@, self_id@).0)
                            &&& node.neighbour_set().contains(ring_links(roster@, self_id@).1)
                            &&& node.neighbours_view().len() == links + vstd::math::min(
                                extra as int,
                                dedup_ids(roster@).len() - 1 - links,
                            )
                        }
                    },
                    TopologyPolicy::RandomSubset { size } => node.neighbours_view().len()
                        == vstd::math::min(size as int, dedup_ids(roster@).len() - 1),
                }
            },
    {
        let ghost g_roster = roster@;
        let uniq = dedup_roster(&roster);
        proof {
            lemma_dedup_ids(g_roster);
        }
        if !contains_id(&uniq, &self_id) {
            return Err(ConfigError::SelfNotInRoster);
        }
        let neighbours = init_topology(policy, &uniq, &self_id, rng);
        let node = Node { id: self_id, available_nodes: roster, neighbours };
        proof {
            assert forall|i: int| 0 <= i < node.neighbours@.len() implies id_found(
                node.available_nodes@,
                (#[trigger] node.neighbours@[i])@,
            ) by {
                assert(id_found(uniq@, node.neighbours@[i]@));
            }
        }
        Ok(node)
    }

    /// This node's id.
    pub fn get_id(&self) -> (r: String)
        ensures
            r@ == self.id_view(),
    {
        self.id.clone()
    }

    /// A copy of the neighbour list. It is duplicate-free, never names
    /// this node, and stays within the roster.
    pub fn get_neighbours(&self) -> (r: Vec<String>)
        ensures
            r@ == self.neighbours_view(),
            ids_distinct(r@),
            forall|i: int| 0 <= i < r@.len() ==> (#[trigger] r@[i])@ != self.id_view(),
            forall|i: int| 0 <= i < r@.len() ==> id_found(self.roster_view(), (#[trigger] r@[i])@),
    {
        proof {
            use_type_invariant(self);
        }
        clone_ids(&self.neighbours)
    }

    /// The nodes this one gossips with; the scheduler's sampling pool.
    pub fn get_network(&self) -> (r: Vec<String>)
        ensures
            r@ == self.neighbours_view(),
            ids_distinct(r@),
            forall|i: int| 0 <= i < r@.len() ==> (#[trigger] r@[i])@ != self.id_view(),
            forall|i: int| 0 <= i < r@.len() ==> id_found(self.roster_view(), (#[trigger] r@[i])@),
    {
        self.get_neighbours()
    }
}

/// True of a list exactly when it holds an element of content `x`.
pub fn contains_id(ids: &Vec<String>, x: &String) -> (r: bool)
    ensures
        r == id_found(ids@, x@),
{
    let mut i: usize = 0;
    while i < ids.len()
        invariant
            0 <= i <= ids@.len(),
            forall|j: int| 0 <= j < i ==> ids@[j]@ != x@,
        decreases ids@.len() - i,
    {
        if ids[i] == *x {
            return true;
        }
        i = i + 1;
    }
    false
}

/// A fresh copy of an id list.
fn clone_ids(ids: &Vec<String>) -> (r: Vec<String>)
    ensures
        r@ == ids@,
{
    let mut r: Vec<String> = Vec::new();
    let mut i: usize = 0;
    while i < ids.len()
        invariant
            0 <= i <= ids@.len(),
            r@ == ids@.take(i as int),
        decreases ids@.len() - i,
    {
        proof {
            crate::storage::lemma_take_step(ids@, i as int);
        }
        r.push(ids[i].clone());
        i = i + 1;
    }
    assert(ids@.take(ids@.len() as int) =~= ids@);
    r
}

/// The roster with repeated ids dropped, first occurrences kept.
fn dedup_roster(roster: &Vec<String>) -> (r: Vec<String>)
    ensures
        r@ == dedup_ids(roster@),
{
    let mut r: Vec<String> = Vec::new();
    let mut i: usize = 0;
    while i < roster.len()
        invariant
            0 <= i <= roster@.len(),
            r@ == dedup_ids(roster@.take(i as int)),
        decreases roster@.len() - i,
    {
        proof {
            crate::storage::lemma_take_step(roster@, i as int);
            assert(roster@.take(i + 1 as int).drop_last() =~= roster@.take(i as int));
            assert(roster@.take(i + 1 as int).last() == roster@[i as int]);
        }
        if !contains_id(&r, &roster[i]) {
            r.push(roster[i].clone());
        }
        i = i + 1;
    }
    assert(roster@.take(roster@.len() as int) =~= roster@);
    r
}

/// Applies the configured policy to the deduplicated roster, producing
/// a duplicate-free neighbour list that avoids this node's own id.
fn init_topology(
    policy: &TopologyPolicy,
    uniq: &Vec<String>,
    self_id: &String,
    rng: &mut rand::rngs::StdRng,
) -> (r: Vec<String>)
    requires
        ids_distinct(uniq@),
        id_found(uniq@, self_id@),
    ensures
        ids_distinct(r@),
        forall|i: int| 0 <= i < r@.len() ==> (#[trigger] r@[i])@ != self_id@,
        forall|i: int| 0 <= i < r@.len() ==> id_found(uniq@, (#[trigger] r@[i])@),
        match *policy {
            TopologyPolicy::FullMesh => id_set(r@) == id_set(uniq@).remove(self_id@),
            TopologyPolicy::RingPlusRandom { extra } => {
                &&& r@.len() <= 2 + extra
                &&& uniq@.len() <= 1 ==> r@.len() == 0
                &&& uniq@.len() >= 2 ==> {
                    let i = id_index(uniq@, self_id@);
                    let p = if i == 0 { uniq@.len() - 1 } else { i - 1 };
                    let s = if i + 1 == uniq@.len() { 0int } else { i + 1 };
                    let links = if uniq@.len() == 2 { 1int } else { 2int };
                    &&& id_found(r@, uniq@[p]@) && id_found(r@, uniq@[s]@)
                    &&& r@.len() == links + vstd::math::min(
                        extra as int,
                        uniq@.len() - 1 - links,
                    )
                }
            },
            TopologyPolicy::RandomSubset { size } => r@.len()
                == vstd::math::min(size as int, uniq@.len() - 1),
        },
{
    match policy {
        TopologyPolicy::FullMesh => {
            let r = init_network(uniq, self_id);
            proof {
                assert(id_set(r@) =~= id_set(uniq@).remove(self_id@));
            }
            r
        },
        TopologyPolicy::RingPlusRandom { extra } => {
            let mut r: Vec<String> = Vec::new();
            let n = uniq.len();
            if n >= 2 {
                let me = find_id(uniq, self_id);
                proof {
                    lemma_id_index_of(uniq@, self_id@, me as int);
                }
                let p = if me == 0 { n - 1 } else { me - 1 };
                let s = if me + 1 == n { 0 } else { me + 1 };
                proof {
                    assert(uniq@[p as int]@ != self_id@);
                    assert(uniq@[s as int]@ != self_id@);
                }
                r.push(uniq[p].clone());
                if s != p {
                    r.push(uniq[s].clone());
                }
                let ghost links = r@;
                proof {
                    assert(links[0] == uniq@[p as int]);
                    assert(id_found(links, uniq@[p as int]@));
                    if s != p {
                        assert(links[1] == uniq@[s as int]);
                    }
                    assert(id_found(links, uniq@[s as int]@));
                    // Two ring links exactly when the ring has a third
                    // member; on a two-member ring they coincide.
                    if n == 2 {
                        assert(p == s);
                    }
                    assert(links.len() == (if p == s { 1int } else { 2int }));
                }
                // The sampling pool: other roster members that are not
                // already ring links.
                let full = init_network(uniq, self_id);
                proof {
                    assert(id_found(full@, uniq@[p as int]@));
                    assert(id_found(full@, uniq@[s as int]@));
                }
                let ghost ip = id_index(full@, uniq@[p as int]@);
                let ghost iq = id_index(full@, uniq@[s as int]@);
                proof {
                    assert(0 <= ip < full@.len() && full@[ip]@ == uniq@[p as int]@);
                    assert(0 <= iq < full@.len() && full@[iq]@ == uniq@[s as int]@);
                    if p == s {
                        lemma_id_index_of(full@, uniq@[p as int]@, iq);
                    } else {
                        assert(uniq@[p as int]@ != uniq@[s as int]@);
                        if ip == iq {
                            assert(false);
                        }
                    }
                }
                let mut rest: Vec<String> = Vec::new();
                let mut k: usize = 0;
                while k < full.len()
                    invariant
                        0 <= k <= full@.len(),
                        r@ == links,
                        r@.len() <= 2,
                        0 <= ip < full@.len(),
                        full@[ip]@ == uniq@[p as int]@,
                        0 <= iq < full@.len(),
                        full@[iq]@ == uniq@[s as int]@,
                        links[0]@ == uniq@[p as int]@,
                        links.len() == (if ip == iq { 1int } else { 2int }),
                        ip != iq ==> links[1]@ == uniq@[s as int]@,
                        rest@.len() == k - (if ip < k { 1int } else { 0int }) - (if ip != iq
                            && iq < k { 1int } else { 0int }),
                        ids_distinct(full@),
                        forall|i: int| 0 <= i < full@.len()
                            ==> (#[trigger] full@[i])@ != self_id@,
                        forall|i: int| 0 <= i < full@.len()
                            ==> id_found(uniq@, (#[trigger] full@[i])@),
                        ids_distinct(rest@),
                        forall|i: int| 0 <= i < rest@.len()
                            ==> id_found(uniq@, (#[trigger] rest@[i])@)
                            && rest@[i]@ != self_id@,
                        forall|m: Seq<char>| #[trigger] id_found(rest@, m)
                            == (id_found(full@.take(k as int), m) && !id_found(r@, m)),
                    decreases full@.len() - k,
                {
                    proof {
                        crate::storage::lemma_take_step(full@, k as int);
                    }
                    let ghost pre_rest = rest@;
                    let candidate = full[k].clone();
                    let taken = contains_id(&r, &candidate);
                    proof {
                        // This position is skipped exactly when it is a
                        // ring link's position in the pool.
                        if taken {
                            let w = choose|w: int|
                                0 <= w < links.len() && links[w]@ == full@[k as int]@;
                            if w == 0 {
                                assert(full@[k as int]@ == full@[ip]@);
                                if k != ip {
                                    assert(full@[k as int]@ != full@[ip]@);
                                }
                            } else {
                                assert(full@[k as int]@ == full@[iq]@);
                                if k != iq {
                                    assert(full@[k as int]@ != full@[iq]@);
                                }
                            }
                        } else {
                            if k == ip {
                                assert(links[0]@ == full@[k as int]@);
                                assert(id_found(links, full@[k as int]@));
                            }
                            if k == iq {
                                if ip == iq {
                                    assert(links[0]@ == full@[k as int]@);
                                } else {
                                    assert(links[1]@ == full@[k as int]@);
                                }
                                assert(id_found(links, full@[k as int]@));
                            }
                        }
                        assert(taken == (k == ip || k == iq));
                    }
                    if !taken {
                        proof {
                            if id_found(pre_rest, candidate@) {
                                assert(id_found(full@.take(k as int), candidate@));
                                let j = choose|j: int|
                                    0 <= j < k && full@.take(k as int)[j]@ == candidate@;
                                assert(full@[j]@ == full@[k as int]@);
                            }
                        }
                        rest.push(candidate);
                        proof {
                            assert forall|a: int, b: int| 0 <= a < b < rest@.len() implies
                                rest@[a]@ != rest@[b]@ by {
                                if b < pre_rest.len() {
                                    assert(pre_rest[a]@ != pre_rest[b]@);
                                } else {
                                    assert(rest@[b] == full@[k as int]);
                                    if rest@[a]@ == full@[k as int]@ {
                                        assert(id_found(pre_rest, full@[k as int]@));
                                    }
                                }
                            }
                        }
                    }
                    proof {
                        assert forall|m: Seq<char>| #[trigger] id_found(rest@, m)
                            == (id_found(full@.take(k + 1 as int), m) && !id_found(r@, m)) by {
                            if id_found(rest@, m) {
                                let i = choose|i: int| 0 <= i < rest@.len() && rest@[i]@ == m;
                                if i < pre_rest.len() {
                                    assert(id_found(pre_rest, m));
                                    let j = choose|j: int|
                                        0 <= j < k && full@.take(k as int)[j]@ == m;
                                    assert(full@.take(k + 1 as int)[j]@ == m);
                                } else {
                                    assert(rest@[i]@ == full@[k as int]@);
                                    assert(full@.take(k + 1 as int)[k as int]@ == m);
                                }
                            }
                            if id_found(full@.take(k + 1 as int), m) && !id_found(r@, m) {
                                let tk = full@.take(k + 1 as int);
                                let j = choose|j: int| 0 <= j < tk.len() && tk[j]@ == m;
                                if j < k {
                                    assert(full@.take(k as int)[j]@ == m);
                                    assert(id_found(pre_rest, m));
                                    let i = choose|i: int|
                                        0 <= i < pre_rest.len() && pre_rest[i]@ == m;
                                    assert(rest@[i]@ == m);
                                } else {
                                    assert(full@[k as int]@ == m);
                                    if !taken {
                                        assert(rest@[rest@.len() - 1]@ == m);
                                    }
                                }
                            }
                        }
                    }
                    k = k + 1;
                }
                let ghost g_rest = rest@;
                proof {
                    assert(g_rest.len() == full@.len() - links.len());
                    assert(full@.len() == uniq@.len() - 1);
                }
                let sampled = sample_ids(rest, *extra, rng);
                let ghost base = r@;
                proof {
                    assert forall|i: int| 0 <= i < sampled@.len() implies id_found(
                        uniq@,
                        (#[trigger] sampled@[i])@,
                    ) && sampled@[i]@ != self_id@ && !id_found(base, sampled@[i]@) by {
                        assert(id_found(g_rest, sampled@[i]@));
                        let w = choose|w: int| 0 <= w < g_rest.len() && g_rest[w]@
                            == sampled@[i]@;
                        assert(id_found(uniq@, g_rest[w]@));
                        assert(id_found(g_rest, g_rest[w]@));
                    }
                }
                let mut t: usize = 0;
                while t < sampled.len()
                    invariant
                        0 <= t <= sampled@.len(),
                        sampled@.len() <= *extra,
                        base.len() <= 2,
                        r@.len() == base.len() + t,
                        r@.take(base.len() as int) == base,
                        forall|i: int| 0 <= i < t ==> r@[base.len() + i] == sampled@[i],
                        ids_distinct(r@),
                        ids_distinct(sampled@),
                        forall|i: int| 0 <= i < sampled@.len()
                            ==> id_found(uniq@, (#[trigger] sampled@[i])@)
                            && sampled@[i]@ != self_id@
                            && !id_found(base, sampled@[i]@),
                        forall|i: int| 0 <= i < r@.len()
                            ==> id_found(uniq@, (#[trigger] r@[i])@) && r@[i]@ != self_id@,
                        id_found(r@, uniq@[p as int]@),
                        id_found(r@, uniq@[s as int]@),
                    decreases sampled@.len() - t,
                {
                    let ghost pre_r = r@;
                    let x = sampled[t].clone();
                    r.push(x);
                    proof {
                        assert forall|a: int, b: int| 0 <= a < b < r@.len() implies r@[a]@
                            != r@[b]@ by {
                            if b < pre_r.len() {
                                assert(pre_r[a]@ != pre_r[b]@);
                            } else {
                                assert(r@[b]@ == sampled@[t as int]@);
                                if a < base.len() {
                                    assert(pre_r[a] == base[a]);
                                    if r@[a]@ == sampled@[t as int]@ {
                                        assert(id_found(base, sampled@[t as int]@));
                                    }
                                } else {
                                    assert(pre_r[a] == sampled@[a - base.len()]);
                                    assert(sampled@[a - base.len()]@ != sampled@[t as int]@);
                                }
                            }
                        }
                        assert(r@.take(base.len() as int) =~= base);
                        let pi = choose|i: int| 0 <= i < pre_r.len() && pre_r[i]@
                            == uniq@[p as int]@;
                        assert(r@[pi]@ == uniq@[p as int]@);
                        let si = choose|i: int| 0 <= i < pre_r.len() && pre_r[i]@
                            == uniq@[s as int]@;
                        assert(r@[si]@ == uniq@[s as int]@);
                    }
                    t = t + 1;
                }
            }
            r
        },
        TopologyPolicy::RandomSubset { size } => {
            let pool = init_network(uniq, self_id);
            sample_ids(pool, *size, rng)
        },
    }
}

/// The full-mesh neighbour list: every distinct roster member but this
/// node itself, in roster order.
fn init_network(uniq: &Vec<String>, self_id: &String) -> (r: Vec<String>)
    requires
        ids_distinct(uniq@),
    ensures
        ids_distinct(r@),
        forall|i: int| 0 <= i < r@.len() ==> (#[trigger] r@[i])@ != self_id@,
        forall|i: int| 0 <= i < r@.len() ==> id_found(uniq@, (#[trigger] r@[i])@),
        forall|n: Seq<char>| #[trigger] id_found(r@, n) == (id_found(uniq@, n) && n != self_id@),
        id_found(uniq@, self_id@) ==> r@.len() == uniq@.len() - 1,
{
    let mut r: Vec<String> = Vec::new();
    let mut i: usize = 0;
    while i < uniq.len()
        invariant
            0 <= i <= uniq@.len(),
            ids_distinct(uniq@),
            ids_distinct(r@),
            forall|j: int| 0 <= j < r@.len() ==> (#[trigger] r@[j])@ != self_id@,
            forall|n: Seq<char>| #[trigger] id_found(r@, n)
                == (id_found(uniq@.take(i as int), n) && n != self_id@),
            r@.len() == if id_found(uniq@.take(i as int), self_id@) { i - 1 } else { i as int },
        decreases uniq@.len() - i,
    {
        proof {
            crate::storage::lemma_take_step(uniq@, i as int);
            // This id cannot have occurred earlier: the roster here is
            // duplicate-free.
            if id_found(uniq@.take(i as int), uniq@[i as int]@) {
                let tk = uniq@.take(i as int);
                let j = choose|j: int| 0 <= j < tk.len() && tk[j]@ == uniq@[i as int]@;
                assert(uniq@[j]@ == uniq@[i as int]@);
                assert(false);
            }
        }
        let ghost pre_r = r@;
        if !(uniq[i] == *self_id) {
            r.push(uniq[i].clone());
            proof {
                assert forall|a: int, b: int| 0 <= a < b < r@.len() implies r@[a]@ != r@[b]@ by {
                    if b < pre_r.len() {
                        assert(pre_r[a]@ != pre_r[b]@);
                    } else {
                        assert(r@[b] == uniq@[i as int]);
                        if r@[a]@ == uniq@[i as int]@ {
                            assert(id_found(pre_r, uniq@[i as int]@));
                        }
                    }
                }
            }
        }
        proof {
            let tk1 = uniq@.take(i + 1 as int);
            assert forall|n: Seq<char>| #[trigger] id_found(r@, n) == (id_found(tk1, n) && n
                != self_id@) by {
                if id_found(r@, n) {
                    let a = choose|a: int| 0 <= a < r@.len() && r@[a]@ == n;
                    if a < pre_r.len() {
                        assert(id_found(pre_r, n));
                        let tk = uniq@.take(i as int);
                        let j = choose|j: int| 0 <= j < tk.len() && tk[j]@ == n;
                        assert(tk1[j]@ == n);
                    } else {
                        assert(r@[a] == uniq@[i as int]);
                        assert(tk1[i as int]@ == n);
                    }
                }
                if id_found(tk1, n) && n != self_id@ {
                    let j = choose|j: int| 0 <= j < tk1.len() && tk1[j]@ == n;
                    if j < i {
                        assert(uniq@.take(i as int)[j]@ == n);
                        assert(id_found(pre_r, n));
                        let a = choose|a: int| 0 <= a < pre_r.len() && pre_r[a]@ == n;
                        assert(r@[a]@ == n);
                    } else {
                        assert(uniq@[i as int]@ == n);
                        assert(r@[r@.len() - 1]@ == n);
                    }
                }
            }
            // Account for the length: the id seen at this position is
            // either this node's own (skipped) or a fresh neighbour.
            let tk = uniq@.take(i as int);
            if uniq@[i as int]@ == self_id@ {
                assert(tk1[i as int]@ == self_id@);
                assert(id_found(tk1, self_id@));
            } else {
                if id_found(tk1, self_id@) {
                    let j = choose|j: int| 0 <= j < tk1.len() && tk1[j]@ == self_id@;
                    assert(j != i);
                    assert(tk[j]@ == self_id@);
                    assert(id_found(tk, self_id@));
                }
                if id_found(tk, self_id@) {
                    let j = choose|j: int| 0 <= j < tk.len() && tk[j]@ == self_id@;
                    assert(tk1[j]@ == self_id@);
                    assert(id_found(tk1, self_id@));
                }
            }
        }
        i = i + 1;
    }
    proof {
        assert(uniq@.take(uniq@.len() as int) =~= uniq@);
        assert forall|i: int| 0 <= i < r@.len() implies id_found(uniq@, (#[trigger] r@[i])@) by {
            assert(id_found(r@, r@[i]@));
        }
    }
    r
}

/// The position of the id with content `x`, which must be present.
fn find_id(ids: &Vec<String>, x: &String) -> (r: usize)
    requires
        id_found(ids@, x@),
    ensures
        r < ids@.len(),
        ids@[r as int]@ == x@,
{
    let mut i: usize = 0;
    while i < ids.len()
        invariant
            0 <= i <= ids@.len(),
            id_found(ids@, x@),
            forall|j: int| 0 <= j < i ==> ids@[j]@ != x@,
        decreases ids@.len() - i,
    {
        if ids[i] == *x {
            return i;
        }
        i = i + 1;
    }
    proof {
        assert(false);
    }
    0
}

/// Draws `count` ids from the pool uniformly without replacement (all
/// of them when the pool is smaller).
pub(crate) fn sample_ids(pool: Vec<String>, count: usize, rng: &mut rand::rngs::StdRng) -> (r: Vec<
    String,
>)
    requires
        ids_distinct(pool@),
    ensures
        ids_distinct(r@),
        r@.len() == vstd::math::min(count as int, pool@.len() as int),
        forall|i: int| 0 <= i < r@.len() ==> id_found(pool@, (#[trigger] r@[i])@),
{
    let ghost orig = pool@;
    let mut pool = pool;
    let m = if count < pool.len() {
        count
    } else {
        pool.len()
    };
    let mut r: Vec<String> = Vec::new();
    let mut t: usize = 0;
    while t < m
        invariant
            0 <= t <= m,
            m <= orig.len(),
            pool@.len() == orig.len() - t,
            r@.len() == t,
            ids_distinct(pool@),
            ids_distinct(r@),
            forall|i: int| 0 <= i < r@.len() ==> id_found(orig, (#[trigger] r@[i])@),
            forall|i: int, j: int| 0 <= i < r@.len() && 0 <= j < pool@.len()
                ==> (#[trigger] r@[i])@ != (#[trigger] pool@[j])@,
            forall|i: int| 0 <= i < pool@.len() ==> id_found(orig, (#[trigger] pool@[i])@),
        decreases m - t,
    {
        let j = rng_range(rng, 0, pool.len() - 1);
        let ghost pre = pool@;
        let picked = pool.remove(j);
        proof {
            assert(picked == pre[j as int]);
            assert forall|a: int, b: int| 0 <= a < b < pool@.len() implies pool@[a]@
                != pool@[b]@ by {
                let a0 = if a < j { a } else { a + 1 };
                let b0 = if b < j { b } else { b + 1 };
                assert(pool@[a] == pre[a0]);
                assert(pool@[b] == pre[b0]);
            }
            assert forall|i: int| 0 <= i < pool@.len() implies id_found(
                orig,
                (#[trigger] pool@[i])@,
            ) by {
                let i0 = if i < j { i } else { i + 1 };
                assert(pool@[i] == pre[i0]);
            }
            assert forall|i: int, b: int| 0 <= i < r@.len() + 1 && 0 <= b < pool@.len() implies
                (#[trigger] r@.push(picked)[i])@ != (#[trigger] pool@[b])@ by {
                let b0 = if b < j { b } else { b + 1 };
                assert(pool@[b] == pre[b0]);
                if i < r@.len() {
                    assert(r@[i]@ != pre[b0]@);
                } else {
                    assert(r@.push(picked)[i] == picked);
                    assert(pre[j as int]@ != pre[b0]@);
                }
            }
            assert forall|a: int, b: int| 0 <= a < b < r@.push(picked).len() implies
                r@.push(picked)[a]@ != r@.push(picked)[b]@ by {
                if b < r@.len() {
                    assert(r@[a]@ != r@[b]@);
                } else {
                    assert(r@.push(picked)[b] == picked);
                    assert(r@[a]@ != pre[j as int]@);
                }
            }
        }
        r.push(picked);
        t = t + 1;
    }
    r
}

} // verus!
