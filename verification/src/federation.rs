//! Federated context sharing between agents: which shared entries a pull
//! returns (public or anonymous ones whose abstract mentions the query,
//! case-insensitively) and the federation's status counts.

use vstd::prelude::*;
use crate::intent::ContextUri;
use crate::text::{contains_str, has_substring, lowercase, to_lowercase};

verus! {

/// Who may see a shared entry.
#[derive(Debug, Clone)]
pub enum SharingPolicy {
    Public,
    TrustedPeers { allowed_agents: Vec<String> },
    Anonymous,
    Private,
}

/// The kind of a federation message.
#[derive(Debug, Clone)]
pub enum FederationMessageType {
    Push,
    Query { query: String },
    PeerDiscovery,
}

/// A context entry shared with other agents.
#[derive(Debug, Clone)]
pub struct FederatedEntry {
    pub source_agent: String,
    pub uri: ContextUri,
    pub abstract_: String,
    pub sharing_policy: SharingPolicy,
    pub timestamp: i64,
}

/// The entries of other agents that one agent can see.
#[derive(Debug, Clone)]
pub struct FederatedView {
    pub entries: Vec<FederatedEntry>,
}

impl Default for FederatedView {
    fn default() -> (r: Self)
        ensures
            r.entries@ == Seq::<FederatedEntry>::empty(),
    {
        FederatedView { entries: Vec::new() }
    }
}

/// Counts describing a federation.
#[derive(Debug, Clone, Copy, PartialEq, Eq)]
pub struct FederationStatus {
    pub peer_count: usize,
    pub shared_entries: usize,
    pub public_entries: usize,
}

/// Whether a policy lets an entry be pulled by any agent.
pub open spec fn pullable(p: SharingPolicy) -> bool {
    p is Public || p is Anonymous
}

/// Whether a pull for `query` returns entry `e`.
pub open spec fn pull_matches(e: FederatedEntry, query: Seq<char>) -> bool {
    pullable(e.sharing_policy) && has_substring(lowercase(e.abstract_@), lowercase(query))
}

/// The positions of the entries a pull returns, in cache order.
pub open spec fn pulled(es: Seq<FederatedEntry>, query: Seq<char>) -> Seq<int>
    decreases es.len(),
{
    if es.len() == 0 {
        Seq::empty()
    } else {
        let p = pulled(es.drop_last(), query);
        if pull_matches(es.last(), query) {
            p.push(es.len() - 1)
        } else {
            p
        }
    }
}

/// The number of public entries.
pub open spec fn public_count(es: Seq<FederatedEntry>) -> int
    decreases es.len(),
{
    if es.len() == 0 {
        0
    } else {
        public_count(es.drop_last()) + if es.last().sharing_policy is Public { 1int } else { 0int }
    }
}

/// Whether `b` copies `a`: the same texts, policy and timestamp.
pub open spec fn copies(b: FederatedEntry, a: FederatedEntry) -> bool {
    &&& b.source_agent@ == a.source_agent@
    &&& b.uri.0@ == a.uri.0@
    &&& b.abstract_@ == a.abstract_@
    &&& b.timestamp == a.timestamp
    &&& match (b.sharing_policy, a.sharing_policy) {
        (SharingPolicy::Public, SharingPolicy::Public) => true,
        (SharingPolicy::Anonymous, SharingPolicy::Anonymous) => true,
        (SharingPolicy::Private, SharingPolicy::Private) => true,
        (SharingPolicy::TrustedPeers { allowed_agents: x }, SharingPolicy::TrustedPeers { allowed_agents: y }) =>
            x@.map_values(|s: String| s@) == y@.map_values(|s: String| s@),
        _ => false,
    }
}

fn copy_strings(v: &Vec<String>) -> (r: Vec<String>)
    ensures
        r@.map_values(|s: String| s@) == v@.map_values(|s: String| s@),
{
    let mut r: Vec<String> = Vec::new();
    let mut i: usize = 0;
    while i < v.len()
        invariant
            i <= v.len(),
            r.len() == i,
            r@.map_values(|s: String| s@) == v@.take(i as int).map_values(|s: String| s@),
        decreases v.len() - i,
    {
        let c = v[i].clone();
        let ghost prev = r@;
        r.push(c);
        proof {
            let rv = r@.map_values(|s: String| s@);
            let vv = v@.take(i as int + 1).map_values(|s: String| s@);
            assert forall|k: int| 0 <= k < i + 1 implies #[trigger] rv[k] == vv[k] by {
                if k < i {
                    assert(prev.map_values(|s: String| s@)[k] == v@.take(i as int).map_values(|s: String| s@)[k]);
                    assert(r@[k] == prev[k]);
                }
            }
            assert(rv =~= vv);
        }
        i = i + 1;
    }
    proof {
        assert(v@.take(v.len() as int) =~= v@);
    }
    r
}

fn copy_entry(e: &FederatedEntry) -> (r: FederatedEntry)
    ensures
        copies(r, *e),
{
    let policy = match &e.sharing_policy {
        SharingPolicy::Public => SharingPolicy::Public,
        SharingPolicy::Anonymous => SharingPolicy::Anonymous,
        SharingPolicy::Private => SharingPolicy::Private,
        SharingPolicy::TrustedPeers { allowed_agents } => SharingPolicy::TrustedPeers {
            allowed_agents: copy_strings(allowed_agents),
        },
    };
    FederatedEntry {
        source_agent: e.source_agent.clone(),
        uri: ContextUri(e.uri.0.clone()),
        abstract_: e.abstract_.clone(),
        sharing_policy: policy,
        timestamp: e.timestamp,
    }
}

/// The entries of `entries` that a pull for `query` returns, in order (see
/// `pulled`).
pub fn pull_from(entries: &Vec<FederatedEntry>, query: &str) -> (r: Vec<FederatedEntry>)
    ensures
        r@.len() == pulled(entries@, query@).len(),
        forall|i: int| 0 <= i < r@.len() ==> copies(#[trigger] r@[i], entries@[pulled(entries@, query@)[i]]),
        forall|k: int|
            0 <= k < entries@.len() && shared_match(#[trigger] entries@[k], query@) ==> exists|i: int|
                0 <= i < r@.len() && pulled(entries@, query@)[i] == k,
        forall|i: int| 0 <= i < r@.len() ==> shared_match(entries@[#[trigger] pulled(entries@, query@)[i]], query@),
{
    let lq = to_lowercase(query);
    let mut out: Vec<FederatedEntry> = Vec::new();
    let mut i: usize = 0;
    proof {
        assert(entries@.take(0) =~= Seq::<FederatedEntry>::empty());
    }
    while i < entries.len()
        invariant
            i <= entries.len(),
            lq@ == lowercase(query@),
            out@.len() == pulled(entries@.take(i as int), query@).len(),
            forall|j: int| 0 <= j < out@.len() ==> copies(#[trigger] out@[j], entries@[pulled(entries@.take(i as int), query@)[j]]),
            forall|j: int| 0 <= j < pulled(entries@.take(i as int), query@).len() ==> 0 <= #[trigger] pulled(entries@.take(i as int), query@)[j] < i,
        decreases entries.len() - i,
    {
        let e = &entries[i];
        let ghost p0 = pulled(entries@.take(i as int), query@);
        proof {
            assert(entries@.take(i as int + 1).drop_last() =~= entries@.take(i as int));
            assert(entries@.take(i as int + 1).last() == *e);
        }
        let ok_policy = match &e.sharing_policy {
            SharingPolicy::Public => true,
            SharingPolicy::Anonymous => true,
            _ => false,
        };
        if ok_policy {
            let la = to_lowercase(e.abstract_.as_str());
            if contains_str(la.as_str(), lq.as_str()) {
                out.push(copy_entry(e));
            }
        }
        i = i + 1;
    }
    proof {
        assert(entries@.take(entries.len() as int) =~= entries@);
        pull_returns_exactly_shared_matches(entries@, query@);
        let q = pulled(entries@, query@);
        assert forall|i: int| 0 <= i < out@.len() implies shared_match(entries@[#[trigger] q[i]], query@) by {
            assert(q.contains(q[i]));
        }
    }
    out
}

/// The local state of a federation: this agent, its peers and the entries
/// shared so far.
pub struct FederationState {
    local_agent: String,
    peers: Vec<String>,
    cache: Vec<FederatedEntry>,
}

impl FederationState {
    /// The peers, in registration order.
    pub closed spec fn peers_spec(&self) -> Seq<String> {
        self.peers@
    }

    /// The shared entries, in push order.
    pub closed spec fn cache_spec(&self) -> Seq<FederatedEntry> {
        self.cache@
    }

    /// This agent's id.
    pub closed spec fn local_agent_spec(&self) -> Seq<char> {
        self.local_agent@
    }

    /// A federation of one agent with no peers and nothing shared.
    pub fn new(local_agent: &str) -> (r: FederationState)
        ensures
            r.local_agent_spec() == local_agent@,
            r.peers_spec() == Seq::<String>::empty(),
            r.cache_spec() == Seq::<FederatedEntry>::empty(),
    {
        FederationState { local_agent: local_agent.to_owned(), peers: Vec::new(), cache: Vec::new() }
    }

    /// Registers a peer agent.
    pub fn register_peer(&mut self, agent_id: String)
        ensures
            final(self).peers_spec() == old(self).peers_spec().push(agent_id),
            final(self).cache_spec() == old(self).cache_spec(),
            final(self).local_agent_spec() == old(self).local_agent_spec(),
    {
        self.peers.push(agent_id);
    }

    /// Shares an entry (kept in the local cache).
    pub fn push_sync(&mut self, entry: FederatedEntry)
        ensures
            final(self).cache_spec() == old(self).cache_spec().push(entry),
            final(self).peers_spec() == old(self).peers_spec(),
            final(self).local_agent_spec() == old(self).local_agent_spec(),
    {
        self.cache.push(entry);
    }

    /// The cached entries a pull for `query` returns (see `pulled`).
    pub fn pull_sync(&self, query: &str) -> (r: Vec<FederatedEntry>)
        ensures
            r@.len() == pulled(self.cache_spec(), query@).len(),
            forall|i: int| 0 <= i < r@.len() ==> copies(#[trigger] r@[i], self.cache_spec()[pulled(self.cache_spec(), query@)[i]]),
            forall|k: int|
                0 <= k < self.cache_spec().len() && shared_match(#[trigger] self.cache_spec()[k], query@) ==> exists|i: int|
                    0 <= i < r@.len() && pulled(self.cache_spec(), query@)[i] == k,
            forall|i: int| 0 <= i < r@.len() ==> shared_match(self.cache_spec()[#[trigger] pulled(self.cache_spec(), query@)[i]], query@),
    {
        pull_from(&self.cache, query)
    }

    /// Replaces the peers (a restored state).
    pub fn set_peers(&mut self, peers: Vec<String>)
        ensures
            final(self).peers_spec() == peers@,
            final(self).cache_spec() == old(self).cache_spec(),
            final(self).local_agent_spec() == old(self).local_agent_spec(),
    {
        self.peers = peers;
    }

    /// Replaces the shared entries (a restored state).
    pub fn set_cache(&mut self, cache: Vec<FederatedEntry>)
        ensures
            final(self).cache_spec() == cache@,
            final(self).peers_spec() == old(self).peers_spec(),
            final(self).local_agent_spec() == old(self).local_agent_spec(),
    {
        self.cache = cache;
    }

    /// This agent's id.
    pub fn local_agent(&self) -> (r: &str)
        ensures
            r@ == self.local_agent_spec(),
    {
        self.local_agent.as_str()
    }

    /// The peers, in registration order.
    pub fn peers(&self) -> (r: &Vec<String>)
        ensures
            r@ == self.peers_spec(),
    {
        &self.peers
    }

    /// The shared entries, in push order.
    pub fn cache(&self) -> (r: &Vec<FederatedEntry>)
        ensures
            r@ == self.cache_spec(),
    {
        &self.cache
    }

    /// Peer count, shared entries and public entries.
    pub fn status(&self) -> (r: FederationStatus)
        ensures
            r.peer_count == self.peers_spec().len(),
            r.shared_entries == self.cache_spec().len(),
            r.public_entries == public_count(self.cache_spec()),
    {
        let mut n: usize = 0;
        let mut i: usize = 0;
        proof {
            assert(self.cache@.take(0) =~= Seq::<FederatedEntry>::empty());
        }
        while i < self.cache.len()
            invariant
                i <= self.cache.len(),
                n == public_count(self.cache@.take(i as int)),
                n <= i,
            decreases self.cache.len() - i,
        {
            proof {
                assert(self.cache@.take(i as int + 1).drop_last() =~= self.cache@.take(i as int));
            }
            match &self.cache[i].sharing_policy {
                SharingPolicy::Public => {
                    n = n + 1;
                },
                _ => {},
            }
            i = i + 1;
        }
        proof {
            assert(self.cache@.take(self.cache.len() as int) =~= self.cache@);
        }
        FederationStatus { peer_count: self.peers.len(), shared_entries: self.cache.len(), public_entries: n }
    }
}

/// Private and trusted-peer entries never leave through a pull.
pub proof fn pull_returns_only_pullable(es: Seq<FederatedEntry>, query: Seq<char>, j: int)
    requires
        0 <= j < pulled(es, query).len(),
    ensures
        0 <= pulled(es, query)[j] < es.len(),
        pull_matches(es[pulled(es, query)[j]], query),
    decreases es.len(),
{
    let p = pulled(es.drop_last(), query);
    if j < p.len() {
        pull_returns_only_pullable(es.drop_last(), query, j);
        assert(es[p[j]] == es.drop_last()[p[j]]);
    }
}


/// Whether an entry is shared with everyone (public or anonymous) and its
/// abstract mentions `query`, case-insensitively.
pub open spec fn shared_match(e: FederatedEntry, query: Seq<char>) -> bool {
    (e.sharing_policy is Public || e.sharing_policy is Anonymous) && has_substring(
        lowercase(e.abstract_@),
        lowercase(query),
    )
}

/// A pull returns exactly the public and anonymous entries whose abstract
/// mentions the query (case-insensitively), each once, in cache order.
pub proof fn pull_returns_exactly_shared_matches(es: Seq<FederatedEntry>, query: Seq<char>)
    ensures
        forall|k: int| 0 <= k < es.len() ==> (shared_match(#[trigger] es[k], query) <==> pulled(es, query).contains(k)),
        forall|i: int| 0 <= i < pulled(es, query).len() ==> 0 <= #[trigger] pulled(es, query)[i] < es.len(),
        forall|i: int, j: int| 0 <= i < j < pulled(es, query).len() ==> pulled(es, query)[i] < pulled(es, query)[j],
    decreases es.len(),
{
    if es.len() > 0 {
        let d = es.drop_last();
        pull_returns_exactly_shared_matches(d, query);
        let p = pulled(d, query);
        let q = pulled(es, query);
        assert forall|k: int| 0 <= k < es.len() implies (shared_match(#[trigger] es[k], query) <==> q.contains(k)) by {
            if k < es.len() - 1 {
                assert(es[k] == d[k]);
                if p.contains(k) {
                    let i = choose|i: int| 0 <= i < p.len() && p[i] == k;
                    assert(q[i] == k);
                }
                if q.contains(k) {
                    let i = choose|i: int| 0 <= i < q.len() && q[i] == k;
                    if i < p.len() {
                        assert(q[i] == p[i]);
                    }
                    assert(p.contains(k));
                }
            } else {
                if shared_match(es[k], query) {
                    assert(q[p.len() as int] == k);
                }
                if q.contains(k) {
                    let i = choose|i: int| 0 <= i < q.len() && q[i] == k;
                    if i < p.len() {
                        assert(q[i] == p[i]);
                        assert(p[i] < d.len());
                    }
                }
            }
        }
    }
}

} // verus!
