//! The decisions of the in-process broker: the subscriber tables, which
//! subscribers an envelope goes to, consumer-group member selection, what a
//! delivery attempt amounts to, the in-flight table of explicit
//! acknowledgement, redelivery and dead-lettering, and the checks a publish
//! passes before fan-out. Channels, tasks and timers stay with the caller,
//! which performs what these functions decide.

use vstd::prelude::*;
use vstd::wrapping::u64_specs;
use vstd::wrapping::usize_specs;
use crate::subscriber::{AckMode, BackpressurePolicy, GroupStrategy, SubId};
use crate::topic::{pattern_matches, valid_topic, Topic, TopicPattern};
use crate::dedup::{pair_fingerprint, ring_step, DedupRing};
use crate::mesh_error::EventMeshError;
use vstd::string::StringSliceAdditionalSpecFns;
use crate::text::str_eq;
use crate::strmap::StrMap;
use vstd::utf8::encode_utf8;

verus! {

broadcast use vstd::string::group_string_axioms;

/// Subscriber channel capacity when none is given.
pub const DEFAULT_BUFFER: usize = 1024;

/// Size of the idempotency window of a mesh.
pub const DEFAULT_DEDUP_WINDOW: usize = 4096;

/// Starting value of the key hash.
pub const KEY_HASH_BASIS: u64 = 1469598103934665603;

/// Multiplier of the key hash (the 64-bit FNV prime).
pub const KEY_HASH_PRIME: u64 = 1099511628211;

/// The key hash of a byte string: FNV-1a style (xor in each byte, then
/// multiply, wrapping), starting from `KEY_HASH_BASIS`.
pub open spec fn key_hash(bytes: Seq<u8>) -> u64
    decreases bytes.len(),
{
    if bytes.len() == 0 {
        KEY_HASH_BASIS
    } else {
        u64_specs::wrapping_mul(key_hash(bytes.drop_last()) ^ (bytes.last() as u64), KEY_HASH_PRIME)
    }
}

/// The key hash of `bytes`.
pub fn key_hash_of(bytes: &[u8]) -> (h: u64)
    ensures
        h == key_hash(bytes@),
{
    let mut h: u64 = KEY_HASH_BASIS;
    let mut i: usize = 0;
    while i < bytes.len()
        invariant
            i <= bytes.len(),
            h == key_hash(bytes@.take(i as int)),
        decreases bytes.len() - i,
    {
        proof {
            assert(bytes@.take(i as int + 1).drop_last() =~= bytes@.take(i as int));
        }
        h = h ^ (bytes[i] as u64);
        h = h.wrapping_mul(KEY_HASH_PRIME);
        i = i + 1;
    }
    proof {
        assert(bytes@.take(bytes.len() as int) =~= bytes@);
    }
    h
}

/// A subscriber as the broker's tables know it; its channel and its
/// envelope filter stay with the caller.
pub struct SubscriberEntry {
    pub id: SubId,
    pub pattern: TopicPattern,
    pub policy: BackpressurePolicy,
    pub has_filter: bool,
    pub group: Option<String>,
    pub ack: AckMode,
}

/// A consumer group: its members, round-robin pointer and strategy.
pub struct GroupState {
    pub name: String,
    pub members: Vec<SubscriberEntry>,
    pub next: usize,
    pub strategy: GroupStrategy,
}

/// Whether a subscriber's pattern matches the topic segments.
pub open spec fn entry_matches(e: SubscriberEntry, segs: Seq<Seq<char>>) -> bool {
    pattern_matches(e.pattern@, segs)
}

/// The ids of the subscribers, in order, whose pattern matches.
pub open spec fn matching_ids(es: Seq<SubscriberEntry>, segs: Seq<Seq<char>>) -> Seq<SubId>
    decreases es.len(),
{
    if es.len() == 0 {
        Seq::empty()
    } else {
        let p = matching_ids(es.drop_last(), segs);
        if entry_matches(es.last(), segs) {
            p.push(es.last().id)
        } else {
            p
        }
    }
}

/// The ids of a list of subscribers.
pub open spec fn ids_of(es: Seq<SubscriberEntry>) -> Seq<SubId> {
    es.map_values(|e: SubscriberEntry| e.id)
}

/// The names of a list of groups.
pub open spec fn group_names(gs: Seq<GroupState>) -> Seq<Seq<char>> {
    gs.map_values(|g: GroupState| g.name@)
}

/// The index of the group named `name`, or -1.
pub open spec fn group_index(gs: Seq<GroupState>, name: Seq<char>) -> int {
    if exists|k: int| 0 <= k < gs.len() && gs[k].name@ == name {
        choose|k: int| 0 <= k < gs.len() && gs[k].name@ == name
    } else {
        -1
    }
}

/// Total number of members over a list of groups.
pub open spec fn member_total(gs: Seq<GroupState>) -> int
    decreases gs.len(),
{
    if gs.len() == 0 {
        0
    } else {
        member_total(gs.drop_last()) + gs.last().members@.len()
    }
}

/// Finds the subscriber with `id` in a list.
pub fn find_in(es: &Vec<SubscriberEntry>, id: SubId) -> (r: Option<usize>)
    ensures
        r matches Some(k) ==> k < es.len() && es@[k as int].id == id,
        r is None ==> forall|k: int| 0 <= k < es.len() ==> (#[trigger] es@[k]).id != id,
{
    let mut k: usize = 0;
    while k < es.len()
        invariant
            k <= es.len(),
            forall|j: int| 0 <= j < k ==> (#[trigger] es@[j]).id != id,
        decreases es.len() - k,
    {
        if es[k].id.0 == id.0 {
            return Some(k);
        }
        k = k + 1;
    }
    None
}

/// The list without the subscribers whose id is `id`, order kept.
pub open spec fn without_id(es: Seq<SubscriberEntry>, id: SubId) -> Seq<SubscriberEntry>
    decreases es.len(),
{
    if es.len() == 0 {
        es
    } else {
        let p = without_id(es.drop_last(), id);
        if es.last().id == id {
            p
        } else {
            p.push(es.last())
        }
    }
}

/// Removes the subscribers with `id`, keeping the order of the others.
pub fn remove_id(es: Vec<SubscriberEntry>, id: SubId) -> (r: Vec<SubscriberEntry>)
    ensures
        r@ == without_id(es@, id),
{
    let mut out: Vec<SubscriberEntry> = Vec::new();
    let mut rest = es;
    let ghost all = rest@;
    let mut taken: usize = 0;
    proof {
        assert(all.take(0) =~= Seq::<SubscriberEntry>::empty());
        assert(all.len() == rest.len());
    }
    while rest.len() > 0
        invariant
            taken + rest.len() == all.len(),
            all.len() <= usize::MAX,
            rest@ == all.skip(taken as int),
            out@ == without_id(all.take(taken as int), id),
        decreases rest.len(),
    {
        let e = rest.remove(0);
        proof {
            assert(e == all[taken as int]);
            assert(all.take(taken as int + 1).drop_last() =~= all.take(taken as int));
            assert(rest@ =~= all.skip(taken as int + 1));
        }
        if e.id.0 != id.0 {
            out.push(e);
        }
        taken = taken + 1;
    }
    proof {
        assert(all.take(all.len() as int) =~= all);
    }
    out
}


/// The parts of a group that contracts speak of: name, members, round-robin
/// pointer and strategy.
pub open spec fn group_row(g: GroupState) -> (Seq<char>, Seq<SubscriberEntry>, usize, GroupStrategy) {
    (g.name@, g.members@, g.next, g.strategy)
}

/// The rows of a list of groups.
pub open spec fn group_rows(gs: Seq<GroupState>) -> Seq<(Seq<char>, Seq<SubscriberEntry>, usize, GroupStrategy)> {
    gs.map_values(|g: GroupState| group_row(g))
}

/// The subscriber tables of a mesh: ungrouped subscribers, which each get
/// a copy of every matching envelope, and consumer groups, of which one
/// member gets it.
pub struct Registry {
    next_sub_id: u64,
    direct: Vec<SubscriberEntry>,
    groups: Vec<GroupState>,
    reaper_started: bool,
}

impl Registry {
    /// Ungrouped subscribers, in subscription order.
    pub closed spec fn direct_subs(&self) -> Seq<SubscriberEntry> {
        self.direct@
    }

    /// Consumer groups, in creation order.
    pub closed spec fn group_list(&self) -> Seq<GroupState> {
        self.groups@
    }

    /// The id the next subscription gets.
    pub closed spec fn next_id(&self) -> u64 {
        self.next_sub_id
    }

    /// Whether the redelivery task was started.
    pub closed spec fn reaper_running(&self) -> bool {
        self.reaper_started
    }

    /// Group names are distinct and no group is empty.
    pub open spec fn wf(&self) -> bool {
        &&& group_names(self.group_list()).no_duplicates()
        &&& forall|k: int|
            0 <= k < self.group_list().len() ==> (#[trigger] self.group_list()[k]).members@.len() > 0
    }

    /// The number of subscribers, grouped or not.
    pub open spec fn total(&self) -> int {
        self.direct_subs().len() + member_total(self.group_list())
    }

    /// Empty tables; the first subscription gets id 1.
    pub fn new() -> (r: Registry)
        ensures
            r.wf(),
            r.direct_subs() == Seq::<SubscriberEntry>::empty(),
            r.group_list() == Seq::<GroupState>::empty(),
            r.next_id() == 1,
            !r.reaper_running(),
    {
        let r = Registry { next_sub_id: 1, direct: Vec::new(), groups: Vec::new(), reaper_started: false };
        proof {
            assert(group_names(r.groups@) =~= Seq::<Seq<char>>::empty());
        }
        r
    }

    /// Index of the group called `name`.
    fn find_group(&self, name: &str) -> (r: Option<usize>)
        ensures
            r matches Some(k) ==> k < self.group_list().len() && self.group_list()[k as int].name@
                == name@,
            r is None ==> forall|k: int|
                0 <= k < self.group_list().len() ==> (#[trigger] self.group_list()[k]).name@ != name@,
    {
        let mut k: usize = 0;
        while k < self.groups.len()
            invariant
                k <= self.groups.len(),
                forall|j: int| 0 <= j < k ==> (#[trigger] self.groups@[j]).name@ != name@,
            decreases self.groups.len() - k,
        {
            if str_eq(self.groups[k].name.as_str(), name) {
                return Some(k);
            }
            k = k + 1;
        }
        None
    }

    /// Adds a subscriber: ungrouped, or as a member of group `group`
    /// (created with `strategy` when it does not exist yet). Returns its id
    /// and whether the redelivery task must be started now (the first
    /// subscriber with explicit acknowledgement).
    pub fn register(
        &mut self,
        pattern: TopicPattern,
        policy: BackpressurePolicy,
        has_filter: bool,
        group: Option<String>,
        strategy: GroupStrategy,
        ack: AckMode,
    ) -> (r: (SubId, bool))
        requires
            old(self).wf(),
        ensures
            final(self).wf(),
            r.0 == SubId(old(self).next_id()),
            final(self).next_id() == u64_specs::wrapping_add(old(self).next_id(), 1),
            r.1 == (ack is Explicit && !old(self).reaper_running()),
            final(self).reaper_running() == (old(self).reaper_running() || ack is Explicit),
            ({
                let e = SubscriberEntry { id: r.0, pattern, policy, has_filter, group, ack };
                let rows = group_rows(old(self).group_list());
                match group {
                    None => {
                        &&& final(self).direct_subs() == old(self).direct_subs().push(e)
                        &&& group_rows(final(self).group_list()) == rows
                    },
                    Some(g) => {
                        let k = group_index(old(self).group_list(), g@);
                        &&& final(self).direct_subs() == old(self).direct_subs()
                        &&& k >= 0 ==> group_rows(final(self).group_list()) == rows.update(
                            k,
                            (rows[k].0, rows[k].1.push(e), rows[k].2, rows[k].3),
                        )
                        &&& k < 0 ==> group_rows(final(self).group_list()) == rows.push(
                            (g@, seq![e], 0usize, strategy),
                        )
                    },
                }
            }),
    {
        let id = SubId(self.next_sub_id);
        self.next_sub_id = self.next_sub_id.wrapping_add(1);
        let explicit = match &ack {
            AckMode::Explicit { .. } => true,
            AckMode::Auto => false,
        };
        let start_reaper = explicit && !self.reaper_started;
        if explicit {
            self.reaper_started = true;
        }
        let ghost gs0 = self.groups@;
        let ghost rows = group_rows(gs0);
        match &group {
            None => {
                let e = SubscriberEntry { id, pattern, policy, has_filter, group, ack };
                self.direct.push(e);
            },
            Some(name) => {
                let found = self.find_group(name.as_str());
                let name_copy = name.clone();
                let e = SubscriberEntry { id, pattern, policy, has_filter, group, ack };
                match found {
                    Some(k) => {
                        proof {
                            assert(gs0[k as int].name@ == name_copy@);
                            assert(group_names(gs0)[k as int] == name_copy@);
                            assert(group_index(gs0, name_copy@) == k) by {
                                let j = group_index(gs0, name_copy@);
                                assert(0 <= j < gs0.len() && gs0[j].name@ == name_copy@);
                                assert(group_names(gs0)[j] == group_names(gs0)[k as int]);
                            }
                        }
                        let mut g = self.groups.remove(k);
                        let ghost g0 = g;
                        g.members.push(e);
                        self.groups.insert(k, g);
                        proof {
                            assert(self.groups@ == gs0.update(k as int, g));
                            assert(group_names(self.groups@) =~= group_names(gs0));
                            assert(group_rows(self.groups@) =~= rows.update(
                                k as int,
                                (rows[k as int].0, rows[k as int].1.push(e), rows[k as int].2, rows[k as int].3),
                            ));
                            assert forall|j: int| 0 <= j < self.groups@.len() implies
                                (#[trigger] self.groups@[j]).members@.len() > 0 by {
                                if j != k {
                                    assert(self.groups@[j] == gs0[j]);
                                }
                            }
                        }
                    },
                    None => {
                        let mut members: Vec<SubscriberEntry> = Vec::new();
                        members.push(e);
                        let g = GroupState { name: name_copy, members, next: 0, strategy };
                        self.groups.push(g);
                        proof {
                            assert(group_index(gs0, g.name@) == -1);
                            assert(group_rows(self.groups@) =~= rows.push((g.name@, seq![e], 0usize, g.strategy)));
                            assert(group_names(self.groups@) =~= group_names(gs0).push(g.name@));
                            assert forall|i: int, j: int|
                                0 <= i < j < group_names(self.groups@).len() implies group_names(self.groups@)[i]
                                    != group_names(self.groups@)[j] by {
                                if j == gs0.len() {
                                    assert(group_names(self.groups@)[i] == gs0[i].name@);
                                }
                            }
                            assert forall|j: int| 0 <= j < self.groups@.len() implies
                                (#[trigger] self.groups@[j]).members@.len() > 0 by {
                                if j < gs0.len() {
                                    assert(self.groups@[j] == gs0[j]);
                                }
                            }
                        }
                    },
                }
            },
        }
        (id, start_reaper)
    }
}


/// The member a group picks for an envelope with topic segments `segs` and
/// headers `headers`, with the group's round-robin pointer afterwards; none
/// when no member matches. Round-robin takes the pointer modulo the number
/// of matching members and advances it; key-hash takes the key hash of
/// the header's UTF-8 bytes modulo that number, or falls back to
/// round-robin when the header is absent.
pub open spec fn group_pick(
    g: GroupState,
    segs: Seq<Seq<char>>,
    headers: Map<Seq<char>, String>,
) -> Option<(SubId, usize)> {
    let m = matching_ids(g.members@, segs);
    if m.len() == 0 {
        None
    } else {
        let rr = Some((m[(g.next as int) % (m.len() as int)], usize_specs::wrapping_add(g.next, 1)));
        match g.strategy {
            GroupStrategy::RoundRobin => rr,
            GroupStrategy::KeyHash { header_key } => {
                if headers.contains_key(header_key@) {
                    let h = key_hash(encode_utf8(headers[header_key@]@));
                    Some((m[(h as usize as int) % (m.len() as int)], g.next))
                } else {
                    rr
                }
            },
        }
    }
}

/// The members the groups pick, in group order.
pub open spec fn group_targets(
    gs: Seq<GroupState>,
    segs: Seq<Seq<char>>,
    headers: Map<Seq<char>, String>,
) -> Seq<SubId>
    decreases gs.len(),
{
    if gs.len() == 0 {
        Seq::empty()
    } else {
        let p = group_targets(gs.drop_last(), segs, headers);
        match group_pick(gs.last(), segs, headers) {
            Some((id, _)) => p.push(id),
            None => p,
        }
    }
}

/// A group's row after it took part in a fan-out.
pub open spec fn row_after_pick(
    g: GroupState,
    segs: Seq<Seq<char>>,
    headers: Map<Seq<char>, String>,
) -> (Seq<char>, Seq<SubscriberEntry>, usize, GroupStrategy) {
    match group_pick(g, segs, headers) {
        Some((_, next)) => (g.name@, g.members@, next, g.strategy),
        None => group_row(g),
    }
}

/// The ids of the matching members of a group, in member order.
fn matching_member_ids(members: &Vec<SubscriberEntry>, topic: &str) -> (r: Vec<SubId>)
    ensures
        r@ == matching_ids(members@, crate::topic::segments_of(topic@)),
{
    let ghost segs = crate::topic::segments_of(topic@);
    let mut out: Vec<SubId> = Vec::new();
    let mut i: usize = 0;
    while i < members.len()
        invariant
            i <= members.len(),
            segs == crate::topic::segments_of(topic@),
            out@ == matching_ids(members@.take(i as int), segs),
        decreases members.len() - i,
    {
        proof {
            assert(members@.take(i as int + 1).drop_last() =~= members@.take(i as int));
        }
        if members[i].pattern.matches_str(topic) {
            out.push(members[i].id);
        }
        i = i + 1;
    }
    proof {
        assert(members@.take(members.len() as int) =~= members@);
    }
    out
}

impl Registry {
    /// The subscribers an envelope on `topic` with `headers` goes to: every
    /// matching ungrouped subscriber in subscription order, then the member
    /// each group with a matching member picks, in group order. Advances the
    /// round-robin pointers of the groups that used them.
    pub fn plan_fanout(&mut self, topic: &str, headers: &StrMap<String>) -> (targets: Vec<SubId>)
        requires
            old(self).wf(),
        ensures
            final(self).wf(),
            targets@ == matching_ids(old(self).direct_subs(), crate::topic::segments_of(topic@))
                + group_targets(old(self).group_list(), crate::topic::segments_of(topic@), headers@),
            final(self).direct_subs() == old(self).direct_subs(),
            group_rows(final(self).group_list()) == old(self).group_list().map_values(
                |g: GroupState| row_after_pick(g, crate::topic::segments_of(topic@), headers@),
            ),
            final(self).next_id() == old(self).next_id(),
            final(self).reaper_running() == old(self).reaper_running(),
    {
        let ghost segs = crate::topic::segments_of(topic@);
        let mut targets = matching_member_ids(&self.direct, topic);
        let ghost direct_part = targets@;
        let ghost gs0 = self.groups@;
        let mut k: usize = 0;
        proof {
            assert(gs0.take(0) =~= Seq::<GroupState>::empty());
            assert(direct_part + group_targets(gs0.take(0), segs, headers@) =~= direct_part);
        }
        while k < self.groups.len()
            invariant
                k <= self.groups.len(),
                self.groups@.len() == gs0.len(),
                segs == crate::topic::segments_of(topic@),
                direct_part == matching_ids(old(self).direct_subs(), segs),
                self.direct@ == old(self).direct_subs(),
                gs0 == old(self).group_list(),
                self.next_sub_id == old(self).next_id(),
                self.reaper_started == old(self).reaper_running(),
                targets@ == direct_part + group_targets(gs0.take(k as int), segs, headers@),
                forall|j: int| 0 <= j < k ==> group_row(#[trigger] self.groups@[j])
                    == row_after_pick(gs0[j], segs, headers@),
                forall|j: int| k <= j < gs0.len() ==> #[trigger] self.groups@[j] == gs0[j],
            decreases self.groups.len() - k,
        {
            let ghost g0 = gs0[k as int];
            let m = matching_member_ids(&self.groups[k].members, topic);
            proof {
                assert(self.groups@[k as int] == g0);
                assert(gs0.take(k as int + 1).drop_last() =~= gs0.take(k as int));
                assert(gs0.take(k as int + 1).last() == g0);
            }
            if m.len() > 0 {
                let mut g = self.groups.remove(k);
                let n = m.len();
                let pick: SubId;
                match &g.strategy {
                    GroupStrategy::RoundRobin => {
                        let i = g.next;
                        g.next = g.next.wrapping_add(1);
                        pick = m[i % n];
                    },
                    GroupStrategy::KeyHash { header_key } => {
                        match headers.get(header_key.as_str()) {
                            Some(v) => {
                                let h = key_hash_of(v.as_str().as_bytes());
                                pick = m[(h as usize) % n];
                            },
                            None => {
                                let i = g.next;
                                g.next = g.next.wrapping_add(1);
                                pick = m[i % n];
                            },
                        }
                    },
                }
                self.groups.insert(k, g);
                targets.push(pick);
                proof {
                    assert(group_pick(g0, segs, headers@) == Some((pick, g.next)));
                    assert(group_row(self.groups@[k as int]) == row_after_pick(g0, segs, headers@));
                    assert(targets@ =~= direct_part + group_targets(gs0.take(k as int + 1), segs, headers@));
                    assert forall|j: int| 0 <= j < k implies group_row(#[trigger] self.groups@[j])
                        == row_after_pick(gs0[j], segs, headers@) by {
                    }
                }
            } else {
                proof {
                    assert(group_pick(g0, segs, headers@) is None);
                    assert(targets@ =~= direct_part + group_targets(gs0.take(k as int + 1), segs, headers@));
                }
            }
            k = k + 1;
        }
        proof {
            assert(gs0.take(gs0.len() as int) =~= gs0);
            assert(group_rows(self.groups@) =~= gs0.map_values(
                |g: GroupState| row_after_pick(g, segs, headers@),
            ));
            assert(group_names(self.groups@) =~= group_names(gs0)) by {
                assert forall|j: int| 0 <= j < gs0.len() implies group_names(self.groups@)[j]
                    == group_names(gs0)[j] by {
                    assert(group_row(self.groups@[j]).0 == row_after_pick(gs0[j], segs, headers@).0);
                }
            }
            assert forall|j: int| 0 <= j < self.groups@.len() implies
                (#[trigger] self.groups@[j]).members@.len() > 0 by {
                assert(group_row(self.groups@[j]).1 == row_after_pick(gs0[j], segs, headers@).1);
                assert(gs0[j].members@.len() > 0);
            }
        }
        targets
    }
}


/// The rows of the groups once subscriber `id` left every one of them;
/// groups left without members disappear.
pub open spec fn rows_without(gs: Seq<GroupState>, id: SubId) -> Seq<(Seq<char>, Seq<SubscriberEntry>, usize, GroupStrategy)>
    decreases gs.len(),
{
    if gs.len() == 0 {
        Seq::empty()
    } else {
        let p = rows_without(gs.drop_last(), id);
        let g = gs.last();
        let ms = without_id(g.members@, id);
        if ms.len() == 0 {
            p
        } else {
            p.push((g.name@, ms, g.next, g.strategy))
        }
    }
}

/// The names kept by `rows_without` are among the names given.
proof fn lemma_rows_without_names(gs: Seq<GroupState>, id: SubId, j: int)
    requires
        0 <= j < rows_without(gs, id).len(),
    ensures
        exists|k: int| 0 <= k < gs.len() && gs[k].name@ == rows_without(gs, id)[j].0,
    decreases gs.len(),
{
    let p = rows_without(gs.drop_last(), id);
    if j < p.len() {
        lemma_rows_without_names(gs.drop_last(), id, j);
        let k = choose|k: int| 0 <= k < gs.drop_last().len() && gs.drop_last()[k].name@ == p[j].0;
        assert(gs[k].name@ == rows_without(gs, id)[j].0);
    } else {
        assert(gs[gs.len() - 1].name@ == rows_without(gs, id)[j].0);
    }
}

/// Names stay distinct, and each from a later group, in `rows_without`.
proof fn lemma_rows_without_distinct(gs: Seq<GroupState>, id: SubId)
    requires
        group_names(gs).no_duplicates(),
    ensures
        forall|i: int, j: int|
            0 <= i < j < rows_without(gs, id).len() ==> rows_without(gs, id)[i].0 != rows_without(
                gs,
                id,
            )[j].0,
        forall|j: int| 0 <= j < rows_without(gs, id).len() ==> rows_without(gs, id)[j].1.len() > 0,
    decreases gs.len(),
{
    if gs.len() > 0 {
        let dl = gs.drop_last();
        assert(group_names(dl) =~= group_names(gs).drop_last());
        lemma_rows_without_distinct(dl, id);
        let p = rows_without(dl, id);
        let r = rows_without(gs, id);
        assert forall|i: int, j: int| 0 <= i < j < r.len() implies r[i].0 != r[j].0 by {
            if j >= p.len() {
                lemma_rows_without_names(dl, id, i);
                let k = choose|k: int| 0 <= k < dl.len() && dl[k].name@ == p[i].0;
                assert(group_names(gs)[k] == dl[k].name@);
                assert(group_names(gs)[gs.len() - 1] == gs.last().name@);
            }
        }
    }
}

impl Registry {
    /// The number of subscribers, grouped or not (saturating).
    pub fn subscriber_count(&self) -> (n: usize)
        ensures
            n == (if self.total() > usize::MAX { usize::MAX as int } else { self.total() }),
    {
        let mut total: usize = self.direct.len();
        let mut k: usize = 0;
        let ghost gs = self.groups@;
        proof {
            assert(gs.take(0) =~= Seq::<GroupState>::empty());
        }
        while k < self.groups.len()
            invariant
                k <= self.groups.len(),
                gs == self.groups@,
                total == (if self.direct@.len() + member_total(gs.take(k as int)) > usize::MAX {
                    usize::MAX as int
                } else {
                    self.direct@.len() + member_total(gs.take(k as int))
                }),
            decreases self.groups.len() - k,
        {
            proof {
                assert(gs.take(k as int + 1).drop_last() =~= gs.take(k as int));
                assert(member_total(gs.take(k as int)) >= 0) by {
                    lemma_member_total_nonneg(gs.take(k as int));
                }
            }
            let add = self.groups[k].members.len();
            if total > usize::MAX - add {
                total = usize::MAX;
            } else {
                total = total + add;
            }
            k = k + 1;
        }
        proof {
            assert(gs.take(gs.len() as int) =~= gs);
        }
        total
    }

    /// Removes subscriber `id`: from group `group` when given (a group left
    /// empty disappears), else from the ungrouped subscribers.
    pub fn detach(&mut self, id: SubId, group: Option<&str>)
        requires
            old(self).wf(),
        ensures
            final(self).wf(),
            final(self).next_id() == old(self).next_id(),
            final(self).reaper_running() == old(self).reaper_running(),
            ({
                let rows = group_rows(old(self).group_list());
                match group {
                    None => {
                        &&& final(self).direct_subs() == without_id(old(self).direct_subs(), id)
                        &&& group_rows(final(self).group_list()) == rows
                    },
                    Some(g) => {
                        let k = group_index(old(self).group_list(), g@);
                        let ms = without_id(rows[k].1, id);
                        &&& final(self).direct_subs() == old(self).direct_subs()
                        &&& k < 0 ==> group_rows(final(self).group_list()) == rows
                        &&& (k >= 0 && ms.len() == 0) ==> group_rows(final(self).group_list())
                            == rows.remove(k)
                        &&& (k >= 0 && ms.len() > 0) ==> group_rows(final(self).group_list())
                            == rows.update(k, (rows[k].0, ms, rows[k].2, rows[k].3))
                    },
                }
            }),
    {
        let ghost gs0 = self.groups@;
        let ghost rows = group_rows(gs0);
        match group {
            None => {
                let mut d: Vec<SubscriberEntry> = Vec::new();
                std::mem::swap(&mut d, &mut self.direct);
                self.direct = remove_id(d, id);
            },
            Some(name) => {
                match self.find_group(name) {
                    None => {
                        proof {
                            assert(!(exists|k: int| 0 <= k < gs0.len() && gs0[k].name@ == name@));
                        }
                    },
                    Some(k) => {
                        proof {
                            assert(group_index(gs0, name@) == k) by {
                                let j = group_index(gs0, name@);
                                assert(group_names(gs0)[j] == group_names(gs0)[k as int]);
                            }
                        }
                        let mut g = self.groups.remove(k);
                        let ghost g0 = g;
                        let mut ms: Vec<SubscriberEntry> = Vec::new();
                        std::mem::swap(&mut ms, &mut g.members);
                        g.members = remove_id(ms, id);
                        if g.members.len() > 0 {
                            self.groups.insert(k, g);
                            proof {
                                assert(self.groups@ == gs0.update(k as int, g));
                                assert(group_names(self.groups@) =~= group_names(gs0));
                                assert(group_rows(self.groups@) =~= rows.update(
                                    k as int,
                                    (rows[k as int].0, without_id(rows[k as int].1, id), rows[k as int].2, rows[k as int].3),
                                ));
                                assert forall|j: int| 0 <= j < self.groups@.len() implies
                                    (#[trigger] self.groups@[j]).members@.len() > 0 by {
                                    if j != k {
                                        assert(self.groups@[j] == gs0[j]);
                                    }
                                }
                            }
                        } else {
                            proof {
                                assert(self.groups@ == gs0.remove(k as int));
                                assert(group_names(self.groups@) =~= group_names(gs0).remove(k as int));
                                assert(group_rows(self.groups@) =~= rows.remove(k as int));
                                assert forall|i: int, j: int|
                                    0 <= i < j < group_names(self.groups@).len() implies group_names(
                                        self.groups@,
                                    )[i] != group_names(self.groups@)[j] by {
                                    let i0 = if i < k { i } else { i + 1 };
                                    let j0 = if j < k { j } else { j + 1 };
                                    assert(group_names(self.groups@)[i] == group_names(gs0)[i0]);
                                    assert(group_names(self.groups@)[j] == group_names(gs0)[j0]);
                                }
                                assert forall|j: int| 0 <= j < self.groups@.len() implies
                                    (#[trigger] self.groups@[j]).members@.len() > 0 by {
                                    let j0 = if j < k { j } else { j + 1 };
                                    assert(self.groups@[j] == gs0[j0]);
                                }
                            }
                        }
                    },
                }
            },
        }
    }

    /// Removes subscriber `id` everywhere (a closed channel): from the
    /// ungrouped subscribers and from every group; emptied groups disappear.
    pub fn purge(&mut self, id: SubId)
        requires
            old(self).wf(),
        ensures
            final(self).wf(),
            final(self).next_id() == old(self).next_id(),
            final(self).reaper_running() == old(self).reaper_running(),
            final(self).direct_subs() == without_id(old(self).direct_subs(), id),
            group_rows(final(self).group_list()) == rows_without(old(self).group_list(), id),
    {
        let mut d: Vec<SubscriberEntry> = Vec::new();
        std::mem::swap(&mut d, &mut self.direct);
        self.direct = remove_id(d, id);
        let mut rest: Vec<GroupState> = Vec::new();
        std::mem::swap(&mut rest, &mut self.groups);
        let ghost all = rest@;
        let mut kept: Vec<GroupState> = Vec::new();
        let mut taken: usize = 0;
        proof {
            assert(all.take(0) =~= Seq::<GroupState>::empty());
            assert(group_rows(kept@) =~= rows_without(all.take(0), id));
            assert(all.len() == rest.len());
        }
        while rest.len() > 0
            invariant
                taken + rest.len() == all.len(),
                all.len() <= usize::MAX,
                rest@ == all.skip(taken as int),
                group_rows(kept@) == rows_without(all.take(taken as int), id),
            decreases rest.len(),
        {
            let mut g = rest.remove(0);
            proof {
                assert(g == all[taken as int]);
                assert(all.take(taken as int + 1).drop_last() =~= all.take(taken as int));
                assert(rest@ =~= all.skip(taken as int + 1));
            }
            let mut ms: Vec<SubscriberEntry> = Vec::new();
            std::mem::swap(&mut ms, &mut g.members);
            g.members = remove_id(ms, id);
            if g.members.len() > 0 {
                kept.push(g);
                proof {
                    assert(group_rows(kept@) =~= rows_without(all.take(taken as int + 1), id));
                }
            }
            taken = taken + 1;
        }
        proof {
            assert(all.take(all.len() as int) =~= all);
            lemma_rows_without_distinct(all, id);
            assert(group_names(kept@) =~= group_rows(kept@).map_values(
                |r: (Seq<char>, Seq<SubscriberEntry>, usize, GroupStrategy)| r.0,
            ));
            assert forall|j: int| 0 <= j < kept@.len() implies (#[trigger] kept@[j]).members@.len() > 0 by {
                assert(group_rows(kept@)[j].1 == kept@[j].members@);
            }
        }
        self.groups = kept;
    }

    /// Empties both tables (the mesh closed).
    pub fn clear(&mut self)
        ensures
            final(self).wf(),
            final(self).direct_subs() == Seq::<SubscriberEntry>::empty(),
            final(self).group_list() == Seq::<GroupState>::empty(),
            final(self).next_id() == old(self).next_id(),
            final(self).reaper_running() == old(self).reaper_running(),
    {
        self.direct = Vec::new();
        self.groups = Vec::new();
        proof {
            assert(group_names(self.groups@) =~= Seq::<Seq<char>>::empty());
        }
    }
}

/// Member totals are never negative.
proof fn lemma_member_total_nonneg(gs: Seq<GroupState>)
    ensures
        member_total(gs) >= 0,
    decreases gs.len(),
{
    if gs.len() > 0 {
        lemma_member_total_nonneg(gs.drop_last());
    }
}


/// Whether an envelope whose time-to-live is `ttl_ms` has expired after
/// `elapsed_ms` milliseconds (a negative elapsed time counts as zero).
pub open spec fn ttl_expired(ttl_ms: Option<u64>, elapsed_ms: i64) -> bool {
    match ttl_ms {
        None => false,
        Some(t) => (if elapsed_ms < 0 { 0 } else { elapsed_ms as int }) > t,
    }
}

/// Whether an envelope with time-to-live `ttl_ms` has expired after
/// `elapsed_ms` milliseconds.
pub fn is_expired_after(ttl_ms: Option<u64>, elapsed_ms: i64) -> (r: bool)
    ensures
        r == ttl_expired(ttl_ms, elapsed_ms),
{
    match ttl_ms {
        None => false,
        Some(t) => {
            let elapsed: u64 = if elapsed_ms < 0 { 0 } else { elapsed_ms as u64 };
            elapsed > t
        },
    }
}

/// What a publish does after its checks.
#[derive(Debug, Clone, Copy, PartialEq, Eq)]
pub enum Admission {
    /// Nothing is delivered (expired, or a duplicate); the publish counts 0.
    Skip,
    /// Store, bridge and fan out.
    Deliver,
}

/// The checks of a local publish, in order: a closed mesh refuses; an
/// expired envelope is skipped; an envelope with an idempotency key seen on
/// the same topic within the window is skipped (a new key is remembered);
/// the topic must be a valid concrete topic.
pub fn admit_publish(
    dedup: &mut DedupRing,
    closed: bool,
    expired: bool,
    idempotency_key: Option<&str>,
    topic: &str,
) -> (r: Result<Admission, EventMeshError>)
    requires
        old(dedup).wf(),
    ensures
        final(dedup).wf(),
        final(dedup).capacity() == old(dedup).capacity(),
        closed ==> r matches Err(EventMeshError::Closed),
        (closed || expired || idempotency_key is None) ==> final(dedup)@ == old(dedup)@,
        !closed && expired ==> r == Ok::<Admission, EventMeshError>(Admission::Skip),
        !closed && !expired ==> match idempotency_key {
            Some(k) => {
                let h = pair_fingerprint(topic.spec_bytes(), k.spec_bytes());
                &&& final(dedup)@ == ring_step(old(dedup)@, old(dedup).capacity() as nat, h)
                &&& old(dedup)@.contains(h) ==> r == Ok::<Admission, EventMeshError>(
                    Admission::Skip,
                ) && final(dedup)@ == old(dedup)@
                &&& !old(dedup)@.contains(h) ==> (r is Ok <==> valid_topic(topic@)) && (r is Ok
                    ==> r == Ok::<Admission, EventMeshError>(Admission::Deliver)) && (r is Err ==> r
                    matches Err(EventMeshError::InvalidTopic(_)))
            },
            None => {
                &&& r is Ok <==> valid_topic(topic@)
                &&& r is Ok ==> r == Ok::<Admission, EventMeshError>(Admission::Deliver)
                &&& r is Err ==> r matches Err(EventMeshError::InvalidTopic(_))
            },
        },
{
    if closed {
        return Err(EventMeshError::Closed);
    }
    if expired {
        return Ok(Admission::Skip);
    }
    if let Some(k) = idempotency_key {
        if dedup.check_and_insert(topic, k) {
            return Ok(Admission::Skip);
        }
    }
    match Topic::validate_str(topic) {
        Ok(()) => Ok(Admission::Deliver),
        Err(e) => Err(e),
    }
}

/// The checks of an envelope that arrived from a bridge: a closed mesh
/// refuses; an expired envelope is skipped; an envelope whose id (as text)
/// was seen on the same topic within the window is skipped.
pub fn admit_remote(
    dedup: &mut DedupRing,
    closed: bool,
    expired: bool,
    id_text: &str,
    topic: &str,
) -> (r: Result<Admission, EventMeshError>)
    requires
        old(dedup).wf(),
    ensures
        final(dedup).wf(),
        final(dedup).capacity() == old(dedup).capacity(),
        closed ==> r matches Err(EventMeshError::Closed),
        (closed || expired) ==> final(dedup)@ == old(dedup)@,
        !closed && expired ==> r == Ok::<Admission, EventMeshError>(Admission::Skip),
        !closed && !expired ==> {
            let h = pair_fingerprint(topic.spec_bytes(), id_text.spec_bytes());
            &&& final(dedup)@ == ring_step(old(dedup)@, old(dedup).capacity() as nat, h)
            &&& r == Ok::<Admission, EventMeshError>(
                if old(dedup)@.contains(h) {
                    Admission::Skip
                } else {
                    Admission::Deliver
                },
            )
        },
{
    if closed {
        return Err(EventMeshError::Closed);
    }
    if expired {
        return Ok(Admission::Skip);
    }
    if dedup.check_and_insert(topic, id_text) {
        Ok(Admission::Skip)
    } else {
        Ok(Admission::Deliver)
    }
}

/// The result of handing an envelope to a subscriber's channel.
#[derive(Debug, Clone, Copy, PartialEq, Eq)]
pub enum SendAttempt {
    /// The channel took it (possibly evicting its oldest item).
    Accepted,
    /// The channel was full and did not take it.
    Full,
    /// The receiving side is gone.
    Closed,
}

/// What a delivery amounted to.
#[derive(Debug, Clone, Copy, PartialEq, Eq)]
pub enum DeliveryOutcome {
    Delivered,
    Dropped,
    Closed,
}

/// The outcome of a delivery under a backpressure policy. Blocking
/// delivery waits for room and a drop-oldest channel always makes room,
/// so neither reports `Full`.
pub fn delivery_outcome(policy: BackpressurePolicy, attempt: SendAttempt) -> (r: DeliveryOutcome)
    requires
        !(policy == BackpressurePolicy::Block && attempt == SendAttempt::Full),
        !(policy == BackpressurePolicy::DropOldest && attempt == SendAttempt::Full),
    ensures
        attempt == SendAttempt::Accepted ==> r == DeliveryOutcome::Delivered,
        attempt == SendAttempt::Closed ==> r == DeliveryOutcome::Closed,
        attempt == SendAttempt::Full ==> r == (if policy == BackpressurePolicy::DropNewest {
            DeliveryOutcome::Dropped
        } else {
            DeliveryOutcome::Closed
        }),
{
    match attempt {
        SendAttempt::Accepted => DeliveryOutcome::Delivered,
        SendAttempt::Closed => DeliveryOutcome::Closed,
        SendAttempt::Full => match policy {
            BackpressurePolicy::DropNewest => DeliveryOutcome::Dropped,
            _ => DeliveryOutcome::Closed,
        },
    }
}

/// Running totals of a fan-out: envelopes delivered, and whether an
/// ungrouped or a grouped subscriber turned out to be closed.
#[derive(Debug, Clone, Copy, PartialEq, Eq)]
pub struct FanoutTally {
    pub delivered: usize,
    pub dead_direct: bool,
    pub dead_groups: bool,
}

impl FanoutTally {
    /// Nothing delivered yet.
    pub fn new() -> (r: FanoutTally)
        ensures
            r == (FanoutTally { delivered: 0, dead_direct: false, dead_groups: false }),
    {
        FanoutTally { delivered: 0, dead_direct: false, dead_groups: false }
    }

    /// Accounts for one delivery to a subscriber (`grouped` when it is a
    /// group member).
    pub fn record(&mut self, outcome: DeliveryOutcome, grouped: bool)
        requires
            old(self).delivered < usize::MAX,
        ensures
            final(self).delivered == old(self).delivered + (if outcome
                == DeliveryOutcome::Delivered {
                1int
            } else {
                0int
            }),
            final(self).dead_direct == (old(self).dead_direct || (outcome == DeliveryOutcome::Closed
                && !grouped)),
            final(self).dead_groups == (old(self).dead_groups || (outcome == DeliveryOutcome::Closed
                && grouped)),
    {
        match outcome {
            DeliveryOutcome::Delivered => {
                self.delivered = self.delivered + 1;
            },
            DeliveryOutcome::Dropped => {},
            DeliveryOutcome::Closed => {
                if grouped {
                    self.dead_groups = true;
                } else {
                    self.dead_direct = true;
                }
            },
        }
    }
}

/// An envelope delivered to an explicit-acknowledgement subscriber and not
/// acknowledged yet.
pub struct InflightEntry {
    pub sub_id: SubId,
    pub env_id: u128,
    pub topic: String,
    pub group: Option<String>,
    pub visibility_ms: u64,
    pub max_attempts: u32,
    pub dlq_topic: Option<String>,
    pub deadline_ms: u64,
    pub attempts: u32,
}

/// Whether an in-flight entry is for `(sub, env)`.
pub open spec fn is_for(e: InflightEntry, sub: SubId, env: u128) -> bool {
    e.sub_id == sub && e.env_id == env
}

/// The index of the entry for `(sub, env)`, or -1.
pub open spec fn inflight_index(es: Seq<InflightEntry>, sub: SubId, env: u128) -> int {
    if exists|k: int| 0 <= k < es.len() && is_for(es[k], sub, env) {
        choose|k: int| 0 <= k < es.len() && is_for(es[k], sub, env)
    } else {
        -1
    }
}

/// The entries whose deadline has passed at `now_ms`, in order.
pub open spec fn expired_entries(es: Seq<InflightEntry>, now_ms: u64) -> Seq<InflightEntry>
    decreases es.len(),
{
    if es.len() == 0 {
        es
    } else {
        let p = expired_entries(es.drop_last(), now_ms);
        if es.last().deadline_ms <= now_ms {
            p.push(es.last())
        } else {
            p
        }
    }
}

/// The entries whose deadline has not passed at `now_ms`, in order.
pub open spec fn live_entries(es: Seq<InflightEntry>, now_ms: u64) -> Seq<InflightEntry>
    decreases es.len(),
{
    if es.len() == 0 {
        es
    } else {
        let p = live_entries(es.drop_last(), now_ms);
        if es.last().deadline_ms <= now_ms {
            p
        } else {
            p.push(es.last())
        }
    }
}

/// The entries not for subscriber `sub`, in order.
pub open spec fn entries_not_of(es: Seq<InflightEntry>, sub: SubId) -> Seq<InflightEntry>
    decreases es.len(),
{
    if es.len() == 0 {
        es
    } else {
        let p = entries_not_of(es.drop_last(), sub);
        if es.last().sub_id == sub {
            p
        } else {
            p.push(es.last())
        }
    }
}

/// The in-flight table, keyed by (subscriber, envelope id).
pub struct InflightTable {
    entries: Vec<InflightEntry>,
}

impl InflightTable {
    /// The entries, in insertion order.
    pub closed spec fn entries_spec(&self) -> Seq<InflightEntry> {
        self.entries@
    }

    /// At most one entry per key.
    pub open spec fn wf(&self) -> bool {
        forall|i: int, j: int|
            0 <= i < j < self.entries_spec().len() ==> !is_for(
                #[trigger] self.entries_spec()[j],
                (#[trigger] self.entries_spec()[i]).sub_id,
                self.entries_spec()[i].env_id,
            )
    }

    /// An empty table.
    pub fn new() -> (r: InflightTable)
        ensures
            r.wf(),
            r.entries_spec() == Seq::<InflightEntry>::empty(),
    {
        InflightTable { entries: Vec::new() }
    }

    /// The number of entries.
    pub fn len(&self) -> (n: usize)
        ensures
            n == self.entries_spec().len(),
    {
        self.entries.len()
    }

    fn find(&self, sub: SubId, env: u128) -> (r: Option<usize>)
        ensures
            r matches Some(k) ==> k < self.entries_spec().len() && is_for(
                self.entries_spec()[k as int],
                sub,
                env,
            ),
            r is None ==> forall|k: int|
                0 <= k < self.entries_spec().len() ==> !is_for(
                    #[trigger] self.entries_spec()[k],
                    sub,
                    env,
                ),
    {
        let mut k: usize = 0;
        while k < self.entries.len()
            invariant
                k <= self.entries.len(),
                forall|j: int| 0 <= j < k ==> !is_for(#[trigger] self.entries@[j], sub, env),
            decreases self.entries.len() - k,
        {
            if self.entries[k].sub_id.0 == sub.0 && self.entries[k].env_id == env {
                return Some(k);
            }
            k = k + 1;
        }
        None
    }

    /// Records `e`, replacing the entry with the same key.
    pub fn insert(&mut self, e: InflightEntry)
        requires
            old(self).wf(),
        ensures
            final(self).wf(),
            ({
                let k = inflight_index(old(self).entries_spec(), e.sub_id, e.env_id);
                &&& k >= 0 ==> final(self).entries_spec() == old(self).entries_spec().update(k, e)
                &&& k < 0 ==> final(self).entries_spec() == old(self).entries_spec().push(e)
            }),
    {
        let ghost es = self.entries@;
        match self.find(e.sub_id, e.env_id) {
            Some(k) => {
                proof {
                    assert(inflight_index(es, e.sub_id, e.env_id) == k) by {
                        let j = inflight_index(es, e.sub_id, e.env_id);
                        assert(0 <= j < es.len() && is_for(es[j], e.sub_id, e.env_id));
                        if j < k {
                            assert(is_for(es[k as int], es[j].sub_id, es[j].env_id));
                        } else if j > k {
                            assert(is_for(es[j], es[k as int].sub_id, es[k as int].env_id));
                        }
                    }
                }
                let _ = self.entries.remove(k);
                self.entries.insert(k, e);
                proof {
                    assert(self.entries@ =~= es.update(k as int, e));
                    assert forall|i: int, j: int| 0 <= i < j < self.entries@.len() implies !is_for(
                        #[trigger] self.entries@[j],
                        (#[trigger] self.entries@[i]).sub_id,
                        self.entries@[i].env_id,
                    ) by {
                        if i == k {
                            assert(is_for(es[k as int], e.sub_id, e.env_id));
                        } else if j == k {
                            assert(is_for(es[k as int], e.sub_id, e.env_id));
                        }
                    }
                }
            },
            None => {
                self.entries.push(e);
                proof {
                    assert(inflight_index(es, e.sub_id, e.env_id) == -1);
                }
            },
        }
    }

    /// Removes and returns the entry for `(sub, env)` (an acknowledgement,
    /// or the start of a negative acknowledgement).
    pub fn take(&mut self, sub: SubId, env: u128) -> (r: Option<InflightEntry>)
        requires
            old(self).wf(),
        ensures
            final(self).wf(),
            ({
                let k = inflight_index(old(self).entries_spec(), sub, env);
                &&& k < 0 ==> r is None && final(self).entries_spec() == old(self).entries_spec()
                &&& k >= 0 ==> r == Some(old(self).entries_spec()[k]) && final(self).entries_spec()
                    == old(self).entries_spec().remove(k)
            }),
    {
        let ghost es = self.entries@;
        match self.find(sub, env) {
            Some(k) => {
                proof {
                    assert(inflight_index(es, sub, env) == k) by {
                        let j = inflight_index(es, sub, env);
                        if j < k {
                            assert(is_for(es[k as int], es[j].sub_id, es[j].env_id));
                        } else if j > k {
                            assert(is_for(es[j], es[k as int].sub_id, es[k as int].env_id));
                        }
                    }
                }
                let e = self.entries.remove(k);
                proof {
                    assert forall|i: int, j: int| 0 <= i < j < self.entries@.len() implies !is_for(
                        #[trigger] self.entries@[j],
                        (#[trigger] self.entries@[i]).sub_id,
                        self.entries@[i].env_id,
                    ) by {
                        let i0 = if i < k { i } else { i + 1 };
                        let j0 = if j < k { j } else { j + 1 };
                        assert(self.entries@[i] == es[i0]);
                        assert(self.entries@[j] == es[j0]);
                    }
                }
                Some(e)
            },
            None => {
                proof {
                    assert(inflight_index(es, sub, env) == -1);
                }
                None
            },
        }
    }

    /// Removes and returns the entries whose deadline passed at `now_ms`;
    /// the others stay, in order.
    pub fn take_expired(&mut self, now_ms: u64) -> (r: Vec<InflightEntry>)
        requires
            old(self).wf(),
        ensures
            final(self).wf(),
            r@ == expired_entries(old(self).entries_spec(), now_ms),
            final(self).entries_spec() == live_entries(old(self).entries_spec(), now_ms),
    {
        let mut rest: Vec<InflightEntry> = Vec::new();
        std::mem::swap(&mut rest, &mut self.entries);
        let ghost all = rest@;
        let mut expired: Vec<InflightEntry> = Vec::new();
        let mut live: Vec<InflightEntry> = Vec::new();
        let mut taken: usize = 0;
        proof {
            assert(all.take(0) =~= Seq::<InflightEntry>::empty());
            assert(all.len() == rest.len());
        }
        while rest.len() > 0
            invariant
                taken + rest.len() == all.len(),
                all.len() <= usize::MAX,
                rest@ == all.skip(taken as int),
                expired@ == expired_entries(all.take(taken as int), now_ms),
                live@ == live_entries(all.take(taken as int), now_ms),
            decreases rest.len(),
        {
            let e = rest.remove(0);
            proof {
                assert(e == all[taken as int]);
                assert(all.take(taken as int + 1).drop_last() =~= all.take(taken as int));
                assert(rest@ =~= all.skip(taken as int + 1));
            }
            if e.deadline_ms <= now_ms {
                expired.push(e);
            } else {
                live.push(e);
            }
            taken = taken + 1;
        }
        proof {
            assert(all.take(all.len() as int) =~= all);
        }
        self.entries = live;
        proof {
            lemma_live_entries_wf(all, now_ms);
        }
        expired
    }

    /// Removes every entry of subscriber `sub` (it detached).
    pub fn drop_subscriber(&mut self, sub: SubId)
        requires
            old(self).wf(),
        ensures
            final(self).wf(),
            final(self).entries_spec() == entries_not_of(old(self).entries_spec(), sub),
    {
        let mut rest: Vec<InflightEntry> = Vec::new();
        std::mem::swap(&mut rest, &mut self.entries);
        let ghost all = rest@;
        let mut kept: Vec<InflightEntry> = Vec::new();
        let mut taken: usize = 0;
        proof {
            assert(all.take(0) =~= Seq::<InflightEntry>::empty());
            assert(all.len() == rest.len());
        }
        while rest.len() > 0
            invariant
                taken + rest.len() == all.len(),
                all.len() <= usize::MAX,
                rest@ == all.skip(taken as int),
                kept@ == entries_not_of(all.take(taken as int), sub),
            decreases rest.len(),
        {
            let e = rest.remove(0);
            proof {
                assert(e == all[taken as int]);
                assert(all.take(taken as int + 1).drop_last() =~= all.take(taken as int));
                assert(rest@ =~= all.skip(taken as int + 1));
            }
            if e.sub_id.0 != sub.0 {
                kept.push(e);
            }
            taken = taken + 1;
        }
        proof {
            assert(all.take(all.len() as int) =~= all);
            lemma_not_of_wf(all, sub);
        }
        self.entries = kept;
    }

    /// Empties the table (shutdown).
    pub fn clear(&mut self)
        ensures
            final(self).wf(),
            final(self).entries_spec() == Seq::<InflightEntry>::empty(),
    {
        self.entries = Vec::new();
    }
}

/// Keeping a subsequence of distinct-keyed entries keeps keys distinct.
proof fn lemma_live_entries_wf(es: Seq<InflightEntry>, now_ms: u64)
    requires
        forall|i: int, j: int|
            0 <= i < j < es.len() ==> !is_for(#[trigger] es[j], (#[trigger] es[i]).sub_id, es[i].env_id),
    ensures
        forall|i: int, j: int|
            0 <= i < j < live_entries(es, now_ms).len() ==> !is_for(
                #[trigger] live_entries(es, now_ms)[j],
                (#[trigger] live_entries(es, now_ms)[i]).sub_id,
                live_entries(es, now_ms)[i].env_id,
            ),
        forall|j: int| 0 <= j < live_entries(es, now_ms).len() ==> es.contains(#[trigger] live_entries(es, now_ms)[j]),
    decreases es.len(),
{
    if es.len() > 0 {
        let dl = es.drop_last();
        lemma_live_entries_wf(dl, now_ms);
        let p = live_entries(dl, now_ms);
        let l = live_entries(es, now_ms);
        assert forall|j: int| 0 <= j < l.len() implies es.contains(#[trigger] l[j]) by {
            if j < p.len() {
                assert(dl.contains(p[j]));
                let k = choose|k: int| 0 <= k < dl.len() && dl[k] == p[j];
                assert(es[k] == p[j]);
            } else {
                assert(es[es.len() - 1] == l[j]);
            }
        }
        assert forall|i: int, j: int| 0 <= i < j < l.len() implies !is_for(#[trigger] l[j], (#[trigger] l[i]).sub_id, l[i].env_id) by {
            if j >= p.len() {
                assert(dl.contains(p[i]));
                let k = choose|k: int| 0 <= k < dl.len() && dl[k] == p[i];
                assert(es[k] == l[i]);
                assert(l[j] == es[es.len() - 1]);
            }
        }
    }
}

/// Dropping a subscriber's entries keeps keys distinct.
proof fn lemma_not_of_wf(es: Seq<InflightEntry>, sub: SubId)
    requires
        forall|i: int, j: int|
            0 <= i < j < es.len() ==> !is_for(#[trigger] es[j], (#[trigger] es[i]).sub_id, es[i].env_id),
    ensures
        forall|i: int, j: int|
            0 <= i < j < entries_not_of(es, sub).len() ==> !is_for(
                #[trigger] entries_not_of(es, sub)[j],
                (#[trigger] entries_not_of(es, sub)[i]).sub_id,
                entries_not_of(es, sub)[i].env_id,
            ),
        forall|j: int| 0 <= j < entries_not_of(es, sub).len() ==> es.contains(#[trigger] entries_not_of(es, sub)[j]),
    decreases es.len(),
{
    if es.len() > 0 {
        let dl = es.drop_last();
        lemma_not_of_wf(dl, sub);
        let p = entries_not_of(dl, sub);
        let l = entries_not_of(es, sub);
        assert forall|j: int| 0 <= j < l.len() implies es.contains(#[trigger] l[j]) by {
            if j < p.len() {
                assert(dl.contains(p[j]));
                let k = choose|k: int| 0 <= k < dl.len() && dl[k] == p[j];
                assert(es[k] == p[j]);
            } else {
                assert(es[es.len() - 1] == l[j]);
            }
        }
        assert forall|i: int, j: int| 0 <= i < j < l.len() implies !is_for(#[trigger] l[j], (#[trigger] l[i]).sub_id, l[i].env_id) by {
            if j >= p.len() {
                assert(dl.contains(p[i]));
                let k = choose|k: int| 0 <= k < dl.len() && dl[k] == p[i];
                assert(es[k] == l[i]);
                assert(l[j] == es[es.len() - 1]);
            }
        }
    }
}


/// Copies an optional string.
fn copy_opt_string(s: &Option<String>) -> (r: Option<String>)
    ensures
        r is Some <==> s is Some,
        r matches Some(v) ==> v@ == s->0@,
{
    match s {
        Some(v) => Some(v.clone()),
        None => None,
    }
}

/// Two optional strings hold the same text (or are both absent).
pub open spec fn same_opt_text(a: Option<String>, b: Option<String>) -> bool {
    match (a, b) {
        (Some(x), Some(y)) => x@ == y@,
        (None, None) => true,
        _ => false,
    }
}

/// The in-flight entry for a delivery of envelope `env_id` on `topic` to
/// `sub` at `now_ms`, attempt number `attempt`; none unless the subscriber
/// acknowledges explicitly. Its deadline is `now_ms` plus the visibility
/// window.
pub fn track_delivery(
    sub: &SubscriberEntry,
    env_id: u128,
    topic: &str,
    now_ms: u64,
    attempt: u32,
) -> (r: Option<InflightEntry>)
    requires
        sub.ack matches AckMode::Explicit { visibility_ms, .. } ==> now_ms + visibility_ms
            <= u64::MAX,
    ensures
        sub.ack is Auto ==> r is None,
        sub.ack matches AckMode::Explicit { visibility_ms, max_attempts, dlq_topic } ==> (r matches Some(
            e,
        ) && e.sub_id == sub.id && e.env_id == env_id && e.topic@ == topic@ && same_opt_text(
            e.group,
            sub.group,
        ) && e.visibility_ms == visibility_ms && e.max_attempts == max_attempts && same_opt_text(
            e.dlq_topic,
            dlq_topic,
        ) && e.deadline_ms == now_ms + visibility_ms && e.attempts == attempt),
{
    match &sub.ack {
        AckMode::Auto => None,
        AckMode::Explicit { visibility_ms, max_attempts, dlq_topic } => Some(
            InflightEntry {
                sub_id: sub.id,
                env_id,
                topic: topic.to_owned(),
                group: copy_opt_string(&sub.group),
                visibility_ms: *visibility_ms,
                max_attempts: *max_attempts,
                dlq_topic: copy_opt_string(dlq_topic),
                deadline_ms: now_ms + *visibility_ms,
                attempts: attempt,
            },
        ),
    }
}

/// The dead-letter topic of an entry, when it has one that is a valid
/// concrete topic.
pub fn dead_letter_topic(info: &InflightEntry) -> (r: Option<Topic>)
    ensures
        r is Some <==> (info.dlq_topic matches Some(d) && valid_topic(d@)),
        r matches Some(t) ==> t@ == info.dlq_topic->0@,
{
    match &info.dlq_topic {
        None => None,
        Some(d) => match Topic::new(d.as_str()) {
            Ok(t) => Some(t),
            Err(_) => None,
        },
    }
}

/// What to do with an in-flight envelope whose deadline passed (or that
/// was negatively acknowledged for immediate requeue).
#[derive(Debug, Clone, Copy, PartialEq, Eq)]
pub enum Redelivery {
    /// Attempts exhausted: forward to the dead-letter topic, if any.
    DeadLetter,
    /// Deliver again to the same subscriber, as attempt `attempt`.
    Deliver { sub: SubId, attempt: u32 },
    /// The subscriber left; deliver to this member of its group instead.
    Redispatch { sub: SubId, attempt: u32 },
    /// The subscriber left and had no group (or the group has no matching
    /// member): nothing more is done.
    GiveUp,
}

/// The member round-robin picks in `g` for topic segments `segs`, with the
/// pointer afterwards; none when no member matches.
pub open spec fn round_robin_pick(g: GroupState, segs: Seq<Seq<char>>) -> Option<(SubId, usize)> {
    let m = matching_ids(g.members@, segs);
    if m.len() == 0 {
        None
    } else {
        Some((m[(g.next as int) % (m.len() as int)], usize_specs::wrapping_add(g.next, 1)))
    }
}

/// Whether subscriber `id` is still registered where an entry says it was.
pub open spec fn still_present(r: Registry, id: SubId, group: Option<String>) -> bool {
    match group {
        Some(g) => {
            let k = group_index(r.group_list(), g@);
            k >= 0 && ids_of(r.group_list()[k].members@).contains(id)
        },
        None => ids_of(r.direct_subs()).contains(id),
    }
}

impl Registry {
    /// Whether subscriber `id` is registered in group `group` (or, without a
    /// group, among the ungrouped subscribers).
    pub fn has_subscriber(&self, id: SubId, group: Option<&str>) -> (b: bool)
        requires
            self.wf(),
        ensures
            b == (match group {
                Some(g) => {
                    let k = group_index(self.group_list(), g@);
                    k >= 0 && ids_of(self.group_list()[k].members@).contains(id)
                },
                None => ids_of(self.direct_subs()).contains(id),
            }),
    {
        let ghost gs = self.groups@;
        match group {
            Some(name) => match self.find_group(name) {
                Some(k) => {
                    proof {
                        assert(group_index(gs, name@) == k) by {
                            let j = group_index(gs, name@);
                            assert(group_names(gs)[j] == group_names(gs)[k as int]);
                        }
                    }
                    let found = find_in(&self.groups[k].members, id);
                    proof {
                        let ms = gs[k as int].members@;
                        if found is None && ids_of(ms).contains(id) {
                            let j = choose|j: int| 0 <= j < ids_of(ms).len() && ids_of(ms)[j] == id;
                            assert(ms[j].id == id);
                        }
                        if let Some(j) = found {
                            assert(ids_of(ms)[j as int] == id);
                        }
                    }
                    found.is_some()
                },
                None => false,
            },
            None => {
                let found = find_in(&self.direct, id);
                proof {
                    let ms = self.direct@;
                    if found is None && ids_of(ms).contains(id) {
                        let j = choose|j: int| 0 <= j < ids_of(ms).len() && ids_of(ms)[j] == id;
                        assert(ms[j].id == id);
                    }
                    if let Some(j) = found {
                        assert(ids_of(ms)[j as int] == id);
                    }
                }
                found.is_some()
            },
        }
    }

    /// Decides the fate of an expired in-flight envelope: dead-letter once
    /// its attempts reach the maximum; otherwise deliver again (attempt + 1,
    /// saturating) to the same subscriber if it is still there, else to the
    /// round-robin member of its group that matches the topic; else give up.
    pub fn plan_redelivery(&mut self, info: &InflightEntry) -> (r: Redelivery)
        requires
            old(self).wf(),
        ensures
            final(self).wf(),
            final(self).direct_subs() == old(self).direct_subs(),
            final(self).next_id() == old(self).next_id(),
            final(self).reaper_running() == old(self).reaper_running(),
            ({
                let next: u32 = if info.attempts == u32::MAX { u32::MAX } else { (info.attempts + 1) as u32 };
                let rows = group_rows(old(self).group_list());
                if info.attempts >= info.max_attempts {
                    r == Redelivery::DeadLetter && group_rows(final(self).group_list()) == rows
                } else if still_present(*old(self), info.sub_id, info.group) {
                    r == (Redelivery::Deliver { sub: info.sub_id, attempt: next })
                        && group_rows(final(self).group_list()) == rows
                } else {
                    match info.group {
                        None => r == Redelivery::GiveUp && group_rows(final(self).group_list()) == rows,
                        Some(g) => {
                            let k = group_index(old(self).group_list(), g@);
                            if k < 0 {
                                r == Redelivery::GiveUp && group_rows(final(self).group_list()) == rows
                            } else {
                                match round_robin_pick(
                                    old(self).group_list()[k],
                                    crate::topic::segments_of(info.topic@),
                                ) {
                                    None => r == Redelivery::GiveUp && group_rows(
                                        final(self).group_list(),
                                    ) == rows,
                                    Some((pick, ptr)) => r == (Redelivery::Redispatch {
                                        sub: pick,
                                        attempt: next,
                                    }) && group_rows(final(self).group_list()) == rows.update(
                                        k,
                                        (rows[k].0, rows[k].1, ptr, rows[k].3),
                                    ),
                                }
                            }
                        },
                    }
                }
            }),
    {
        if info.attempts >= info.max_attempts {
            return Redelivery::DeadLetter;
        }
        let next: u32 = if info.attempts == u32::MAX { u32::MAX } else { info.attempts + 1 };
        let group: Option<&str> = match &info.group {
            Some(g) => Some(g.as_str()),
            None => None,
        };
        if self.has_subscriber(info.sub_id, group) {
            return Redelivery::Deliver { sub: info.sub_id, attempt: next };
        }
        let name = match group {
            Some(n) => n,
            None => {
                return Redelivery::GiveUp;
            },
        };
        let k = match self.find_group(name) {
            Some(k) => k,
            None => {
                return Redelivery::GiveUp;
            },
        };
        let ghost gs0 = self.groups@;
        let ghost rows = group_rows(gs0);
        proof {
            assert(group_index(gs0, name@) == k) by {
                let j = group_index(gs0, name@);
                assert(group_names(gs0)[j] == group_names(gs0)[k as int]);
            }
        }
        let m = matching_member_ids(&self.groups[k].members, info.topic.as_str());
        if m.len() == 0 {
            return Redelivery::GiveUp;
        }
        let mut g = self.groups.remove(k);
        let i = g.next;
        g.next = g.next.wrapping_add(1);
        let pick = m[i % m.len()];
        self.groups.insert(k, g);
        proof {
            assert(self.groups@ == gs0.update(k as int, g));
            assert(group_names(self.groups@) =~= group_names(gs0));
            assert(group_rows(self.groups@) =~= rows.update(
                k as int,
                (rows[k as int].0, rows[k as int].1, g.next, rows[k as int].3),
            ));
            assert forall|j: int| 0 <= j < self.groups@.len() implies
                (#[trigger] self.groups@[j]).members@.len() > 0 by {
                if j != k {
                    assert(self.groups@[j] == gs0[j]);
                }
            }
        }
        Redelivery::Redispatch { sub: pick, attempt: next }
    }
}


/// Every id that `matching_ids` lists belongs to a subscriber whose pattern
/// matches.
pub proof fn matching_ids_match(es: Seq<SubscriberEntry>, segs: Seq<Seq<char>>, j: int)
    requires
        0 <= j < matching_ids(es, segs).len(),
    ensures
        exists|k: int| 0 <= k < es.len() && es[k].id == matching_ids(es, segs)[j] && entry_matches(es[k], segs),
    decreases es.len(),
{
    let p = matching_ids(es.drop_last(), segs);
    if j < p.len() {
        matching_ids_match(es.drop_last(), segs, j);
        let k = choose|k: int| 0 <= k < es.drop_last().len() && es.drop_last()[k].id == p[j] && entry_matches(es.drop_last()[k], segs);
        assert(es[k] == es.drop_last()[k]);
    } else {
        assert(es[es.len() - 1] == es.last());
    }
}

/// Every subscriber whose pattern matches is listed by `matching_ids`: an
/// ungrouped matching subscriber always receives the envelope.
pub proof fn matching_subscribers_are_targeted(es: Seq<SubscriberEntry>, segs: Seq<Seq<char>>, j: int)
    requires
        0 <= j < es.len(),
        entry_matches(es[j], segs),
    ensures
        matching_ids(es, segs).contains(es[j].id),
    decreases es.len(),
{
    let p = matching_ids(es.drop_last(), segs);
    if j < es.len() - 1 {
        assert(es.drop_last()[j] == es[j]);
        matching_subscribers_are_targeted(es.drop_last(), segs, j);
        let k = choose|k: int| 0 <= k < p.len() && p[k] == es[j].id;
        if entry_matches(es.last(), segs) {
            assert(p.push(es.last().id)[k] == es[j].id);
        }
    } else {
        assert(es[j] == es.last());
        assert(p.push(es.last().id)[p.len() as int] == es[j].id);
    }
}

/// A group hands an envelope to exactly one member, and that member's
/// pattern matches the topic; a group without a matching member hands it to
/// none.
pub proof fn group_pick_is_matching_member(g: GroupState, segs: Seq<Seq<char>>, headers: Map<Seq<char>, String>)
    ensures
        group_pick(g, segs, headers) is None <==> matching_ids(g.members@, segs).len() == 0,
        group_pick(g, segs, headers) matches Some((id, _)) ==> exists|k: int|
            0 <= k < g.members@.len() && g.members@[k].id == id && entry_matches(g.members@[k], segs),
{
    let m = matching_ids(g.members@, segs);
    if m.len() > 0 {
        if let Some((id, _)) = group_pick(g, segs, headers) {
            let j = choose|j: int| 0 <= j < m.len() && m[j] == id;
            matching_ids_match(g.members@, segs, j);
        }
    }
}

/// Key-hash groups are sticky: envelopes whose header carries the same
/// value go to the same member, and the round-robin pointer does not move,
/// so the choice holds as long as the membership stays the same.
pub proof fn key_hash_sticky(
    g: GroupState,
    segs: Seq<Seq<char>>,
    h1: Map<Seq<char>, String>,
    h2: Map<Seq<char>, String>,
)
    requires
        g.strategy matches GroupStrategy::KeyHash { header_key } && h1.contains_key(header_key@)
            && h2.contains_key(header_key@) && h1[header_key@]@ == h2[header_key@]@,
    ensures
        group_pick(g, segs, h1) == group_pick(g, segs, h2),
        group_pick(g, segs, h1) matches Some((_, next)) ==> next == g.next,
{
}

/// Round-robin takes the matching member at the pointer (modulo their
/// number) and advances the pointer by one, so successive envelopes go to
/// successive members.
pub proof fn round_robin_rotates(g: GroupState, segs: Seq<Seq<char>>, headers: Map<Seq<char>, String>)
    requires
        g.strategy is RoundRobin,
        matching_ids(g.members@, segs).len() > 0,
        g.next < usize::MAX,
    ensures
        ({
            let m = matching_ids(g.members@, segs);
            group_pick(g, segs, headers) == Some((m[(g.next as int) % (m.len() as int)], (g.next + 1) as usize))
        }),
{
}

/// A fan-out reaches at most one member per group.
pub proof fn group_targets_at_most_one_per_group(gs: Seq<GroupState>, segs: Seq<Seq<char>>, headers: Map<Seq<char>, String>)
    ensures
        group_targets(gs, segs, headers).len() <= gs.len(),
    decreases gs.len(),
{
    if gs.len() > 0 {
        group_targets_at_most_one_per_group(gs.drop_last(), segs, headers);
    }
}


/// The group after it took part in a fan-out (its pointer as the pick
/// left it).
pub open spec fn after_pick(g: GroupState, segs: Seq<Seq<char>>, headers: Map<Seq<char>, String>) -> GroupState {
    match group_pick(g, segs, headers) {
        Some((_, next)) => GroupState { name: g.name, members: g.members, next, strategy: g.strategy },
        None => g,
    }
}

/// The group after `i` successive fan-outs of envelopes on the same topic
/// with the same headers.
pub open spec fn group_after(g: GroupState, segs: Seq<Seq<char>>, headers: Map<Seq<char>, String>, i: nat) -> GroupState
    decreases i,
{
    if i == 0 {
        g
    } else {
        after_pick(group_after(g, segs, headers, (i - 1) as nat), segs, headers)
    }
}

/// The member the group picks on the `i`-th of those fan-outs (from 0).
pub open spec fn pick_at(g: GroupState, segs: Seq<Seq<char>>, headers: Map<Seq<char>, String>, i: nat) -> Option<SubId> {
    match group_pick(group_after(g, segs, headers, i), segs, headers) {
        Some((id, _)) => Some(id),
        None => None,
    }
}

/// Whether a group rotates for these headers: round-robin, or key-hash
/// without the key header.
pub open spec fn rotates(g: GroupState, headers: Map<Seq<char>, String>) -> bool {
    ||| g.strategy is RoundRobin
    ||| (g.strategy matches GroupStrategy::KeyHash { header_key } && !headers.contains_key(header_key@))
}

proof fn lemma_group_after(g: GroupState, segs: Seq<Seq<char>>, headers: Map<Seq<char>, String>, i: nat)
    requires
        rotates(g, headers),
        matching_ids(g.members@, segs).len() > 0,
        g.next + i <= usize::MAX,
    ensures
        group_after(g, segs, headers, i) == (GroupState {
            name: g.name,
            members: g.members,
            next: (g.next + i) as usize,
            strategy: g.strategy,
        }),
    decreases i,
{
    if i > 0 {
        lemma_group_after(g, segs, headers, (i - 1) as nat);
    }
}

/// A group that rotates (round-robin, or key-hash for an envelope without
/// the key header) hands successive envelopes on a topic to successive
/// matching members, advancing its pointer each time, so that over as many
/// fan-outs as there are matching members every one of them is picked
/// once: the `i`-th fan-out picks the member at the pointer plus `i`.
pub proof fn rotating_group_picks_every_member(
    g: GroupState,
    segs: Seq<Seq<char>>,
    headers: Map<Seq<char>, String>,
    j: int,
)
    requires
        rotates(g, headers),
        0 <= j < matching_ids(g.members@, segs).len(),
        g.next + matching_ids(g.members@, segs).len() <= usize::MAX,
    ensures
        forall|i: nat|
            i < matching_ids(g.members@, segs).len() ==> #[trigger] pick_at(g, segs, headers, i) == Some(
                matching_ids(g.members@, segs)[(g.next + i) % (matching_ids(g.members@, segs).len() as int)],
            ),
        exists|i: nat| i < matching_ids(g.members@, segs).len() && #[trigger] pick_at(g, segs, headers, i) == Some(
            matching_ids(g.members@, segs)[j],
        ),
{
    let m = matching_ids(g.members@, segs);
    let n = m.len() as int;
    assert forall|i: nat| i < m.len() implies #[trigger] pick_at(g, segs, headers, i) == Some(m[(g.next + i) % n]) by {
        lemma_group_after(g, segs, headers, i);
    }
    let r = (g.next as int) % n;
    vstd::arithmetic::div_mod::lemma_fundamental_div_mod(g.next as int, n);
    let i: int = if j >= r { j - r } else { j - r + n };
    assert(0 <= r < n) by {
        vstd::arithmetic::div_mod::lemma_mod_bound(g.next as int, n);
    }
    let qn = (g.next as int) / n;
    if j >= r {
        assert(g.next + i == n * qn + j);
        vstd::arithmetic::div_mod::lemma_mod_multiples_vanish(qn, j, n);
    } else {
        assert(g.next + i == n * (qn + 1) + j) by (nonlinear_arith)
            requires
                g.next as int == n * qn + r,
                i == j - r + n,
        ;
        vstd::arithmetic::div_mod::lemma_mod_multiples_vanish(qn + 1, j, n);
    }
    vstd::arithmetic::div_mod::lemma_small_mod(j as nat, n as nat);
    assert(pick_at(g, segs, headers, i as nat) == Some(m[j]));
}

} // verus!
