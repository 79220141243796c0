//! Schema migrations: their definitions, the set of them by version, and
//! the plans the migrator carries out — which migrations to apply, which to
//! roll back and in what order, and the status of each.

use vstd::prelude::*;
use crate::decimal::format_i64;
use crate::text::concat_str;

verus! {

/// Errors of the database layer.
#[derive(Debug)]
pub enum DbError {
    /// A backend or operation this build does not support.
    Unsupported(String),
    /// Invalid connection configuration.
    Config(String),
    /// A migration cannot be carried out.
    Migrate(String),
    /// Any other refusal, such as an invalid identifier.
    Other(String),
}

/// A migration given as SQL text.
pub struct SqlMigration {
    pub version: i64,
    pub name: String,
    pub up_sql: String,
    pub down_sql: Option<String>,
}

impl SqlMigration {
    /// A migration from its parts.
    pub fn new(version: i64, name: &str, up_sql: &str, down_sql: Option<&str>) -> (r: SqlMigration)
        ensures
            r.version == version,
            r.name@ == name@,
            r.up_sql@ == up_sql@,
            r.down_sql is Some <==> down_sql is Some,
            r.down_sql matches Some(d) ==> d@ == down_sql->0@,
    {
        SqlMigration {
            version,
            name: name.to_owned(),
            up_sql: up_sql.to_owned(),
            down_sql: match down_sql {
                Some(d) => Some(d.to_owned()),
                None => None,
            },
        }
    }
}

/// The status of one migration.
#[derive(Debug, Clone)]
pub struct MigrationRecord {
    pub version: i64,
    pub name: String,
    pub applied_at: Option<String>,
    pub pending: bool,
}

/// Versions strictly increase along the list.
pub open spec fn strictly_ascending(ms: Seq<SqlMigration>) -> bool {
    forall|i: int, j: int| 0 <= i < j < ms.len() ==> ms[i].version < ms[j].version
}

/// The versions to apply, in order: those up to `target` not yet applied.
pub open spec fn up_plan(ms: Seq<SqlMigration>, applied: Seq<i64>, target: i64) -> Seq<i64>
    decreases ms.len(),
{
    if ms.len() == 0 {
        Seq::empty()
    } else {
        let p = up_plan(ms.drop_last(), applied, target);
        let v = ms.last().version;
        if v <= target && !applied.contains(v) {
            p.push(v)
        } else {
            p
        }
    }
}

/// Versions never increase along the list.
pub open spec fn descending(vs: Seq<i64>) -> bool {
    forall|i: int, j: int| 0 <= i < j < vs.len() ==> vs[i] >= vs[j]
}

/// The applied versions above `target`.
pub open spec fn above(applied: Seq<i64>, target: i64) -> Seq<i64>
    decreases applied.len(),
{
    if applied.len() == 0 {
        applied
    } else {
        let p = above(applied.drop_last(), target);
        if applied.last() > target {
            p.push(applied.last())
        } else {
            p
        }
    }
}

/// The index of the migration with version `v`, or -1.
pub open spec fn index_of_version(ms: Seq<SqlMigration>, v: i64) -> int {
    if exists|k: int| 0 <= k < ms.len() && ms[k].version == v {
        choose|k: int| 0 <= k < ms.len() && ms[k].version == v
    } else {
        -1
    }
}

/// A rollback plan walked over `order`: each version with a definition and
/// a down script is rolled back; a version without a definition is
/// skipped; the first one without a down script stops the plan with an
/// error (the rollbacks before it stand).
pub open spec fn down_walk(ms: Seq<SqlMigration>, order: Seq<i64>) -> (Seq<i64>, Option<i64>)
    decreases order.len(),
{
    if order.len() == 0 {
        (Seq::empty(), None)
    } else {
        let (done, stop) = down_walk(ms, order.drop_last());
        if stop is Some {
            (done, stop)
        } else {
            let v = order.last();
            let k = index_of_version(ms, v);
            if k < 0 {
                (done, None)
            } else if ms[k].down_sql is None {
                (done, Some(v))
            } else {
                (done.push(v), None)
            }
        }
    }
}

/// The migrations of a migrator, by version.
pub struct MigrationSet {
    items: Vec<SqlMigration>,
}

impl MigrationSet {
    /// The migrations, by ascending version.
    pub closed spec fn items_spec(&self) -> Seq<SqlMigration> {
        self.items@
    }

    /// Versions are distinct and ascending.
    pub open spec fn wf(&self) -> bool {
        strictly_ascending(self.items_spec())
    }

    /// No migrations.
    pub fn new() -> (r: MigrationSet)
        ensures
            r.wf(),
            r.items_spec() == Seq::<SqlMigration>::empty(),
    {
        MigrationSet { items: Vec::new() }
    }

    /// Adds `m`, replacing the migration with the same version.
    pub fn add(&mut self, m: SqlMigration)
        requires
            old(self).wf(),
        ensures
            final(self).wf(),
            ({
                let k = index_of_version(old(self).items_spec(), m.version);
                &&& k >= 0 ==> final(self).items_spec() == old(self).items_spec().update(k, m)
                &&& k < 0 ==> exists|p: int|
                    0 <= p <= old(self).items_spec().len() && final(self).items_spec()
                        == old(self).items_spec().insert(p, m)
            }),
    {
        let ghost ms = self.items@;
        let mut p: usize = 0;
        while p < self.items.len() && self.items[p].version < m.version
            invariant
                p <= self.items.len(),
                ms == self.items@,
                forall|j: int| 0 <= j < p ==> (#[trigger] self.items@[j]).version < m.version,
            decreases self.items.len() - p,
        {
            p = p + 1;
        }
        if p < self.items.len() && self.items[p].version == m.version {
            proof {
                assert(index_of_version(ms, m.version) == p) by {
                    let k = index_of_version(ms, m.version);
                    if k != p {
                        assert(ms[k].version == ms[p as int].version);
                    }
                }
            }
            let _ = self.items.remove(p);
            self.items.insert(p, m);
            proof {
                assert(self.items@ =~= ms.update(p as int, m));
            }
        } else {
            proof {
                assert(index_of_version(ms, m.version) == -1) by {
                    if exists|k: int| 0 <= k < ms.len() && ms[k].version == m.version {
                        let k = choose|k: int| 0 <= k < ms.len() && ms[k].version == m.version;
                        if k < p {
                        } else {
                            assert(ms[p as int].version > m.version);
                            if k > p {
                                assert(ms[p as int].version < ms[k].version);
                            }
                        }
                    }
                }
            }
            self.items.insert(p, m);
            proof {
                assert(self.items@ == ms.insert(p as int, m));
                assert forall|i: int, j: int| 0 <= i < j < self.items@.len() implies
                    self.items@[i].version < self.items@[j].version by {
                    if j < p {
                        assert(self.items@[i] == ms[i] && self.items@[j] == ms[j]);
                    } else if j == p {
                        assert(self.items@[i] == ms[i]);
                    } else if i == p {
                        assert(self.items@[j] == ms[j - 1]);
                        assert(ms[p as int].version > m.version);
                        if j - 1 > p {
                            assert(ms[p as int].version < ms[j - 1].version);
                        }
                    } else if i < p {
                        assert(self.items@[i] == ms[i] && self.items@[j] == ms[j - 1]);
                    } else {
                        assert(self.items@[i] == ms[i - 1] && self.items@[j] == ms[j - 1]);
                    }
                }
            }
        }
    }

    /// The migration of version `version`, if there is one.
    pub fn get(&self, version: i64) -> (r: Option<&SqlMigration>)
        ensures
            match r {
                Some(m) => m.version == version && exists|i: int|
                    0 <= i < self.items_spec().len() && #[trigger] self.items_spec()[i] == *m,
                None => forall|i: int|
                    0 <= i < self.items_spec().len() ==> (#[trigger] self.items_spec()[i]).version
                        != version,
            },
    {
        let mut i: usize = 0;
        while i < self.items.len()
            invariant
                i <= self.items.len(),
                forall|k: int| 0 <= k < i ==> (#[trigger] self.items@[k]).version != version,
            decreases self.items.len() - i,
        {
            if self.items[i].version == version {
                proof {
                    assert(self.items_spec()[i as int] == self.items@[i as int]);
                }
                return Some(&self.items[i]);
            }
            i = i + 1;
        }
        None
    }

    /// The versions to apply, oldest first: those up to `target` (all when
    /// none) not among `applied`.
    pub fn plan_up(&self, applied: &Vec<i64>, target: Option<i64>) -> (r: Vec<i64>)
        ensures
            r@ == up_plan(
                self.items_spec(),
                applied@,
                match target {
                    Some(t) => t,
                    None => i64::MAX,
                },
            ),
    {
        let t: i64 = match target {
            Some(t) => t,
            None => i64::MAX,
        };
        let mut out: Vec<i64> = Vec::new();
        let mut i: usize = 0;
        proof {
            assert(self.items@.take(0) =~= Seq::<SqlMigration>::empty());
        }
        while i < self.items.len()
            invariant
                i <= self.items.len(),
                out@ == up_plan(self.items@.take(i as int), applied@, t),
            decreases self.items.len() - i,
        {
            proof {
                assert(self.items@.take(i as int + 1).drop_last() =~= self.items@.take(i as int));
            }
            let v = self.items[i].version;
            if v <= t && !contains_version(applied, v) {
                out.push(v);
            }
            i = i + 1;
        }
        proof {
            assert(self.items@.take(self.items.len() as int) =~= self.items@);
        }
        out
    }

    fn find(&self, v: i64) -> (r: Option<usize>)
        requires
            self.wf(),
        ensures
            r matches Some(k) ==> k < self.items_spec().len() && k == index_of_version(self.items_spec(), v),
            r is None ==> index_of_version(self.items_spec(), v) == -1,
    {
        let mut k: usize = 0;
        while k < self.items.len()
            invariant
                k <= self.items.len(),
                self.wf(),
                forall|j: int| 0 <= j < k ==> (#[trigger] self.items@[j]).version != v,
            decreases self.items.len() - k,
        {
            if self.items[k].version == v {
                proof {
                    let ms = self.items@;
                    let c = index_of_version(ms, v);
                    if c != k {
                        assert(ms[c].version == ms[k as int].version);
                    }
                }
                return Some(k);
            }
            k = k + 1;
        }
        None
    }

    /// The rollback to `target`: the applied versions above it, newest
    /// first, walked as `down_walk` says. Returns the versions to roll back
    /// in order and, when the walk stopped, the error.
    pub fn plan_down(&self, applied: &Vec<i64>, target: i64) -> (r: (Vec<i64>, Option<DbError>))
        requires
            self.wf(),
        ensures
            ({
                let order = r.0@;
                exists|ord: Seq<i64>|
                    descending(ord) && ord.to_multiset() == above(applied@, target).to_multiset()
                        && #[trigger] down_walk(self.items_spec(), ord).0 == order && (down_walk(
                        self.items_spec(),
                        ord,
                    ).1 is Some <==> r.1 is Some)
            }),
            forall|i: int| 0 <= i < r.0@.len() ==> #[trigger] r.0@[i] > target && applied@.contains(r.0@[i]),
            r.1 is None ==> forall|v: i64|
                applied@.contains(v) && v > target && (exists|k: int|
                    0 <= k < self.items_spec().len() && self.items_spec()[k].version == v) ==> #[trigger] r.0@.contains(v),
            descending(r.0@),
            r.1 is Some <==> exists|v: i64| applied@.contains(v) && v > target && #[trigger] lacks_down(self.items_spec(), v),
    {
        broadcast use vstd::seq_lib::group_to_multiset_ensures;
        let mut order: Vec<i64> = Vec::new();
        let mut i: usize = 0;
        proof {
            assert(applied@.take(0) =~= Seq::<i64>::empty());
        }
        while i < applied.len()
            invariant
                i <= applied.len(),
                descending(order@),
                order@.to_multiset() == above(applied@.take(i as int), target).to_multiset(),
            decreases applied.len() - i,
        {
            proof {
                assert(applied@.take(i as int + 1).drop_last() =~= applied@.take(i as int));
            }
            let x = applied[i];
            if x > target {
                let mut p: usize = order.len();
                while p > 0 && order[p - 1] < x
                    invariant
                        p <= order.len(),
                        descending(order@),
                        forall|j: int| p <= j < order.len() ==> order@[j] < x,
                    decreases p,
                {
                    p = p - 1;
                }
                let ghost before = order@;
                order.insert(p, x);
                proof {
                    assert(order@ == before.insert(p as int, x));
                    vstd::seq_lib::to_multiset_insert(before, p as int, x);
                    vstd::seq_lib::to_multiset_build(above(applied@.take(i as int), target), x);
                    assert forall|a: int, b: int| 0 <= a < b < order@.len() implies order@[a] >= order@[b] by {
                        if b < p {
                            assert(order@[a] == before[a] && order@[b] == before[b]);
                        } else if b == p {
                            assert(order@[a] == before[a]);
                            if p > 0 {
                                assert(before[p - 1] >= x);
                            }
                        } else if a == p {
                            assert(order@[b] == before[b - 1]);
                        } else if a < p {
                            assert(order@[a] == before[a] && order@[b] == before[b - 1]);
                        } else {
                            assert(order@[a] == before[a - 1] && order@[b] == before[b - 1]);
                        }
                    }
                }
            }
            i = i + 1;
        }
        proof {
            assert(applied@.take(applied.len() as int) =~= applied@);
        }
        let mut done: Vec<i64> = Vec::new();
        let mut k: usize = 0;
        proof {
            assert(order@.take(0) =~= Seq::<i64>::empty());
        }
        while k < order.len()
            invariant
                k <= order.len(),
                self.wf(),
                descending(order@),
                order@.to_multiset() == above(applied@, target).to_multiset(),
                down_walk(self.items@, order@.take(k as int)) == (done@, None::<i64>),
            decreases order.len() - k,
        {
            let v = order[k];
            proof {
                assert(order@.take(k as int + 1).drop_last() =~= order@.take(k as int));
                assert(order@.take(k as int + 1).last() == v);
            }
            match self.find(v) {
                None => {},
                Some(j) => {
                    match &self.items[j].down_sql {
                        None => {
                            let t = format_i64(v);
                            let a = concat_str("migration ", t.as_str());
                            let b = concat_str(a.as_str(), " (");
                            let c = concat_str(b.as_str(), self.items[j].name.as_str());
                            let msg = concat_str(c.as_str(), ") has no down script");
                            proof {
                                assert(down_walk(self.items@, order@.take(k as int + 1)).1 == Some(v));
                                lemma_down_walk_stops(self.items@, order@, k as int + 1);
                                assert(down_walk(self.items@, order@).0 == done@);
                                rollback_keeps_target(self.items@, applied@, target, order@);
                                rollback_order_and_stop(self.items@, applied@, target, order@);
                            }
                            return (done, Some(DbError::Migrate(msg)));
                        },
                        Some(_) => {
                            done.push(v);
                        },
                    }
                },
            }
            k = k + 1;
        }
        proof {
            assert(order@.take(order.len() as int) =~= order@);
            assert(down_walk(self.items@, order@).0 == done@);
            rollback_keeps_target(self.items@, applied@, target, order@);
            rollback_order_and_stop(self.items@, applied@, target, order@);
        }
        (done, None)
    }

    /// The status of each migration, by ascending version: when it was
    /// applied (the first applied row with its version) or that it is
    /// pending.
    pub fn status(&self, applied: &Vec<(i64, String, String)>) -> (r: Vec<MigrationRecord>)
        ensures
            r@.len() == self.items_spec().len(),
            forall|i: int| 0 <= i < r@.len() ==> {
                let m = self.items_spec()[i];
                let rec = #[trigger] r@[i];
                &&& rec.version == m.version
                &&& rec.name@ == m.name@
                &&& rec.pending == !applied@.map_values(|a: (i64, String, String)| a.0).contains(m.version)
                &&& rec.pending <==> rec.applied_at is None
                &&& rec.applied_at matches Some(t) ==> exists|j: int|
                    0 <= j < applied@.len() && applied@[j].0 == m.version && t@ == applied@[j].2@
                        && forall|q: int| 0 <= q < j ==> applied@[q].0 != m.version
            },
    {
        let mut out: Vec<MigrationRecord> = Vec::new();
        let mut i: usize = 0;
        let ghost av = applied@.map_values(|a: (i64, String, String)| a.0);
        while i < self.items.len()
            invariant
                i <= self.items.len(),
                out@.len() == i,
                av == applied@.map_values(|a: (i64, String, String)| a.0),
                forall|q: int| 0 <= q < i ==> {
                    let m = self.items@[q];
                    let rec = #[trigger] out@[q];
                    &&& rec.version == m.version
                    &&& rec.name@ == m.name@
                    &&& rec.pending == !av.contains(m.version)
                    &&& rec.pending <==> rec.applied_at is None
                    &&& rec.applied_at matches Some(t) ==> exists|j: int|
                        0 <= j < applied@.len() && applied@[j].0 == m.version && t@ == applied@[j].2@
                            && forall|q2: int| 0 <= q2 < j ==> applied@[q2].0 != m.version
                },
            decreases self.items.len() - i,
        {
            let v = self.items[i].version;
            let mut j: usize = 0;
            while j < applied.len() && applied[j].0 != v
                invariant
                    j <= applied.len(),
                    forall|q: int| 0 <= q < j ==> applied@[q].0 != v,
                decreases applied.len() - j,
            {
                j = j + 1;
            }
            let applied_at = if j < applied.len() {
                proof {
                    assert(av[j as int] == v);
                }
                Some(applied[j].2.clone())
            } else {
                proof {
                    if av.contains(v) {
                        let q = choose|q: int| 0 <= q < av.len() && av[q] == v;
                        assert(applied@[q].0 == v);
                    }
                }
                None
            };
            let pending = applied_at.is_none();
            out.push(MigrationRecord { version: v, name: self.items[i].name.clone(), applied_at, pending });
            i = i + 1;
        }
        out
    }
}

/// Whether `v` is among `vs`.
fn contains_version(vs: &Vec<i64>, v: i64) -> (b: bool)
    ensures
        b == vs@.contains(v),
{
    let mut i: usize = 0;
    while i < vs.len()
        invariant
            i <= vs.len(),
            forall|q: int| 0 <= q < i ==> vs@[q] != v,
        decreases vs.len() - i,
    {
        if vs[i] == v {
            proof {
                assert(vs@[i as int] == v);
            }
            return true;
        }
        i = i + 1;
    }
    false
}

/// Once the walk stopped it stays stopped with the same rollbacks.
proof fn lemma_down_walk_stops(ms: Seq<SqlMigration>, order: Seq<i64>, k: int)
    requires
        0 <= k <= order.len(),
        down_walk(ms, order.take(k)).1 is Some,
    ensures
        down_walk(ms, order) == down_walk(ms, order.take(k)),
    decreases order.len() - k,
{
    if k < order.len() {
        assert(order.take(k + 1).drop_last() =~= order.take(k));
        lemma_down_walk_stops(ms, order, k + 1);
    } else {
        assert(order.take(k) =~= order);
    }
}


proof fn lemma_above_members(applied: Seq<i64>, target: i64)
    ensures
        forall|x: i64|
            #![trigger above(applied, target).contains(x)]
            #![trigger applied.contains(x)]
            above(applied, target).contains(x) <==> (applied.contains(x) && x > target),
    decreases applied.len(),
{
    if applied.len() > 0 {
        let d = applied.drop_last();
        lemma_above_members(d, target);
        assert forall|x: i64| above(applied, target).contains(x) <==> (applied.contains(x) && x > target) by {
            let p = above(d, target);
            if applied.contains(x) && x > target {
                let k = choose|k: int| 0 <= k < applied.len() && applied[k] == x;
                if k < applied.len() - 1 {
                    assert(d[k] == x);
                    assert(d.contains(x));
                    assert(p.contains(x));
                    let j = choose|j: int| 0 <= j < p.len() && p[j] == x;
                    if applied.last() > target {
                        assert(p.push(applied.last())[j] == x);
                    }
                } else {
                    assert(p.push(applied.last())[p.len() as int] == x);
                }
            }
            if above(applied, target).contains(x) {
                let j = choose|j: int| 0 <= j < above(applied, target).len() && above(applied, target)[j] == x;
                if j < p.len() {
                    assert(p[j] == x);
                    assert(p.contains(x));
                    assert(d.contains(x) && x > target);
                    let k = choose|k: int| 0 <= k < d.len() && d[k] == x;
                    assert(applied[k] == x);
                } else {
                    assert(applied[applied.len() - 1] == x);
                }
            }
        }
    } else {
        assert forall|x: i64| !above(applied, target).contains(x) && !applied.contains(x) by {}
    }
}

proof fn lemma_down_walk_members(ms: Seq<SqlMigration>, order: Seq<i64>)
    ensures
        forall|i: int| 0 <= i < down_walk(ms, order).0.len() ==> order.contains(#[trigger] down_walk(ms, order).0[i]),
        down_walk(ms, order).1 is None ==> forall|j: int|
            0 <= j < order.len() && index_of_version(ms, #[trigger] order[j]) >= 0 ==> down_walk(ms, order).0.contains(order[j]),
    decreases order.len(),
{
    if order.len() > 0 {
        let d = order.drop_last();
        lemma_down_walk_members(ms, d);
        let (done, stop) = down_walk(ms, d);
        let (done2, stop2) = down_walk(ms, order);
        assert forall|i: int| 0 <= i < done2.len() implies order.contains(#[trigger] done2[i]) by {
            if i < done.len() {
                assert(done2[i] == done[i]);
                let k = choose|k: int| 0 <= k < d.len() && d[k] == done[i];
                assert(order[k] == done[i]);
            } else {
                assert(done2[i] == order.last());
                assert(order[order.len() - 1] == order.last());
            }
        }
        if stop2 is None {
            assert(stop is None);
            assert forall|j: int|
                0 <= j < order.len() && index_of_version(ms, #[trigger] order[j]) >= 0 implies done2.contains(order[j]) by {
                if j < order.len() - 1 {
                    assert(d[j] == order[j]);
                    assert(done.contains(order[j]));
                    let i = choose|i: int| 0 <= i < done.len() && done[i] == order[j];
                    assert(done2[i] == done[i]);
                } else {
                    assert(done2[done.len() as int] == order.last());
                }
            }
        }
    }
}

/// A rollback to `target` rolls back only applied versions above `target`
/// (`target` itself and the versions below stay applied), and a rollback
/// that runs to the end rolls back every applied version above `target`
/// that has a definition.
pub proof fn rollback_keeps_target(ms: Seq<SqlMigration>, applied: Seq<i64>, target: i64, ord: Seq<i64>)
    requires
        ord.to_multiset() == above(applied, target).to_multiset(),
    ensures
        forall|i: int|
            0 <= i < down_walk(ms, ord).0.len() ==> #[trigger] down_walk(ms, ord).0[i] > target && applied.contains(
                down_walk(ms, ord).0[i],
            ),
        down_walk(ms, ord).1 is None ==> forall|v: i64|
            applied.contains(v) && v > target && (exists|k: int| 0 <= k < ms.len() && ms[k].version == v)
                ==> #[trigger] down_walk(ms, ord).0.contains(v),
{
    broadcast use vstd::seq_lib::group_to_multiset_ensures;
    lemma_above_members(applied, target);
    lemma_down_walk_members(ms, ord);
    let done = down_walk(ms, ord).0;
    assert forall|i: int| 0 <= i < done.len() implies #[trigger] done[i] > target && applied.contains(done[i]) by {
        assert(ord.contains(done[i]));
        assert(ord.to_multiset().count(done[i]) > 0);
        assert(above(applied, target).contains(done[i]));
    }
    if down_walk(ms, ord).1 is None {
        assert forall|v: i64|
            applied.contains(v) && v > target && (exists|k: int| 0 <= k < ms.len() && ms[k].version == v)
                implies #[trigger] done.contains(v) by {
            assert(above(applied, target).contains(v));
            assert(above(applied, target).to_multiset().count(v) > 0);
            assert(ord.contains(v));
            let j = choose|j: int| 0 <= j < ord.len() && ord[j] == v;
            assert(index_of_version(ms, ord[j]) >= 0);
        }
    }
}


proof fn lemma_down_walk_descending(ms: Seq<SqlMigration>, order: Seq<i64>)
    requires
        descending(order),
    ensures
        descending(down_walk(ms, order).0),
    decreases order.len(),
{
    if order.len() > 0 {
        let d = order.drop_last();
        assert(descending(d));
        lemma_down_walk_descending(ms, d);
        lemma_down_walk_members(ms, d);
        let done = down_walk(ms, d).0;
        let done2 = down_walk(ms, order).0;
        assert forall|a: int, b: int| 0 <= a < b < done2.len() implies done2[a] >= done2[b] by {
            if b < done.len() {
                assert(done2[a] == done[a] && done2[b] == done[b]);
            } else {
                assert(done2[a] == done[a]);
                assert(d.contains(done[a]));
                let k = choose|k: int| 0 <= k < d.len() && d[k] == done[a];
                assert(order[k] == done[a]);
                assert(done2[b] == order[order.len() - 1]);
            }
        }
    }
}

/// Whether version `v` has a definition without a down script.
pub open spec fn lacks_down(ms: Seq<SqlMigration>, v: i64) -> bool {
    exists|k: int| 0 <= k < ms.len() && ms[k].version == v && ms[k].down_sql is None
}

proof fn lemma_down_walk_stop(ms: Seq<SqlMigration>, order: Seq<i64>)
    requires
        forall|a: int, b: int| 0 <= a < b < ms.len() ==> ms[a].version != ms[b].version,
    ensures
        down_walk(ms, order).1 is None <==> forall|j: int| 0 <= j < order.len() ==> !lacks_down(ms, #[trigger] order[j]),
        down_walk(ms, order).1 matches Some(v) ==> order.contains(v) && lacks_down(ms, v),
    decreases order.len(),
{
    if order.len() > 0 {
        let d = order.drop_last();
        lemma_down_walk_stop(ms, d);
        let v = order.last();
        let k = index_of_version(ms, v);
        if k >= 0 {
            assert(ms[k].version == v);
            if lacks_down(ms, v) {
                let k2 = choose|k2: int| 0 <= k2 < ms.len() && ms[k2].version == v && ms[k2].down_sql is None;
                assert(k2 == k);
            }
        } else {
            assert(!lacks_down(ms, v));
        }
        assert(order[order.len() - 1] == v);
        assert forall|j: int| 0 <= j < d.len() implies d[j] == #[trigger] order[j] by {}
        if let Some(w) = down_walk(ms, order).1 {
            if down_walk(ms, d).1 is Some {
                let j = choose|j: int| 0 <= j < d.len() && d[j] == w;
                assert(order[j] == w);
            }
        }
    }
}

/// A rollback goes newest first, and it stops with an error exactly when
/// some version to roll back (applied, above `target`) has a definition
/// without a down script.
pub proof fn rollback_order_and_stop(ms: Seq<SqlMigration>, applied: Seq<i64>, target: i64, ord: Seq<i64>)
    requires
        descending(ord),
        ord.to_multiset() == above(applied, target).to_multiset(),
        forall|a: int, b: int| 0 <= a < b < ms.len() ==> ms[a].version != ms[b].version,
    ensures
        descending(down_walk(ms, ord).0),
        down_walk(ms, ord).1 is Some <==> exists|v: i64| applied.contains(v) && v > target && #[trigger] lacks_down(ms, v),
{
    broadcast use vstd::seq_lib::group_to_multiset_ensures;
    lemma_down_walk_descending(ms, ord);
    lemma_down_walk_stop(ms, ord);
    lemma_above_members(applied, target);
    if down_walk(ms, ord).1 is Some {
        let v = down_walk(ms, ord).1->0;
        assert(ord.to_multiset().count(v) > 0);
        assert(above(applied, target).contains(v));
    } else {
        assert forall|v: i64| !(applied.contains(v) && v > target && #[trigger] lacks_down(ms, v)) by {
            if applied.contains(v) && v > target {
                assert(above(applied, target).contains(v));
                assert(above(applied, target).to_multiset().count(v) > 0);
                assert(ord.contains(v));
                let j = choose|j: int| 0 <= j < ord.len() && ord[j] == v;
                assert(!lacks_down(ms, ord[j]));
            }
        }
    }
}

} // verus!
