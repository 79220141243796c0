//! Last-writer-wins register.

use vstd::prelude::*;

use crate::strmap::ExactClone;
use crate::text::{lemma_lex_lt_total, lemma_lex_lt_trans, lex_lt, text_lt};

verus! {

/// `(c1, n1)` wins over `(c2, n2)`: the higher clock, or on equal clocks
/// the lexicographically greater node id.
pub open spec fn stamp_gt(c1: u64, n1: Seq<char>, c2: u64, n2: Seq<char>) -> bool {
    c1 > c2 || (c1 == c2 && lex_lt(n2, n1))
}

/// The stamp order is a strict total order on `(clock, node)` pairs.
pub proof fn lemma_stamp_order(c1: u64, n1: Seq<char>, c2: u64, n2: Seq<char>, c3: u64, n3: Seq<char>)
    ensures
        !stamp_gt(c1, n1, c1, n1),
        stamp_gt(c1, n1, c2, n2) ==> !stamp_gt(c2, n2, c1, n1),
        (c1 != c2 || n1 != n2) ==> (stamp_gt(c1, n1, c2, n2) || stamp_gt(c2, n2, c1, n1)),
        stamp_gt(c1, n1, c2, n2) && stamp_gt(c2, n2, c3, n3) ==> stamp_gt(c1, n1, c3, n3),
{
    lemma_lex_lt_total(n1, n2);
    lemma_lex_lt_total(n2, n1);
    if stamp_gt(c1, n1, c2, n2) && stamp_gt(c2, n2, c3, n3) && c1 == c2 && c2 == c3 {
        lemma_lex_lt_trans(n3, n2, n1);
    }
}

/// LWW register: a value with a scalar clock; merge keeps the higher clock.
pub struct LWWRegister<T> {
    pub value: T,
    pub clock: u64,
    pub node_id: String,
}

/// The register that a merge of `a` with `b` keeps.
pub open spec fn lww_pick<T>(a: LWWRegister<T>, b: LWWRegister<T>) -> LWWRegister<T> {
    if stamp_gt(b.clock, b.node_id@, a.clock, a.node_id@) {
        b
    } else {
        a
    }
}

/// Two registers with the same stamp hold the same value.
pub open spec fn lww_coherent<T>(a: LWWRegister<T>, b: LWWRegister<T>) -> bool {
    (a.clock == b.clock && a.node_id@ == b.node_id@) ==> a == b
}

impl<T: ExactClone> Clone for LWWRegister<T> {
    fn clone(&self) -> (r: Self)
        ensures
            r == *self,
    {
        LWWRegister { value: self.value.exact_clone(), clock: self.clock, node_id: self.node_id.clone() }
    }
}

impl<T: ExactClone> LWWRegister<T> {
    pub fn new(value: T, clock: u64, node_id: &str) -> (r: Self)
        ensures
            r.value == value,
            r.clock == clock,
            r.node_id@ == node_id@,
    {
        LWWRegister { value, clock, node_id: node_id.to_owned() }
    }

    /// Sets a new value when the clock moves forward; otherwise nothing
    /// changes. The node id is kept.
    pub fn set(&mut self, value: T, clock: u64)
        ensures
            clock > old(self).clock ==> (final(self).value == value && final(self).clock == clock),
            clock <= old(self).clock ==> *final(self) == *old(self),
            final(self).node_id == old(self).node_id,
    {
        if clock > self.clock {
            self.value = value;
            self.clock = clock;
        }
    }

    /// Merge: the higher clock wins; on equal clocks the greater node id.
    pub fn merge(&self, other: &Self) -> (r: Self)
        ensures
            r == lww_pick(*self, *other),
    {
        if other.clock > self.clock || (other.clock == self.clock && text_lt(
            self.node_id.as_str(),
            other.node_id.as_str(),
        )) {
            other.clone()
        } else {
            self.clone()
        }
    }
}

/// Register merge laws: idempotent; commutative and associative whenever
/// equal stamps carry equal registers (which holds when every node uses its
/// own id and never reuses a clock value).
pub proof fn lww_register_merge_laws<T>(a: LWWRegister<T>, b: LWWRegister<T>, c: LWWRegister<T>)
    ensures
        lww_pick(a, a) == a,
        lww_coherent(a, b) ==> lww_pick(a, b) == lww_pick(b, a),
        lww_pick(lww_pick(a, b), c) == lww_pick(a, lww_pick(b, c)),
        lww_pick(a, b) == a || lww_pick(a, b) == b,
{
    lemma_stamp_order(a.clock, a.node_id@, b.clock, b.node_id@, c.clock, c.node_id@);
    lemma_stamp_order(a.clock, a.node_id@, c.clock, c.node_id@, b.clock, b.node_id@);
    lemma_stamp_order(b.clock, b.node_id@, c.clock, c.node_id@, a.clock, a.node_id@);
    lemma_stamp_order(b.clock, b.node_id@, a.clock, a.node_id@, c.clock, c.node_id@);
    lemma_stamp_order(c.clock, c.node_id@, a.clock, a.node_id@, b.clock, b.node_id@);
    lemma_stamp_order(c.clock, c.node_id@, b.clock, b.node_id@, a.clock, a.node_id@);
}

/// Register merge laws as the fields show them: the merge keeps whichever
/// of `a`, `b` has the larger `(clock, node_id)` (`a` on a full tie), so its
/// clock is the larger clock; it is idempotent and associative; and it is
/// commutative in value, clock and node id whenever equal stamps carry
/// equal values.
pub proof fn lww_register_merge_observed<T>(a: LWWRegister<T>, b: LWWRegister<T>, c: LWWRegister<T>)
    ensures
        lww_pick(a, b).clock == if a.clock >= b.clock { a.clock } else { b.clock },
        lww_pick(a, a) == a,
        lww_pick(lww_pick(a, b), c) == lww_pick(a, lww_pick(b, c)),
        (a.clock == b.clock && a.node_id@ == b.node_id@ ==> a.value == b.value) ==> {
            &&& lww_pick(a, b).value == lww_pick(b, a).value
            &&& lww_pick(a, b).clock == lww_pick(b, a).clock
            &&& lww_pick(a, b).node_id@ == lww_pick(b, a).node_id@
        },
{
    lww_register_merge_laws(a, b, c);
    lemma_stamp_order(a.clock, a.node_id@, b.clock, b.node_id@, c.clock, c.node_id@);
}

} // verus!
