//! Store options, and the segment files of a segmented log: their names
//! (`{id:08}.jsonl`), which directory entries are segments, the order they
//! are opened in, and when to start a new one.

use vstd::prelude::*;
use crate::decimal::{all_digits, dec, digits_value, format_u64, is_digit, lemma_dec_value, parse_u64, parse_u64_spec};
use crate::text::{chars_of, concat_str, str_eq, string_from_chars};

verus! {

broadcast use vstd::string::group_string_axioms;

/// Options of a single-file log store.
#[derive(Debug, Clone, Copy, PartialEq, Eq)]
pub struct JsonlStoreOptions {
    /// Most records written in one group commit.
    pub batch_size: usize,
    /// Capacity of the queue of pending writes.
    pub channel_capacity: usize,
    /// Whether to sync data to disk after every batch.
    pub fsync: bool,
}

impl Default for JsonlStoreOptions {
    fn default() -> (r: Self)
        ensures
            r == (JsonlStoreOptions { batch_size: 256, channel_capacity: 4096, fsync: false }),
    {
        JsonlStoreOptions { batch_size: 256, channel_capacity: 4096, fsync: false }
    }
}

/// Options of a segmented log store.
#[derive(Debug, Clone, Copy, PartialEq, Eq)]
pub struct SegmentedStoreOptions {
    /// A segment that reaches this size is closed and a new one started.
    pub max_segment_bytes: u64,
    /// Options of each segment.
    pub jsonl: JsonlStoreOptions,
}

/// Default segment size: 64 MiB.
pub const DEFAULT_MAX_SEGMENT_BYTES: u64 = 67108864;

impl Default for SegmentedStoreOptions {
    fn default() -> (r: Self)
        ensures
            r == (SegmentedStoreOptions {
                max_segment_bytes: DEFAULT_MAX_SEGMENT_BYTES,
                jsonl: JsonlStoreOptions { batch_size: 256, channel_capacity: 4096, fsync: false },
            }),
    {
        SegmentedStoreOptions {
            max_segment_bytes: DEFAULT_MAX_SEGMENT_BYTES,
            jsonl: JsonlStoreOptions::default(),
        }
    }
}

/// `n` zeros.
pub open spec fn zeros(n: nat) -> Seq<char>
    decreases n,
{
    if n == 0 {
        Seq::empty()
    } else {
        zeros((n - 1) as nat).push('0')
    }
}

/// The decimal text of `id`, zero-padded to at least 8 digits.
pub open spec fn padded_id(id: u64) -> Seq<char> {
    let d = dec(id as nat);
    if d.len() >= 8 {
        d
    } else {
        zeros((8 - d.len()) as nat) + d
    }
}

/// The file name of segment `id`.
pub open spec fn segment_name(id: u64) -> Seq<char> {
    padded_id(id) + ".jsonl"@
}

/// Index of the last occurrence of `c`, or -1.
pub open spec fn last_index_of(s: Seq<char>, c: char) -> int
    decreases s.len(),
{
    if s.len() == 0 {
        -1
    } else if s.last() == c {
        s.len() - 1
    } else {
        last_index_of(s.drop_last(), c)
    }
}

/// The segment id a directory entry stands for: a file whose extension
/// (after its last `.`, with a non-empty stem before it) is `jsonl` and
/// whose stem parses as a `u64`.
pub open spec fn segment_id_of_spec(name: Seq<char>) -> Option<u64> {
    let k = last_index_of(name, '.');
    if k > 0 && name.skip(k + 1) == "jsonl"@ {
        parse_u64_spec(name.take(k))
    } else {
        None
    }
}

/// The file name of segment `id` (`format!("{id:08}.jsonl")`).
pub fn segment_file_name(id: u64) -> (r: String)
    ensures
        r@ == segment_name(id),
{
    let digits = format_u64(id);
    let d = chars_of(digits.as_str());
    let mut v: Vec<char> = Vec::new();
    if d.len() < 8 {
        let pad = 8 - d.len();
        let mut i: usize = 0;
        while i < pad
            invariant
                i <= pad,
                v@ == zeros(i as nat),
            decreases pad - i,
        {
            v.push('0');
            i = i + 1;
        }
    }
    let mut j: usize = 0;
    let ghost head = v@;
    while j < d.len()
        invariant
            j <= d.len(),
            v@ == head + d@.take(j as int),
        decreases d.len() - j,
    {
        proof {
            assert(head + d@.take(j as int + 1) =~= (head + d@.take(j as int)).push(d@[j as int]));
        }
        v.push(d[j]);
        j = j + 1;
    }
    proof {
        assert(d@.take(d.len() as int) =~= d@);
        if d.len() >= 8 {
            assert(head =~= Seq::<char>::empty());
            assert(v@ =~= padded_id(id));
        } else {
            assert(v@ =~= padded_id(id));
        }
    }
    let stem = string_from_chars(v.as_slice());
    concat_str(stem.as_str(), ".jsonl")
}

/// The segment id of a directory entry's file name, if it is a segment.
pub fn segment_id_of(name: &str) -> (r: Option<u64>)
    ensures
        r == segment_id_of_spec(name@),
{
    let v = chars_of(name);
    let mut k: usize = v.len();
    proof {
        assert(name@.take(k as int) =~= name@);
    }
    while k > 0 && v[k - 1] != '.'
        invariant
            k <= v.len(),
            v@ == name@,
            last_index_of(name@, '.') == last_index_of(name@.take(k as int), '.'),
        decreases k,
    {
        proof {
            assert(name@.take(k as int).drop_last() =~= name@.take(k as int - 1));
        }
        k = k - 1;
    }
    if k == 0 {
        proof {
            assert(name@.take(0) =~= Seq::<char>::empty());
        }
        return None;
    }
    let dot = k - 1;
    proof {
        assert(name@.take(k as int).last() == '.');
        assert(last_index_of(name@, '.') == dot);
    }
    if dot == 0 {
        return None;
    }
    let ext = string_from_chars(vstd::slice::slice_subrange(v.as_slice(), dot + 1, v.len()));
    proof {
        assert(ext@ =~= name@.skip(dot as int + 1));
    }
    if !str_eq(ext.as_str(), "jsonl") {
        return None;
    }
    let stem = string_from_chars(vstd::slice::slice_subrange(v.as_slice(), 0, dot));
    proof {
        assert(stem@ =~= name@.take(dot as int));
    }
    parse_u64(stem.as_str())
}

/// Ids never decrease along the list.
pub open spec fn ascending(ids: Seq<u64>) -> bool {
    forall|i: int, j: int| 0 <= i < j < ids.len() ==> ids[i] <= ids[j]
}

/// The segments to open: the ids found, ascending; segment 1 when none was
/// found.
pub fn plan_segment_ids(found: Vec<u64>) -> (r: Vec<u64>)
    ensures
        found@.len() == 0 ==> r@ == seq![1u64],
        found@.len() > 0 ==> ascending(r@) && r@.to_multiset() == found@.to_multiset(),
{
    broadcast use vstd::seq_lib::group_to_multiset_ensures;
    if found.len() == 0 {
        let mut one: Vec<u64> = Vec::new();
        one.push(1);
        proof {
            assert(one@ =~= seq![1u64]);
        }
        return one;
    }
    let mut out: Vec<u64> = Vec::new();
    let mut i: usize = 0;
    proof {
        assert(found@.take(0) =~= Seq::<u64>::empty());
    }
    while i < found.len()
        invariant
            i <= found.len(),
            ascending(out@),
            out@.to_multiset() == found@.take(i as int).to_multiset(),
        decreases found.len() - i,
    {
        let x = found[i];
        let mut p: usize = out.len();
        while p > 0 && out[p - 1] > x
            invariant
                p <= out.len(),
                ascending(out@),
                forall|j: int| p <= j < out.len() ==> out@[j] > x,
            decreases p,
        {
            p = p - 1;
        }
        let ghost before = out@;
        out.insert(p, x);
        proof {
            assert(found@.take(i as int + 1) =~= found@.take(i as int).push(x));
            assert(out@ == before.insert(p as int, x));
            vstd::seq_lib::to_multiset_insert(before, p as int, x);
            vstd::seq_lib::to_multiset_build(found@.take(i as int), x);
            assert forall|a: int, b: int| 0 <= a < b < out@.len() implies out@[a] <= out@[b] by {
                if b < p {
                    assert(out@[a] == before[a] && out@[b] == before[b]);
                } else if b == p {
                    assert(out@[a] == before[a]);
                    if p > 0 {
                        assert(before[p - 1] <= x);
                    }
                } else if a == p {
                    assert(out@[b] == before[b - 1]);
                } else if a < p {
                    assert(out@[a] == before[a] && out@[b] == before[b - 1]);
                } else {
                    assert(out@[a] == before[a - 1] && out@[b] == before[b - 1]);
                }
            }
        }
        i = i + 1;
    }
    proof {
        assert(found@.take(found.len() as int) =~= found@);
    }
    out
}

/// Whether a segment of `size` bytes is full.
pub fn should_rotate(size: u64, max_segment_bytes: u64) -> (b: bool)
    ensures
        b == (size >= max_segment_bytes),
{
    size >= max_segment_bytes
}

/// The id of the segment after `current`.
pub fn next_segment_id(current: u64) -> (n: u64)
    requires
        current < u64::MAX,
    ensures
        n == current + 1,
{
    current + 1
}

/// A position holding `c` with no `c` after it is the last index of `c`.
proof fn lemma_last_index_at(s: Seq<char>, c: char, i: int)
    requires
        0 <= i < s.len(),
        s[i] == c,
        forall|k: int| i < k < s.len() ==> s[k] != c,
    ensures
        last_index_of(s, c) == i,
    decreases s.len(),
{
    if s.len() - 1 != i {
        assert(s.last() != c);
        lemma_last_index_at(s.drop_last(), c, i);
    }
}

/// Leading zeros are digits of value zero.
proof fn lemma_leading_zeros(m: nat, d: Seq<char>)
    ensures
        digits_value(zeros(m) + d) == digits_value(d),
        all_digits(d) ==> all_digits(zeros(m) + d),
    decreases d.len() + m,
{
    if d.len() == 0 {
        assert(zeros(m) + d =~= zeros(m));
        if m > 0 {
            lemma_leading_zeros((m - 1) as nat, d);
            assert(zeros((m - 1) as nat) + d =~= zeros((m - 1) as nat));
            assert(zeros(m).drop_last() =~= zeros((m - 1) as nat));
        }
        assert forall|i: int| 0 <= i < zeros(m).len() implies is_digit(#[trigger] zeros(m)[i]) by {
            lemma_zeros_are_zero(m, i);
        }
    } else {
        lemma_leading_zeros(m, d.drop_last());
        assert((zeros(m) + d).drop_last() =~= zeros(m) + d.drop_last());
        assert(all_digits(d) ==> all_digits(d.drop_last()));
        assert forall|i: int| all_digits(d) && 0 <= i < (zeros(m) + d).len() implies is_digit(#[trigger] (zeros(m) + d)[i]) by {
            if i < zeros(m).len() {
                lemma_zeros_are_zero(m, i);
                assert((zeros(m) + d)[i] == zeros(m)[i]);
            } else {
                assert((zeros(m) + d)[i] == d[i - zeros(m).len()]);
            }
        }
    }
}

/// Every character of `zeros(m)` is `'0'`, and there are `m` of them.
proof fn lemma_zeros_are_zero(m: nat, i: int)
    ensures
        zeros(m).len() == m,
        0 <= i < m ==> zeros(m)[i] == '0',
    decreases m,
{
    if m > 0 {
        lemma_zeros_are_zero((m - 1) as nat, i);
    }
}

/// A segment's file name reads back as its id.
pub proof fn segment_name_roundtrip(id: u64)
    ensures
        segment_id_of_spec(segment_name(id)) == Some(id),
{
    reveal_strlit(".jsonl");
    reveal_strlit("jsonl");
    let d = dec(id as nat);
    lemma_dec_value(id as nat);
    let p = padded_id(id);
    let m: nat = if d.len() >= 8 { 0 } else { (8 - d.len()) as nat };
    lemma_zeros_are_zero(m, 0);
    lemma_leading_zeros(m, d);
    assert(p =~= zeros(m) + d);
    assert(p.len() >= 1);
    assert(!p.contains('.')) by {
        if p.contains('.') {
            let j = choose|j: int| 0 <= j < p.len() && p[j] == '.';
            assert(is_digit(p[j]));
        }
    }
    let name = segment_name(id);
    let k = p.len() as int;
    assert(name[k] == '.');
    assert forall|j: int| k < j < name.len() implies name[j] != '.' by {}
    lemma_last_index_at(name, '.', k);
    assert(name.skip(k + 1) =~= "jsonl"@);
    assert(name.take(k) =~= p);
    assert(p[0] != '+') by {
        if m > 0 {
            lemma_zeros_are_zero(m, 0);
            assert(p[0] == zeros(m)[0]);
        } else {
            assert(p[0] == d[0]);
        }
    }
}

} // verus!
