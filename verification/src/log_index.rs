//! The per-topic index of the event log: the index line format
//! `<offset>\t<len>\t<ts_ms>\t<topic>` (an older three-field form without
//! the timestamp is still read), the offsets a batch of records gets, the
//! staleness check of a loaded index, the selection of candidate records
//! for a replay query, and the run of checksummed records at the
//! head of a log that a recovery keeps.

use vstd::prelude::*;
use crate::decimal::{
    all_digits, dec, dec_signed, decimal_roundtrip_i64, decimal_roundtrip_u64, format_i64,
    format_u64, lemma_dec_value, parse_i64, parse_i64_spec, parse_u32, parse_u32_spec, parse_u64,
    parse_u64_spec,
};
use crate::record::{framed, framed_record_is_one_line, record_json, verify_record};
use crate::text::{chars_of, first_index_of, lemma_first_index_at, lemma_first_index_of, string_from_chars};
use crate::topic::{pattern_matches, segments_of, TopicPattern};

verus! {

/// One index line: where a record starts in the log, its length in bytes,
/// its envelope's timestamp (unix milliseconds; 0 when unknown) and topic.
pub struct IndexEntry {
    pub offset: u64,
    pub len: u32,
    pub ts_ms: i64,
    pub topic: String,
}

/// The text of an index line (without its newline).
pub open spec fn index_line(offset: u64, len: u32, ts_ms: i64, topic: Seq<char>) -> Seq<char> {
    dec(offset as nat) + seq!['\t'] + dec(len as nat) + seq!['\t'] + dec_signed(ts_ms as int) + seq![
        '\t',
    ] + topic
}

/// The fields of a line split at its first three tabs (`splitn(4, '\t')`).
pub open spec fn split_fields(s: Seq<char>) -> Seq<Seq<char>> {
    let t1 = first_index_of(s, '\t');
    if t1 < 0 {
        seq![s]
    } else {
        let r1 = s.skip(t1 + 1);
        let t2 = first_index_of(r1, '\t');
        if t2 < 0 {
            seq![s.take(t1), r1]
        } else {
            let r2 = r1.skip(t2 + 1);
            let t3 = first_index_of(r2, '\t');
            if t3 < 0 {
                seq![s.take(t1), r1.take(t2), r2]
            } else {
                seq![s.take(t1), r1.take(t2), r2.take(t3), r2.skip(t3 + 1)]
            }
        }
    }
}

/// What a line of the index file gives: with four fields, offset, length,
/// timestamp (0 when it does not parse) and topic; with three, offset,
/// length and topic with timestamp 0; nothing when the offset or the length
/// does not parse, or with fewer fields.
pub open spec fn parse_index_line_spec(s: Seq<char>) -> Option<(u64, u32, i64, Seq<char>)> {
    let f = split_fields(s);
    if f.len() == 4 || f.len() == 3 {
        match (parse_u64_spec(f[0]), parse_u32_spec(f[1])) {
            (Some(o), Some(l)) => if f.len() == 4 {
                Some(
                    (
                        o,
                        l,
                        match parse_i64_spec(f[2]) {
                            Some(t) => t,
                            None => 0,
                        },
                        f[3],
                    ),
                )
            } else {
                Some((o, l, 0, f[2]))
            },
            _ => None,
        }
    } else {
        None
    }
}

/// The first `c` at or after `from`.
fn find_from(v: &Vec<char>, from: usize, c: char) -> (r: Option<usize>)
    requires
        from <= v.len(),
    ensures
        match r {
            Some(k) => from <= k < v.len() && first_index_of(v@.skip(from as int), c) == k - from,
            None => first_index_of(v@.skip(from as int), c) == -1,
        },
{
    let ghost s = v@.skip(from as int);
    let mut k: usize = from;
    while k < v.len()
        invariant
            from <= k <= v.len(),
            s == v@.skip(from as int),
            forall|j: int| 0 <= j < k - from ==> s[j] != c,
        decreases v.len() - k,
    {
        if v[k] == c {
            proof {
                assert(s[k - from] == c);
                lemma_first_index_at(s, c, k - from);
            }
            return Some(k);
        }
        k = k + 1;
    }
    proof {
        lemma_first_index_of(s, c);
        if s.contains(c) {
            let j = choose|j: int| 0 <= j < s.len() && s[j] == c;
            assert(s[j] != c);
        }
    }
    None
}

/// The characters `v[from..to]` as a string.
fn piece(v: &Vec<char>, from: usize, to: usize) -> (s: String)
    requires
        from <= to <= v.len(),
    ensures
        s@ == v@.subrange(from as int, to as int),
{
    string_from_chars(vstd::slice::slice_subrange(v.as_slice(), from, to))
}

impl IndexEntry {
    /// The index line of this entry (without its newline).
    pub fn format_line(&self) -> (r: String)
        ensures
            r@ == index_line(self.offset, self.len, self.ts_ms, self.topic@),
    {
        let a = format_u64(self.offset);
        let b = format_u64(self.len as u64);
        let c = format_i64(self.ts_ms);
        let mut out = chars_of(a.as_str());
        let parts: [&str; 3] = [b.as_str(), c.as_str(), self.topic.as_str()];
        let mut p: usize = 0;
        let ghost segs = seq![b@, c@, self.topic@];
        let ghost acc0 = a@;
        proof {
            assert(parts@[0]@ == segs[0]);
        }
        while p < 3
            invariant
                p <= 3,
                parts@.len() == 3,
                forall|j: int| 0 <= j < 3 ==> (#[trigger] parts@[j])@ == segs[j],
                p == 0 ==> out@ == acc0,
                p == 1 ==> out@ == acc0 + seq!['\t'] + segs[0],
                p == 2 ==> out@ == acc0 + seq!['\t'] + segs[0] + seq!['\t'] + segs[1],
                p == 3 ==> out@ == acc0 + seq!['\t'] + segs[0] + seq!['\t'] + segs[1] + seq!['\t'] + segs[2],
            decreases 3 - p,
        {
            let ghost before = out@;
            out.push('\t');
            let w = chars_of(parts[p]);
            let mut i: usize = 0;
            while i < w.len()
                invariant
                    i <= w.len(),
                    out@ == before + seq!['\t'] + w@.take(i as int),
                decreases w.len() - i,
            {
                proof {
                    assert(before + seq!['\t'] + w@.take(i as int + 1) =~= (before + seq!['\t'] + w@.take(i as int)).push(w@[i as int]));
                }
                out.push(w[i]);
                i = i + 1;
            }
            proof {
                assert(w@.take(w.len() as int) =~= w@);
                assert(w@ == segs[p as int]);
            }
            p = p + 1;
        }
        proof {
            assert(out@ =~= index_line(self.offset, self.len, self.ts_ms, self.topic@));
        }
        string_from_chars(out.as_slice())
    }

    /// Reads one line of the index file.
    #[verifier::spinoff_prover]
    #[verifier::rlimit(40)]
    pub fn parse_line(line: &str) -> (r: Option<IndexEntry>)
        ensures
            match r {
                Some(e) => parse_index_line_spec(line@) == Some((e.offset, e.len, e.ts_ms, e.topic@)),
                None => parse_index_line_spec(line@) is None,
            },
    {
        let v = chars_of(line);
        let ghost s = line@;
        proof {
            assert(v@.skip(0) =~= s);
        }
        let t1 = match find_from(&v, 0, '\t') {
            Some(k) => k,
            None => {
                return None;
            },
        };
        let t2 = match find_from(&v, t1 + 1, '\t') {
            Some(k) => k,
            None => {
                proof {
                    assert(s.skip(t1 + 1) =~= v@.skip(t1 + 1));
                }
                return None;
            },
        };
        let f0 = piece(&v, 0, t1);
        let f1 = piece(&v, t1 + 1, t2);
        let third = find_from(&v, t2 + 1, '\t');
        let ghost r1 = s.skip(t1 + 1);
        let ghost r2 = r1.skip(t2 - t1);
        proof {
            assert(s.skip(t1 + 1) =~= v@.skip(t1 + 1));
            assert(f0@ =~= s.take(t1 as int));
            assert(f1@ =~= r1.take(t2 - t1 - 1));
            assert(r2 =~= v@.skip(t2 + 1));
        }
        let offset = match parse_u64(f0.as_str()) {
            Some(o) => o,
            None => {
                return None;
            },
        };
        let len = match parse_u32(f1.as_str()) {
            Some(l) => l,
            None => {
                return None;
            },
        };
        match third {
            None => {
                let topic = piece(&v, t2 + 1, v.len());
                proof {
                    assert(topic@ =~= r2);
                }
                Some(IndexEntry { offset, len, ts_ms: 0, topic })
            },
            Some(t3) => {
                let f2 = piece(&v, t2 + 1, t3);
                let topic = piece(&v, t3 + 1, v.len());
                proof {
                    assert(f2@ =~= r2.take(t3 - t2 - 1));
                    assert(topic@ =~= r2.skip(t3 - t2));
                }
                let ts_ms = match parse_i64(f2.as_str()) {
                    Some(t) => t,
                    None => 0,
                };
                Some(IndexEntry { offset, len, ts_ms, topic })
            },
        }
    }
}

/// A decimal text holds no tab.
proof fn lemma_dec_no_tab(n: nat)
    ensures
        !dec(n).contains('\t'),
{
    lemma_dec_value(n);
    if dec(n).contains('\t') {
        let j = choose|j: int| 0 <= j < dec(n).len() && dec(n)[j] == '\t';
        assert(crate::decimal::is_digit(dec(n)[j]));
    }
}

/// Reading back an index line gives the entry that was written.
#[verifier::spinoff_prover]
#[verifier::rlimit(40)]
pub proof fn index_line_roundtrip(offset: u64, len: u32, ts_ms: i64, topic: Seq<char>)
    ensures
        parse_index_line_spec(index_line(offset, len, ts_ms, topic)) == Some((offset, len, ts_ms, topic)),
{
    let a = dec(offset as nat);
    let b = dec(len as nat);
    let c = dec_signed(ts_ms as int);
    let s = index_line(offset, len, ts_ms, topic);
    lemma_dec_no_tab(offset as nat);
    lemma_dec_no_tab(len as nat);
    lemma_dec_no_tab(if ts_ms < 0 { (-(ts_ms as int)) as nat } else { ts_ms as nat });
    assert(!c.contains('\t')) by {
        if c.contains('\t') {
            let j = choose|j: int| 0 <= j < c.len() && c[j] == '\t';
            if ts_ms < 0 {
                assert(j > 0);
                assert(dec((-(ts_ms as int)) as nat)[j - 1] == '\t');
            }
        }
    }
    assert(s[a.len() as int] == '\t');
    assert forall|k: int| 0 <= k < a.len() implies s[k] != '\t' by {
        assert(s[k] == a[k]);
    }
    lemma_first_index_at(s, '\t', a.len() as int);
    let r1 = s.skip(a.len() as int + 1);
    assert(r1 =~= b + seq!['\t'] + c + seq!['\t'] + topic);
    assert(r1[b.len() as int] == '\t');
    assert forall|k: int| 0 <= k < b.len() implies r1[k] != '\t' by {
        assert(r1[k] == b[k]);
    }
    lemma_first_index_at(r1, '\t', b.len() as int);
    let r2 = r1.skip(b.len() as int + 1);
    assert(r2 =~= c + seq!['\t'] + topic);
    assert(r2[c.len() as int] == '\t');
    assert forall|k: int| 0 <= k < c.len() implies r2[k] != '\t' by {
        assert(r2[k] == c[k]);
    }
    lemma_first_index_at(r2, '\t', c.len() as int);
    assert(s.take(a.len() as int) =~= a);
    assert(r1.take(b.len() as int) =~= b);
    assert(r2.take(c.len() as int) =~= c);
    assert(r2.skip(c.len() as int + 1) =~= topic);
    decimal_roundtrip_u64(offset);
    decimal_roundtrip_u64(len as u64);
    decimal_roundtrip_i64(ts_ms);
}


/// Whether a loaded index is stale: its last entry reaches past the end of
/// the log.
pub open spec fn claims_past_log(entries: Seq<IndexEntry>, log_size: u64) -> bool {
    entries.len() > 0 && entries.last().offset + entries.last().len > log_size
}

/// Whether the last entry of a loaded index reaches past `log_size` bytes.
pub fn index_claims_past_log(entries: &Vec<IndexEntry>, log_size: u64) -> (b: bool)
    ensures
        b == claims_past_log(entries@, log_size),
{
    if entries.len() == 0 {
        return false;
    }
    let last = &entries[entries.len() - 1];
    (last.offset as u128) + (last.len as u128) > (log_size as u128)
}

/// Where the records an index covers end: after its last entry, or 0.
pub fn index_end(entries: &Vec<IndexEntry>, log_size: u64) -> (end: u64)
    requires
        !claims_past_log(entries@, log_size),
    ensures
        end == (if entries@.len() == 0 { 0 } else { entries@.last().offset + entries@.last().len }),
{
    if entries.len() == 0 {
        0
    } else {
        let last = &entries[entries.len() - 1];
        last.offset + last.len as u64
    }
}

/// The offsets of records of lengths `lens` appended at `log_pos`, and the
/// log position after them.
pub open spec fn offsets_from(log_pos: int, lens: Seq<u32>) -> Seq<int>
    decreases lens.len(),
{
    if lens.len() == 0 {
        Seq::empty()
    } else {
        offsets_from(log_pos, lens.drop_last()).push(log_pos + total_len(lens.drop_last()))
    }
}

/// The total of a list of lengths.
pub open spec fn total_len(lens: Seq<u32>) -> int
    decreases lens.len(),
{
    if lens.len() == 0 {
        0
    } else {
        total_len(lens.drop_last()) + lens.last()
    }
}

/// The offset of each record of a batch written at `log_pos`, and the log
/// position after the batch.
pub fn assign_offsets(log_pos: u64, lens: &Vec<u32>) -> (r: (Vec<u64>, u64))
    requires
        log_pos + total_len(lens@) <= u64::MAX,
    ensures
        r.0@.len() == lens@.len(),
        forall|i: int| 0 <= i < lens@.len() ==> r.0@[i] == #[trigger] offsets_from(log_pos as int, lens@)[i],
        r.1 == log_pos + total_len(lens@),
{
    let mut out: Vec<u64> = Vec::new();
    let mut cursor = log_pos;
    let mut i: usize = 0;
    proof {
        assert(lens@.take(0) =~= Seq::<u32>::empty());
    }
    while i < lens.len()
        invariant
            i <= lens.len(),
            log_pos + total_len(lens@) <= u64::MAX,
            cursor == log_pos + total_len(lens@.take(i as int)),
            out@.len() == i,
            forall|j: int| 0 <= j < i ==> out@[j] == #[trigger] offsets_from(log_pos as int, lens@.take(i as int))[j],
        decreases lens.len() - i,
    {
        proof {
            assert(lens@.take(i as int + 1).drop_last() =~= lens@.take(i as int));
            lemma_total_len_prefix(lens@, i as int + 1);
            lemma_offsets_prefix(log_pos as int, lens@.take(i as int + 1), i as int);
        }
        out.push(cursor);
        cursor = cursor + lens[i] as u64;
        i = i + 1;
    }
    proof {
        assert(lens@.take(lens.len() as int) =~= lens@);
    }
    (out, cursor)
}

/// Totals of prefixes never exceed the total.
proof fn lemma_total_len_prefix(lens: Seq<u32>, k: int)
    requires
        0 <= k <= lens.len(),
    ensures
        total_len(lens.take(k)) <= total_len(lens),
        total_len(lens.take(k)) >= 0,
    decreases lens.len(),
{
    if k < lens.len() {
        assert(lens.drop_last().take(k) =~= lens.take(k));
        lemma_total_len_prefix(lens.drop_last(), k);
    } else {
        assert(lens.take(k) =~= lens);
        if lens.len() > 0 {
            lemma_total_len_prefix(lens.drop_last(), lens.len() - 1);
            assert(lens.drop_last().take(lens.len() - 1) =~= lens.drop_last());
        }
    }
}

/// The offsets of a batch extend those of its prefix.
proof fn lemma_offsets_prefix(log_pos: int, lens: Seq<u32>, k: int)
    requires
        0 <= k < lens.len(),
        k == lens.len() - 1,
    ensures
        forall|j: int| 0 <= j < k ==> offsets_from(log_pos, lens)[j] == offsets_from(log_pos, lens.drop_last())[j],
        offsets_from(log_pos, lens).len() == lens.len(),
        offsets_from(log_pos, lens)[k] == log_pos + total_len(lens.drop_last()),
{
    lemma_offsets_len(log_pos, lens.drop_last());
}

proof fn lemma_offsets_len(log_pos: int, lens: Seq<u32>)
    ensures
        offsets_from(log_pos, lens).len() == lens.len(),
    decreases lens.len(),
{
    if lens.len() > 0 {
        lemma_offsets_len(log_pos, lens.drop_last());
    }
}

/// Whether an index entry passes a replay query's topic and time pre-filter:
/// its topic matches the pattern (when there is one), and its timestamp
/// lies within the inclusive bounds — entries without a timestamp (0) are
/// kept for the full check.
pub open spec fn entry_selected(
    e: IndexEntry,
    pattern: Option<Seq<Seq<char>>>,
    since_ms: Option<i64>,
    until_ms: Option<i64>,
) -> bool {
    &&& match pattern {
        Some(p) => pattern_matches(p, segments_of(e.topic@)),
        None => true,
    }
    &&& (e.ts_ms == 0 || ((since_ms matches Some(s) ==> e.ts_ms >= s) && (until_ms matches Some(u)
        ==> e.ts_ms <= u)))
}

/// The plain values of an index entry.
pub open spec fn entry_view(e: IndexEntry) -> (u64, u32, i64, Seq<char>) {
    (e.offset, e.len, e.ts_ms, e.topic@)
}

/// The plain values of a list of index entries.
pub open spec fn entry_views(es: Seq<IndexEntry>) -> Seq<(u64, u32, i64, Seq<char>)> {
    es.map_values(|e: IndexEntry| entry_view(e))
}

/// Offsets never decrease along the list.
pub open spec fn sorted_by_offset(es: Seq<IndexEntry>) -> bool {
    forall|i: int, j: int| 0 <= i < j < es.len() ==> es[i].offset <= es[j].offset
}

/// A copy of an index entry.
fn copy_entry(e: &IndexEntry) -> (r: IndexEntry)
    ensures
        r.offset == e.offset,
        r.len == e.len,
        r.ts_ms == e.ts_ms,
        r.topic@ == e.topic@,
{
    IndexEntry { offset: e.offset, len: e.len, ts_ms: e.ts_ms, topic: e.topic.clone() }
}

/// Stable insertion of `e` into a list sorted by offset.
fn insert_sorted(v: &mut Vec<IndexEntry>, e: IndexEntry)
    requires
        sorted_by_offset(old(v)@),
    ensures
        sorted_by_offset(final(v)@),
        entry_views(final(v)@).to_multiset() == entry_views(old(v)@).to_multiset().insert(entry_view(e)),
{
    let mut p: usize = v.len();
    while p > 0 && v[p - 1].offset > e.offset
        invariant
            p <= v.len(),
            sorted_by_offset(v@),
            forall|j: int| p <= j < v.len() ==> v@[j].offset > e.offset,
        decreases p,
    {
        p = p - 1;
    }
    let ghost before = v@;
    v.insert(p, e);
    proof {
        broadcast use vstd::seq_lib::group_to_multiset_ensures;
        assert(v@ == before.insert(p as int, e));
        assert(entry_views(v@) =~= entry_views(before).insert(p as int, entry_view(e)));
        assert forall|i: int, j: int| 0 <= i < j < v@.len() implies v@[i].offset <= v@[j].offset by {
            if j < p {
                assert(v@[i] == before[i] && v@[j] == before[j]);
            } else if j == p {
                assert(v@[i] == before[i]);
                if p > 0 {
                    assert(before[p - 1].offset <= e.offset);
                }
            } else if i == p {
                assert(v@[j] == before[j - 1]);
            } else if i < p {
                assert(v@[i] == before[i] && v@[j] == before[j - 1]);
            } else {
                assert(v@[i] == before[i - 1] && v@[j] == before[j - 1]);
            }
        }
    }
}

/// The entries the pre-filter selects, in list order.
pub open spec fn selected_entries(
    es: Seq<IndexEntry>,
    pattern: Option<Seq<Seq<char>>>,
    since_ms: Option<i64>,
    until_ms: Option<i64>,
) -> Seq<IndexEntry>
    decreases es.len(),
{
    if es.len() == 0 {
        es
    } else {
        let p = selected_entries(es.drop_last(), pattern, since_ms, until_ms);
        if entry_selected(es.last(), pattern, since_ms, until_ms) {
            p.push(es.last())
        } else {
            p
        }
    }
}

/// The view of an optional pattern.
pub open spec fn pattern_view(p: Option<&TopicPattern>) -> Option<Seq<Seq<char>>> {
    match p {
        Some(x) => Some(x@),
        None => None,
    }
}

/// The in-memory index of a log: every entry, in the order loaded.
pub struct TopicIndex {
    entries: Vec<IndexEntry>,
}

impl TopicIndex {
    /// The entries, in the order they were added.
    pub closed spec fn entries_spec(&self) -> Seq<IndexEntry> {
        self.entries@
    }

    /// An empty index.
    pub fn new() -> (r: TopicIndex)
        ensures
            r.entries_spec() == Seq::<IndexEntry>::empty(),
    {
        TopicIndex { entries: Vec::new() }
    }

    /// Adds entries at the end, in order.
    pub fn extend(&mut self, more: Vec<IndexEntry>)
        ensures
            final(self).entries_spec() == old(self).entries_spec() + more@,
    {
        let mut rest = more;
        let ghost all = rest@;
        let ghost start = self.entries@;
        let mut taken: usize = 0;
        proof {
            assert(all.len() == rest.len());
            assert(start + all.take(0) =~= start);
        }
        while rest.len() > 0
            invariant
                taken + rest.len() == all.len(),
                all.len() <= usize::MAX,
                rest@ == all.skip(taken as int),
                self.entries@ == start + all.take(taken as int),
            decreases rest.len(),
        {
            let e = rest.remove(0);
            proof {
                assert(e == all[taken as int]);
                assert(rest@ =~= all.skip(taken as int + 1));
                assert(start + all.take(taken as int + 1) =~= (start + all.take(taken as int)).push(e));
            }
            self.entries.push(e);
            taken = taken + 1;
        }
        proof {
            assert(all.take(all.len() as int) =~= all);
        }
    }

    /// Adds one entry at the end.
    pub fn push(&mut self, entry: IndexEntry)
        ensures
            final(self).entries_spec() == old(self).entries_spec().push(entry),
    {
        self.entries.push(entry);
    }

    /// The number of entries.
    pub fn len(&self) -> (n: usize)
        ensures
            n == self.entries_spec().len(),
    {
        self.entries.len()
    }

    /// The entries whose topic matches `pattern` (every entry without one),
    /// sorted by offset.
    pub fn snapshot_filtered(&self, pattern: Option<&TopicPattern>) -> (r: Vec<IndexEntry>)
        ensures
            sorted_by_offset(r@),
            entry_views(r@).to_multiset() == entry_views(selected_entries(self.entries_spec(), pattern_view(pattern), None, None)).to_multiset(),
    {
        self.snapshot_filtered_time(pattern, None, None)
    }

    /// The entries a replay query may need, sorted by offset: those whose
    /// topic matches `pattern` (any topic without one) and whose timestamp
    /// lies in the inclusive range (entries without a timestamp are kept).
    pub fn snapshot_filtered_time(
        &self,
        pattern: Option<&TopicPattern>,
        since_ms: Option<i64>,
        until_ms: Option<i64>,
    ) -> (r: Vec<IndexEntry>)
        ensures
            sorted_by_offset(r@),
            entry_views(r@).to_multiset() == entry_views(selected_entries(self.entries_spec(), pattern_view(pattern), since_ms, until_ms)).to_multiset(),
    {
        let ghost pv = pattern_view(pattern);
        let mut out: Vec<IndexEntry> = Vec::new();
        let mut i: usize = 0;
        proof {
            assert(self.entries@.take(0) =~= Seq::<IndexEntry>::empty());
            assert(entry_views(out@) =~= Seq::<(u64, u32, i64, Seq<char>)>::empty());
            assert(entry_views(selected_entries(self.entries@.take(0), pv, since_ms, until_ms)) =~= Seq::<(u64, u32, i64, Seq<char>)>::empty());
        }
        while i < self.entries.len()
            invariant
                i <= self.entries.len(),
                pv == pattern_view(pattern),
                sorted_by_offset(out@),
                entry_views(out@).to_multiset() == entry_views(selected_entries(self.entries@.take(i as int), pv, since_ms, until_ms)).to_multiset(),
            decreases self.entries.len() - i,
        {
            let e = &self.entries[i];
            proof {
                assert(self.entries@.take(i as int + 1).drop_last() =~= self.entries@.take(i as int));
                assert(self.entries@.take(i as int + 1).last() == *e);
            }
            let topic_ok = match pattern {
                Some(p) => p.matches_str(e.topic.as_str()),
                None => true,
            };
            let mut time_ok = true;
            if e.ts_ms != 0 {
                if let Some(s) = since_ms {
                    if e.ts_ms < s {
                        time_ok = false;
                    }
                }
                if let Some(u) = until_ms {
                    if e.ts_ms > u {
                        time_ok = false;
                    }
                }
            }
            if topic_ok && time_ok {
                let c = copy_entry(e);
                proof {
                    broadcast use vstd::seq_lib::group_to_multiset_ensures;
                    let sel = selected_entries(self.entries@.take(i as int), pv, since_ms, until_ms);
                    assert(entry_views(sel.push(*e)) =~= entry_views(sel).push(entry_view(c)));
                }
                insert_sorted(&mut out, c);
            }
            i = i + 1;
        }
        proof {
            assert(self.entries@.take(self.entries.len() as int) =~= self.entries@);
        }
        out
    }
}


// ---------------------------------------------------------------------------
// Recovery of the log's valid head
// ---------------------------------------------------------------------------

/// Where the line of `log` that starts at `from` ends: just past its
/// newline, or at the end of the log when no newline follows.
pub open spec fn line_end(log: Seq<u8>, from: int) -> int
    decreases log.len() - from,
{
    if from >= log.len() {
        log.len() as int
    } else if log[from] == 10u8 {
        from + 1
    } else {
        line_end(log, from + 1)
    }
}

/// A line that starts inside the log ends after its start, inside the log.
pub proof fn lemma_line_end_bounds(log: Seq<u8>, from: int)
    requires
        0 <= from < log.len(),
    ensures
        from < line_end(log, from) <= log.len(),
    decreases log.len() - from,
{
    if log[from] != 10u8 {
        if from + 1 < log.len() {
            lemma_line_end_bounds(log, from + 1);
        } else {
            assert(line_end(log, from + 1) == log.len());
        }
    }
}

/// The spans `(start, end)` of the lines of `log` from `from` on, one after
/// the other, as long as each is a record whose checksum holds: the run
/// stops before the first line that fails, or at the end of the log.
pub open spec fn checked_spans(log: Seq<u8>, from: int) -> Seq<(int, int)>
    decreases log.len() - from,
{
    if from < 0 || from >= log.len() {
        Seq::empty()
    } else {
        let e = line_end(log, from);
        proof {
            lemma_line_end_bounds(log, from);
        }
        if record_json(log.subrange(from, e)) is Some {
            seq![(from, e)] + checked_spans(log, e)
        } else {
            Seq::empty()
        }
    }
}

/// Spans as integer pairs.
pub open spec fn int_spans(v: Seq<(usize, usize)>) -> Seq<(int, int)> {
    v.map_values(|p: (usize, usize)| (p.0 as int, p.1 as int))
}

fn find_line_end(log: &[u8], from: usize) -> (e: usize)
    requires
        from < log.len(),
    ensures
        e == line_end(log@, from as int),
        from < e <= log.len(),
{
    let mut j = from;
    while j < log.len() && log[j] != 10u8
        invariant
            from <= j <= log.len(),
            line_end(log@, from as int) == line_end(log@, j as int),
        decreases log.len() - j,
    {
        j = j + 1;
    }
    if j < log.len() {
        j + 1
    } else {
        j
    }
}

/// The records at the head of a log whose checksums hold: the span of each
/// line, from the start, up to the first line that fails. What a recovery
/// keeps of a log is this run; the rest is torn.
pub fn valid_record_spans(log: &[u8]) -> (r: Vec<(usize, usize)>)
    ensures
        int_spans(r@) == checked_spans(log@, 0),
{
    let mut out: Vec<(usize, usize)> = Vec::new();
    let mut pos: usize = 0;
    let mut stop = false;
    while pos < log.len() && !stop
        invariant
            pos <= log.len(),
            int_spans(out@) + checked_spans(log@, pos as int) == checked_spans(log@, 0),
            stop ==> checked_spans(log@, pos as int) == Seq::<(int, int)>::empty(),
        decreases log.len() - pos, if stop { 0int } else { 1int },
    {
        let e = find_line_end(log, pos);
        let line = vstd::slice::slice_subrange(log, pos, e);
        match verify_record(line) {
            Some(_) => {
                let ghost before = out@;
                proof {
                    assert(checked_spans(log@, pos as int) == seq![(pos as int, e as int)] + checked_spans(
                        log@,
                        e as int,
                    ));
                }
                out.push((pos, e));
                proof {
                    assert(int_spans(out@) =~= int_spans(before).push((pos as int, e as int)));
                    assert(int_spans(out@) + checked_spans(log@, e as int) =~= int_spans(before) + (seq![
                        (pos as int, e as int),
                    ] + checked_spans(log@, e as int)));
                }
                pos = e;
            },
            None => {
                stop = true;
            },
        }
    }
    proof {
        assert(checked_spans(log@, pos as int) == Seq::<(int, int)>::empty());
        assert(int_spans(out@) + Seq::<(int, int)>::empty() =~= int_spans(out@));
    }
    out
}

/// Whether a byte string holds no newline.
pub open spec fn no_newline(b: Seq<u8>) -> bool {
    forall|i: int| 0 <= i < b.len() ==> b[i] != 10u8
}

/// Records framed one after the other.
pub open spec fn framed_all(jsons: Seq<Seq<u8>>) -> Seq<u8>
    decreases jsons.len(),
{
    if jsons.len() == 0 {
        Seq::empty()
    } else {
        framed(jsons[0]) + framed_all(jsons.skip(1))
    }
}

/// The spans of records framed one after the other from `base` on.
pub open spec fn framed_spans(jsons: Seq<Seq<u8>>, base: int) -> Seq<(int, int)>
    decreases jsons.len(),
{
    if jsons.len() == 0 {
        Seq::empty()
    } else {
        let e = base + framed(jsons[0]).len();
        seq![(base, e)] + framed_spans(jsons.skip(1), e)
    }
}

proof fn lemma_line_end_at(log: Seq<u8>, from: int, k: int)
    requires
        0 <= from <= k < log.len(),
        log[k] == 10u8,
        forall|i: int| from <= i < k ==> log[i] != 10u8,
    ensures
        line_end(log, from) == k + 1,
    decreases k - from,
{
    if from < k {
        lemma_line_end_at(log, from + 1, k);
    }
}

proof fn lemma_line_end_open(log: Seq<u8>, from: int)
    requires
        0 <= from <= log.len(),
        forall|i: int| from <= i < log.len() ==> log[i] != 10u8,
    ensures
        line_end(log, from) == log.len(),
    decreases log.len() - from,
{
    if from < log.len() {
        lemma_line_end_open(log, from + 1);
    }
}

proof fn lemma_recover_from(prefix: Seq<u8>, jsons: Seq<Seq<u8>>, tail: Seq<u8>)
    requires
        forall|k: int| 0 <= k < jsons.len() ==> no_newline(#[trigger] jsons[k]),
        no_newline(tail),
    ensures
        checked_spans(prefix + framed_all(jsons) + tail, prefix.len() as int) == framed_spans(
            jsons,
            prefix.len() as int,
        ),
    decreases jsons.len(),
{
    let log = prefix + framed_all(jsons) + tail;
    let p = prefix.len() as int;
    if jsons.len() == 0 {
        assert(log =~= prefix + tail);
        if tail.len() > 0 {
            assert forall|i: int| p <= i < log.len() implies log[i] != 10u8 by {
                assert(log[i] == tail[i - p]);
            }
            lemma_line_end_open(log, p);
            assert(log.subrange(p, log.len() as int) =~= tail);
            assert(tail.last() != 10u8);
        }
    } else {
        let j = jsons[0];
        let f = framed(j);
        let rest = jsons.skip(1);
        assert(no_newline(j));
        framed_record_is_one_line(j);
        assert forall|k: int| 0 <= k < rest.len() implies no_newline(#[trigger] rest[k]) by {
            assert(rest[k] == jsons[k + 1]);
        }
        let p2 = prefix + f;
        assert(log =~= p2 + framed_all(rest) + tail);
        assert forall|i: int| p <= i < p + f.len() implies log[i] == f[i - p] by {}
        lemma_line_end_at(log, p, p + f.len() - 1);
        assert(log.subrange(p, p + f.len()) =~= f);
        lemma_recover_from(p2, rest, tail);
    }
}

/// Recovery keeps whole records and cuts a torn tail: after records framed
/// one after the other (from JSON texts without newlines, as compact JSON
/// is) and a partial record that has no newline yet, the checked run is
/// exactly the spans of the records.
pub proof fn recovery_keeps_whole_records(jsons: Seq<Seq<u8>>, tail: Seq<u8>)
    requires
        forall|k: int| 0 <= k < jsons.len() ==> no_newline(#[trigger] jsons[k]),
        no_newline(tail),
    ensures
        checked_spans(framed_all(jsons) + tail, 0) == framed_spans(jsons, 0),
{
    lemma_recover_from(Seq::empty(), jsons, tail);
    assert(Seq::<u8>::empty() + framed_all(jsons) + tail =~= framed_all(jsons) + tail);
}

} // verus!
