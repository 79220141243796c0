//! The derived computations of the compute sandbox over context entries:
//! counts and their summary, and the requests and results of the clustering,
//! trend and custom-module computations. An entry is seen through what they
//! read of it: its abstract (or its length in bytes) and its memory class.

use vstd::prelude::*;
use crate::decimal::{dec, format_u64};
use crate::intent::MemoryClass;
use crate::text::{chars_of, concat_str, string_from_chars};

verus! {

broadcast use vstd::string::group_string_axioms;

/// Entry, token and class counts of a computation.
#[derive(Debug, Clone, Copy, PartialEq, Eq)]
pub struct ComputeCounts {
    pub entry_count: usize,
    pub total_tokens: usize,
    pub unique_classes: usize,
}

/// The token estimate of entries: a quarter of each abstract's byte
/// length, rounded down, summed.
pub open spec fn token_total(lens: Seq<usize>) -> nat
    decreases lens.len(),
{
    if lens.len() == 0 {
        0
    } else {
        token_total(lens.drop_last()) + (lens.last() / 4) as nat
    }
}

/// The memory classes that entries carry.
pub open spec fn class_set(cs: Seq<Option<MemoryClass>>) -> Set<MemoryClass>
    decreases cs.len(),
{
    if cs.len() == 0 {
        Set::empty()
    } else {
        match cs.last() {
            Some(c) => class_set(cs.drop_last()).insert(c),
            None => class_set(cs.drop_last()),
        }
    }
}

/// The counts of entries given by their abstracts' byte lengths and their
/// classes: how many, the token estimate, and how many distinct classes.
pub fn compute_counts(abstract_bytes: &Vec<usize>, classes: &Vec<Option<MemoryClass>>) -> (r: ComputeCounts)
    requires
        abstract_bytes.len() == classes.len(),
        token_total(abstract_bytes@) <= usize::MAX,
    ensures
        r.entry_count == abstract_bytes.len(),
        r.total_tokens == token_total(abstract_bytes@),
        r.unique_classes == class_set(classes@).len(),
{
    let mut total: usize = 0;
    let mut i: usize = 0;
    proof {
        assert(abstract_bytes@.take(0) =~= Seq::<usize>::empty());
    }
    while i < abstract_bytes.len()
        invariant
            i <= abstract_bytes.len(),
            total == token_total(abstract_bytes@.take(i as int)),
            token_total(abstract_bytes@) <= usize::MAX,
        decreases abstract_bytes.len() - i,
    {
        proof {
            assert(abstract_bytes@.take(i as int + 1).drop_last() =~= abstract_bytes@.take(i as int));
            lemma_token_total_prefix(abstract_bytes@, i as int + 1);
        }
        total = total + abstract_bytes[i] / 4;
        i = i + 1;
    }
    proof {
        assert(abstract_bytes@.take(abstract_bytes.len() as int) =~= abstract_bytes@);
    }
    let mut seen: Vec<MemoryClass> = Vec::new();
    let mut j: usize = 0;
    proof {
        assert(classes@.take(0) =~= Seq::<Option<MemoryClass>>::empty());
        assert(seen@.to_set() =~= Set::<MemoryClass>::empty());
    }
    while j < classes.len()
        invariant
            j <= classes.len(),
            seen@.no_duplicates(),
            seen@.to_set() == class_set(classes@.take(j as int)),
        decreases classes.len() - j,
    {
        proof {
            assert(classes@.take(j as int + 1).drop_last() =~= classes@.take(j as int));
            assert(classes@.take(j as int + 1).last() == classes@[j as int]);
        }
        if let Some(c) = classes[j] {
            let mut present = false;
            let mut k: usize = 0;
            while k < seen.len()
                invariant
                    k <= seen.len(),
                    present <==> exists|q: int| 0 <= q < k && seen@[q] == c,
                decreases seen.len() - k,
            {
                if seen[k] == c {
                    present = true;
                }
                k = k + 1;
            }
            if !present {
                let ghost before = seen@;
                seen.push(c);
                proof {
                    before.lemma_push_to_set_commute(c);
                    assert(seen@ == before.push(c));
                    assert(seen@.to_set() =~= before.to_set().insert(c));
                    assert forall|a: int, b: int| 0 <= a < b < seen@.len() implies seen@[a]
                        != seen@[b] by {
                        if b == before.len() {
                            assert(before[a] != c);
                        }
                    }
                }
            } else {
                proof {
                    let q = choose|q: int| 0 <= q < seen@.len() && seen@[q] == c;
                    assert(seen@.to_set().contains(c));
                    assert(seen@.to_set() =~= seen@.to_set().insert(c));
                }
            }
        }
        j = j + 1;
    }
    proof {
        assert(classes@.take(classes.len() as int) =~= classes@);
        seen@.unique_seq_to_set();
    }
    ComputeCounts { entry_count: abstract_bytes.len(), total_tokens: total, unique_classes: seen.len() }
}

proof fn lemma_token_total_prefix(lens: Seq<usize>, k: int)
    requires
        0 <= k <= lens.len(),
    ensures
        token_total(lens.take(k)) <= token_total(lens),
    decreases lens.len(),
{
    if k < lens.len() {
        assert(lens.drop_last().take(k) =~= lens.take(k));
        lemma_token_total_prefix(lens.drop_last(), k);
    } else {
        assert(lens.take(k) =~= lens);
    }
}

/// The one-line summary of counts.
pub open spec fn summary_text(c: ComputeCounts) -> Seq<char> {
    dec(c.entry_count as nat) + " entries, "@ + dec(c.total_tokens as nat) + " tokens, "@ + dec(
        c.unique_classes as nat,
    ) + " classes"@
}

/// Summary statistics of entries: the text, the counts, and the follow-up
/// action (`compact` when there are no entries).
pub struct StatsSummary {
    pub result: String,
    pub counts: ComputeCounts,
    pub trigger_action: Option<String>,
}

/// The statistics computation (see `compute_counts`, `summary_text`).
pub fn compute_stats(abstract_bytes: &Vec<usize>, classes: &Vec<Option<MemoryClass>>) -> (r: StatsSummary)
    requires
        abstract_bytes.len() == classes.len(),
        token_total(abstract_bytes@) <= usize::MAX,
    ensures
        r.counts.entry_count == abstract_bytes.len(),
        r.counts.total_tokens == token_total(abstract_bytes@),
        r.counts.unique_classes == class_set(classes@).len(),
        r.result@ == summary_text(r.counts),
        abstract_bytes.len() == 0 ==> (r.trigger_action matches Some(t) && t@ == "compact"@),
        abstract_bytes.len() > 0 ==> r.trigger_action is None,
{
    let counts = compute_counts(abstract_bytes, classes);
    let a = format_u64(counts.entry_count as u64);
    let b = format_u64(counts.total_tokens as u64);
    let c = format_u64(counts.unique_classes as u64);
    let s1 = concat_str(a.as_str(), " entries, ");
    let s2 = concat_str(s1.as_str(), b.as_str());
    let s3 = concat_str(s2.as_str(), " tokens, ");
    let s4 = concat_str(s3.as_str(), c.as_str());
    let result = concat_str(s4.as_str(), " classes");
    proof {
        assert(result@ =~= summary_text(counts));
    }
    let trigger_action = if abstract_bytes.len() == 0 {
        Some("compact".to_string())
    } else {
        None
    };
    StatsSummary { result, counts, trigger_action }
}

/// The first `n` characters of `s` (all of them when shorter).
pub open spec fn first_chars(s: Seq<char>, n: nat) -> Seq<char> {
    if s.len() <= n {
        s
    } else {
        s.take(n as int)
    }
}

/// `s.chars().take(n).collect::<String>()`.
pub fn take_chars(s: &str, n: usize) -> (r: String)
    ensures
        r@ == first_chars(s@, n as nat),
{
    let v = chars_of(s);
    if v.len() <= n {
        string_from_chars(v.as_slice())
    } else {
        let r = string_from_chars(vstd::slice::slice_subrange(v.as_slice(), 0, n));
        proof {
            assert(r@ =~= s@.take(n as int));
        }
        r
    }
}

/// The texts joined with `sep` between neighbours.
pub open spec fn joined(parts: Seq<Seq<char>>, sep: Seq<char>) -> Seq<char>
    decreases parts.len(),
{
    if parts.len() == 0 {
        Seq::empty()
    } else if parts.len() == 1 {
        parts[0]
    } else {
        joined(parts.drop_last(), sep) + sep + parts.last()
    }
}

/// `parts.join(sep)`.
pub fn join_with(parts: &Vec<String>, sep: &str) -> (r: String)
    ensures
        r@ == joined(parts@.map_values(|p: String| p@), sep@),
{
    let ghost pv = parts@.map_values(|p: String| p@);
    let mut out = String::new();
    let mut i: usize = 0;
    proof {
        assert(pv.take(0) =~= Seq::<Seq<char>>::empty());
    }
    while i < parts.len()
        invariant
            i <= parts.len(),
            pv == parts@.map_values(|p: String| p@),
            out@ == joined(pv.take(i as int), sep@),
        decreases parts.len() - i,
    {
        proof {
            assert(pv.take(i as int + 1).drop_last() =~= pv.take(i as int));
            assert(pv.take(i as int + 1).last() == parts@[i as int]@);
            if i == 0 {
                assert(out@ =~= Seq::<char>::empty());
            }
        }
        if i == 0 {
            out = concat_str(out.as_str(), parts[i].as_str());
            proof {
                assert(out@ =~= pv.take(1)[0]);
            }
        } else {
            let with_sep = concat_str(out.as_str(), sep);
            out = concat_str(with_sep.as_str(), parts[i].as_str());
        }
        i = i + 1;
    }
    proof {
        assert(pv.take(parts.len() as int) =~= pv);
    }
    out
}

/// The result of a custom module run on a scope without entries.
pub open spec fn empty_scope_text(module: Seq<char>, scope: Seq<char>) -> Seq<char> {
    "custom module '"@ + module + "' executed on empty scope "@ + scope
}

/// The result of a custom module run on a scope without entries.
pub fn empty_scope_result(module_name: &str, scope: &str) -> (r: String)
    ensures
        r@ == empty_scope_text(module_name@, scope@),
{
    let a = concat_str("custom module '", module_name);
    let b = concat_str(a.as_str(), "' executed on empty scope ");
    let r = concat_str(b.as_str(), scope);
    proof {
        assert(r@ =~= empty_scope_text(module_name@, scope@));
    }
    r
}

/// The line that shows entry `i` to a custom module: its address and the
/// first 200 characters of its abstract.
pub open spec fn listing_text(i: nat, uri: Seq<char>, abs: Seq<char>) -> Seq<char> {
    "["@ + dec(i) + "] URI="@ + uri + " | L0="@ + first_chars(abs, 200)
}

/// The line that shows entry `i` to a custom module.
pub fn listing_line(i: usize, uri: &str, abstract_text: &str) -> (r: String)
    ensures
        r@ == listing_text(i as nat, uri@, abstract_text@),
{
    let n = format_u64(i as u64);
    let head = take_chars(abstract_text, 200);
    let a = concat_str("[", n.as_str());
    let b = concat_str(a.as_str(), "] URI=");
    let c = concat_str(b.as_str(), uri);
    let d = concat_str(c.as_str(), " | L0=");
    let r = concat_str(d.as_str(), head.as_str());
    proof {
        assert(r@ =~= listing_text(i as nat, uri@, abstract_text@));
    }
    r
}

/// The line that shows an entry to trend detection: its creation time and
/// the first 80 characters of its abstract.
pub open spec fn trend_text(created: Seq<char>, abs: Seq<char>) -> Seq<char> {
    created + "|"@ + first_chars(abs, 80)
}

/// The line that shows an entry to trend detection.
pub fn trend_line(created: &str, abstract_text: &str) -> (r: String)
    ensures
        r@ == trend_text(created@, abstract_text@),
{
    let head = take_chars(abstract_text, 80);
    let a = concat_str(created, "|");
    let r = concat_str(a.as_str(), head.as_str());
    proof {
        assert(r@ =~= trend_text(created@, abstract_text@));
    }
    r
}

/// The request of trend detection over the joined entry lines.
pub open spec fn trend_prompt_text(joined_lines: Seq<char>) -> Seq<char> {
    "Detect trends:\n\n"@ + joined_lines + "\n\nIdentify patterns."@
}

/// The request of trend detection.
pub fn trend_prompt(joined_lines: &str) -> (r: String)
    ensures
        r@ == trend_prompt_text(joined_lines@),
{
    let a = concat_str("Detect trends:\n\n", joined_lines);
    let r = concat_str(a.as_str(), "\n\nIdentify patterns.");
    proof {
        assert(r@ =~= trend_prompt_text(joined_lines@));
    }
    r
}

/// The request of a clustering of `n` entries into `k` groups.
pub open spec fn cluster_prompt_text(n: nat, k: nat, method: Seq<char>, joined_texts: Seq<char>) -> Seq<char> {
    "Cluster these "@ + dec(n) + " entries into "@ + dec(k) + " groups using "@ + method + ":\n\n"@
        + joined_texts + "\n\nReturn: group labels and a one-sentence summary for each group."@
}

/// The request of a clustering (the abstracts joined by `\n---\n`).
pub fn cluster_prompt(n: usize, k: usize, method: &str, joined_texts: &str) -> (r: String)
    ensures
        r@ == cluster_prompt_text(n as nat, k as nat, method@, joined_texts@),
{
    let ns = format_u64(n as u64);
    let ks = format_u64(k as u64);
    let a = concat_str("Cluster these ", ns.as_str());
    let b = concat_str(a.as_str(), " entries into ");
    let c = concat_str(b.as_str(), ks.as_str());
    let d = concat_str(c.as_str(), " groups using ");
    let e = concat_str(d.as_str(), method);
    let f = concat_str(e.as_str(), ":\n\n");
    let g = concat_str(f.as_str(), joined_texts);
    let r = concat_str(g.as_str(), "\n\nReturn: group labels and a one-sentence summary for each group.");
    proof {
        assert(r@ =~= cluster_prompt_text(n as nat, k as nat, method@, joined_texts@));
    }
    r
}

/// The text of a custom-module request before the module name.
pub const CUSTOM_HEAD: &'static str = "You are executing a custom WASM compute module named \"";

/// The text between the module name and the entry count.
pub const CUSTOM_COUNT: &'static str = "\".\n\nThe module operates on the following ";

/// The text between the entry count and the scope.
pub const CUSTOM_SCOPE: &'static str = " context entries from scope ";

/// The text between the scope and the entry lines.
pub const CUSTOM_LINES: &'static str = ":\n\n";

/// The instructions between the entry lines and the module name again.
pub const CUSTOM_BODY: &'static str = "\n\nExecute the module's computation and return:\n1. The computation result (text description)\n2. Whether any follow-up action should be triggered\n3. Key statistics about the computation\n\nReturn a JSON object:\n{\n  \"result\": \"<computation output>\",\n  \"trigger_action\": \"<action name or null>\",\n  \"entry_count\": <number>,\n  \"total_tokens\": <number>,\n  \"unique_classes\": <number>,\n  \"average_confidence\": <0.0-1.0>\n}\n\nIf you don't recognize the module \"";

/// The instructions after the module name.
pub const CUSTOM_TAIL: &'static str = "\", perform a reasonable default analysis:\n- Compute basic statistics on the entries\n- Identify any patterns or anomalies\n- Suggest relevant follow-up actions (compact, regenerate_overview, merge_duplicates, etc.)\n\nRespond with ONLY the JSON object.\n";

/// The request of a custom module over `n` entries of `scope`.
pub open spec fn custom_prompt_text(module: Seq<char>, n: nat, scope: Seq<char>, lines: Seq<char>) -> Seq<char> {
    CUSTOM_HEAD@ + module + CUSTOM_COUNT@ + dec(n) + CUSTOM_SCOPE@ + scope + CUSTOM_LINES@ + lines
        + CUSTOM_BODY@ + module + CUSTOM_TAIL@
}

/// The request of a custom module (the entry lines joined by newlines).
pub fn custom_prompt(module_name: &str, n: usize, scope: &str, lines: &str) -> (r: String)
    ensures
        r@ == custom_prompt_text(module_name@, n as nat, scope@, lines@),
{
    let ns = format_u64(n as u64);
    let a = concat_str(CUSTOM_HEAD, module_name);
    let b = concat_str(a.as_str(), CUSTOM_COUNT);
    let c = concat_str(b.as_str(), ns.as_str());
    let d = concat_str(c.as_str(), CUSTOM_SCOPE);
    let e = concat_str(d.as_str(), scope);
    let f = concat_str(e.as_str(), CUSTOM_LINES);
    let g = concat_str(f.as_str(), lines);
    let h = concat_str(g.as_str(), CUSTOM_BODY);
    let i = concat_str(h.as_str(), module_name);
    let r = concat_str(i.as_str(), CUSTOM_TAIL);
    proof {
        assert(r@ =~= custom_prompt_text(module_name@, n as nat, scope@, lines@));
    }
    r
}

/// The counts a custom module reported, with the entry count raised to the
/// number of entries it was given.
pub fn custom_counts(reported: ComputeCounts, n: usize) -> (r: ComputeCounts)
    ensures
        r.entry_count == if reported.entry_count >= n { reported.entry_count } else { n },
        r.total_tokens == reported.total_tokens,
        r.unique_classes == reported.unique_classes,
{
    let entry_count = if reported.entry_count >= n { reported.entry_count } else { n };
    ComputeCounts { entry_count, total_tokens: reported.total_tokens, unique_classes: reported.unique_classes }
}

} // verus!
