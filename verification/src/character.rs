//! Character constraints on writes: core values with forbidden terms (the
//! keyword path), the text a semantic review reads, the prompt it is given,
//! and what its answer decides.

use vstd::prelude::*;
use crate::sql_text::{is_ws, trim, trim_chars};
use crate::text::{chars_of, concat_str, contains_str, has_substring, lowercase, string_from_chars, to_lowercase};

verus! {

broadcast use vstd::string::group_string_axioms;

/// A write refused by a core value; the text says why.
#[derive(Debug, Clone)]
pub struct ConstraintViolation(pub String);

/// One core value of an agent's character.
#[derive(Debug, Clone)]
pub struct CoreValue {
    pub name: String,
    /// What the value means (read by the semantic review).
    pub description: String,
    /// Terms that must not occur in written content (case-insensitive).
    pub forbidden_terms: Vec<String>,
}

/// The texts of an entry that the constraints read: its abstract and,
/// when present, its overview.
#[derive(Debug, Clone)]
pub struct EntryText {
    pub l0_abstract: String,
    pub l1_overview: Option<String>,
}

/// The index of the first forbidden term occurring in lower-cased content
/// `lc` (terms compared lower-cased), or -1.
pub open spec fn forbidden_index(lc: Seq<char>, terms: Seq<String>) -> int
    decreases terms.len(),
{
    if terms.len() == 0 {
        -1
    } else {
        let p = forbidden_index(lc, terms.drop_last());
        if p >= 0 {
            p
        } else if has_substring(lc, lowercase(terms.last()@)) {
            terms.len() - 1
        } else {
            -1
        }
    }
}

/// The message of a keyword violation.
pub open spec fn keyword_message(value: Seq<char>, term: Seq<char>) -> Seq<char> {
    "value `"@ + value + "` forbids term `"@ + term + "`"@
}

/// What the keyword check of value `v` says of `content`: the message of
/// the first forbidden term it contains, if any.
pub open spec fn keyword_verdict(v: CoreValue, content: Seq<char>) -> Option<Seq<char>> {
    let k = forbidden_index(lowercase(content), v.forbidden_terms@);
    if k < 0 {
        None
    } else {
        Some(keyword_message(v.name@, v.forbidden_terms@[k]@))
    }
}

impl CoreValue {
    /// The keyword check: refuses content containing a forbidden term,
    /// naming the first one (in list order) that occurs.
    pub fn check_keywords(&self, content: &str) -> (r: Result<(), ConstraintViolation>)
        ensures
            match keyword_verdict(*self, content@) {
                None => r is Ok,
                Some(m) => r matches Err(v) && v.0@ == m,
            },
    {
        let lc = to_lowercase(content);
        let mut i: usize = 0;
        proof {
            assert(self.forbidden_terms@.take(0) =~= Seq::<String>::empty());
        }
        while i < self.forbidden_terms.len()
            invariant
                i <= self.forbidden_terms.len(),
                lc@ == lowercase(content@),
                forbidden_index(lc@, self.forbidden_terms@.take(i as int)) == -1,
            decreases self.forbidden_terms.len() - i,
        {
            let t = &self.forbidden_terms[i];
            let lt = to_lowercase(t.as_str());
            proof {
                assert(self.forbidden_terms@.take(i as int + 1).drop_last() =~= self.forbidden_terms@.take(i as int));
            }
            if contains_str(lc.as_str(), lt.as_str()) {
                let a = concat_str("value `", self.name.as_str());
                let b = concat_str(a.as_str(), "` forbids term `");
                let c = concat_str(b.as_str(), t.as_str());
                let msg = concat_str(c.as_str(), "`");
                proof {
                    lemma_forbidden_prefix(lc@, self.forbidden_terms@, i as int + 1);
                    assert(msg@ =~= keyword_message(self.name@, self.forbidden_terms@[i as int]@));
                }
                return Err(ConstraintViolation(msg));
            }
            i = i + 1;
        }
        proof {
            assert(self.forbidden_terms@.take(self.forbidden_terms.len() as int) =~= self.forbidden_terms@);
        }
        Ok(())
    }
}

/// A hit within a prefix is the first hit overall.
proof fn lemma_forbidden_prefix(lc: Seq<char>, terms: Seq<String>, k: int)
    requires
        0 <= k <= terms.len(),
        forbidden_index(lc, terms.take(k)) >= 0,
    ensures
        forbidden_index(lc, terms) == forbidden_index(lc, terms.take(k)),
    decreases terms.len() - k,
{
    if k < terms.len() {
        assert(terms.take(k + 1).drop_last() =~= terms.take(k));
        lemma_forbidden_prefix(lc, terms, k + 1);
    } else {
        assert(terms.take(k) =~= terms);
    }
}

/// The verdict of the keyword path over values `vs[i..]`: each value checks
/// the abstract, then the overview; the first refusal wins.
pub open spec fn write_verdict_from(vs: Seq<CoreValue>, i: int, e: EntryText) -> Option<Seq<char>>
    decreases vs.len() - i,
{
    if i < 0 || i >= vs.len() {
        None
    } else {
        match keyword_verdict(vs[i], e.l0_abstract@) {
            Some(m) => Some(m),
            None => match e.l1_overview {
                Some(ov) => match keyword_verdict(vs[i], ov@) {
                    Some(m) => Some(m),
                    None => write_verdict_from(vs, i + 1, e),
                },
                None => write_verdict_from(vs, i + 1, e),
            },
        }
    }
}

/// Whether term `j` of value `v` occurs in `content`, case-insensitively.
pub open spec fn term_occurs(v: CoreValue, j: int, content: Seq<char>) -> bool {
    0 <= j < v.forbidden_terms@.len() && has_substring(lowercase(content), lowercase(v.forbidden_terms@[j]@))
}

/// Whether some term of value `v` occurs in `content`.
pub open spec fn any_term(v: CoreValue, content: Seq<char>) -> bool {
    exists|j: int| #![trigger v.forbidden_terms@[j]] term_occurs(v, j, content)
}

/// Whether term `j` is the first term of `v`, in list order, occurring in
/// `content`.
pub open spec fn first_term(v: CoreValue, j: int, content: Seq<char>) -> bool {
    term_occurs(v, j, content) && forall|i: int| 0 <= i < j ==> !term_occurs(v, i, content)
}

/// Whether some term of value `v` occurs in the abstract or the overview.
pub open spec fn value_refuses(v: CoreValue, e: EntryText) -> bool {
    any_term(v, e.l0_abstract@) || (e.l1_overview matches Some(ov) && any_term(v, ov@))
}

/// The term a refusal by `v` names: the first occurring in the abstract,
/// or, when none does, the first occurring in the overview.
pub open spec fn named_term(v: CoreValue, j: int, e: EntryText) -> bool {
    if any_term(v, e.l0_abstract@) {
        first_term(v, j, e.l0_abstract@)
    } else {
        e.l1_overview matches Some(ov) && first_term(v, j, ov@)
    }
}

proof fn lemma_forbidden_index(lc: Seq<char>, terms: Seq<String>)
    ensures
        -1 <= forbidden_index(lc, terms) < terms.len(),
        forbidden_index(lc, terms) >= 0 ==> has_substring(lc, lowercase(terms[forbidden_index(lc, terms)]@)),
        forall|j: int|
            0 <= j < terms.len() && (forbidden_index(lc, terms) < 0 || j < forbidden_index(lc, terms)) ==> !has_substring(
                lc,
                lowercase(#[trigger] terms[j]@),
            ),
    decreases terms.len(),
{
    if terms.len() > 0 {
        let d = terms.drop_last();
        lemma_forbidden_index(lc, d);
        assert forall|j: int|
            0 <= j < terms.len() && (forbidden_index(lc, terms) < 0 || j < forbidden_index(lc, terms)) implies !has_substring(
            lc,
            lowercase(#[trigger] terms[j]@),
        ) by {
            if j < d.len() {
                assert(d[j] == terms[j]);
            }
        }
        if forbidden_index(lc, d) >= 0 {
            assert(terms[forbidden_index(lc, d)] == d[forbidden_index(lc, d)]);
        }
    }
}

proof fn lemma_keyword_verdict(v: CoreValue, content: Seq<char>)
    ensures
        keyword_verdict(v, content) is None <==> !any_term(v, content),
        keyword_verdict(v, content) matches Some(m) ==> exists|j: int|
            first_term(v, j, content) && m == keyword_message(v.name@, #[trigger] v.forbidden_terms@[j]@),
{
    lemma_forbidden_index(lowercase(content), v.forbidden_terms@);
    let k = forbidden_index(lowercase(content), v.forbidden_terms@);
    if k >= 0 {
        assert(term_occurs(v, k, content));
        assert forall|i: int| 0 <= i < k implies !term_occurs(v, i, content) by {
            assert(!has_substring(lowercase(content), lowercase(v.forbidden_terms@[i]@)));
        }
        assert(first_term(v, k, content));
    } else {
        assert forall|j: int| !term_occurs(v, j, content) by {
            if 0 <= j < v.forbidden_terms@.len() {
                assert(!has_substring(lowercase(content), lowercase(v.forbidden_terms@[j]@)));
            }
        }
    }
}

proof fn lemma_write_verdict(vs: Seq<CoreValue>, i: int, e: EntryText)
    requires
        0 <= i <= vs.len(),
    ensures
        write_verdict_from(vs, i, e) is None <==> forall|q: int| i <= q < vs.len() ==> !value_refuses(#[trigger] vs[q], e),
        write_verdict_from(vs, i, e) matches Some(m) ==> exists|q: int, j: int|
            i <= q < vs.len() && (forall|p: int| i <= p < q ==> !value_refuses(#[trigger] vs[p], e)) && named_term(
                vs[q],
                j,
                e,
            ) && m == keyword_message(vs[q].name@, #[trigger] vs[q].forbidden_terms@[j]@),
    decreases vs.len() - i,
{
    if i < vs.len() {
        let v = vs[i];
        lemma_write_verdict(vs, i + 1, e);
        lemma_keyword_verdict(v, e.l0_abstract@);
        match e.l1_overview {
            Some(ov) => {
                lemma_keyword_verdict(v, ov@);
            },
            None => {},
        }
        let refuses = value_refuses(v, e);
        if !refuses {
            assert(write_verdict_from(vs, i, e) == write_verdict_from(vs, i + 1, e));
        } else {
            assert(write_verdict_from(vs, i, e) is Some);
        }
        if write_verdict_from(vs, i, e) is None {
            assert forall|q: int| i <= q < vs.len() implies !value_refuses(#[trigger] vs[q], e) by {
                if q > i {
                    assert(i + 1 <= q);
                }
            }
        } else {
            assert(!(forall|q: int| i <= q < vs.len() ==> !value_refuses(#[trigger] vs[q], e))) by {
                if !refuses {
                    let q0 = choose|q: int| i + 1 <= q < vs.len() && value_refuses(#[trigger] vs[q], e);
                } else {
                    assert(value_refuses(vs[i], e));
                }
            }
        }
        if let Some(m) = write_verdict_from(vs, i, e) {
            if refuses {
                match keyword_verdict(v, e.l0_abstract@) {
                    Some(m1) => {
                        let j = choose|j: int|
                            first_term(v, j, e.l0_abstract@) && m1 == keyword_message(v.name@, #[trigger] v.forbidden_terms@[j]@);
                        assert(named_term(vs[i], j, e));
                    },
                    None => {
                        let ov = e.l1_overview->0;
                        let m2 = keyword_verdict(v, ov@)->0;
                        let j = choose|j: int|
                            first_term(v, j, ov@) && m2 == keyword_message(v.name@, #[trigger] v.forbidden_terms@[j]@);
                        assert(named_term(vs[i], j, e));
                    },
                }
            } else {
                let (q, j) = choose|q: int, j: int|
                    i + 1 <= q < vs.len() && (forall|p: int| i + 1 <= p < q ==> !value_refuses(#[trigger] vs[p], e))
                        && named_term(vs[q], j, e) && m == keyword_message(vs[q].name@, #[trigger] vs[q].forbidden_terms@[j]@);
                assert forall|p: int| i <= p < q implies !value_refuses(#[trigger] vs[p], e) by {
                    if p == i {
                        assert(vs[p] == v);
                    }
                }
            }
        }
    }
}

/// The keyword path refuses a write exactly when some core value, not only
/// the first, has a forbidden term occurring (case-insensitively) in the
/// abstract or the overview. The refusal names the first such value, in
/// list order, and its first term occurring in the abstract, or, when none
/// does, its first term occurring in the overview.
pub proof fn write_refused_by_any_value(vs: Seq<CoreValue>, e: EntryText)
    ensures
        write_verdict_from(vs, 0, e) is None <==> forall|q: int| 0 <= q < vs.len() ==> !value_refuses(#[trigger] vs[q], e),
        write_verdict_from(vs, 0, e) matches Some(m) ==> exists|q: int, j: int|
            0 <= q < vs.len() && (forall|p: int| 0 <= p < q ==> !value_refuses(#[trigger] vs[p], e)) && named_term(
                vs[q],
                j,
                e,
            ) && m == keyword_message(vs[q].name@, #[trigger] vs[q].forbidden_terms@[j]@),
{
    lemma_write_verdict(vs, 0, e);
}

/// The text a semantic review reads: the abstract, then the overview after
/// a `---` line.
pub open spec fn full_text_spec(e: EntryText) -> Seq<char> {
    match e.l1_overview {
        Some(ov) => e.l0_abstract@ + "\n---\n"@ + ov@,
        None => e.l0_abstract@,
    }
}

/// The text a semantic review reads.
pub fn build_full_text(e: &EntryText) -> (r: String)
    ensures
        r@ == full_text_spec(*e),
{
    match &e.l1_overview {
        Some(ov) => {
            let a = concat_str(e.l0_abstract.as_str(), "\n---\n");
            let r = concat_str(a.as_str(), ov.as_str());
            proof {
                assert(r@ =~= full_text_spec(*e));
            }
            r
        },
        None => e.l0_abstract.clone(),
    }
}

/// The write hook: core values as checks before a write.
pub struct CharacterConstraint {
    core_values: Vec<CoreValue>,
}

impl CharacterConstraint {
    /// The values, in order.
    pub closed spec fn values(&self) -> Seq<CoreValue> {
        self.core_values@
    }

    /// A constraint from core values (keyword path only).
    pub fn new(core_values: Vec<CoreValue>) -> (r: CharacterConstraint)
        ensures
            r.values() == core_values@,
    {
        CharacterConstraint { core_values }
    }

    /// The keyword path over every value (see `write_verdict_from`).
    pub fn check_write_sync(&self, e: &EntryText) -> (r: Result<(), ConstraintViolation>)
        ensures
            match write_verdict_from(self.values(), 0, *e) {
                None => r is Ok,
                Some(m) => r matches Err(v) && v.0@ == m,
            },
            r is Ok <==> forall|q: int| 0 <= q < self.values().len() ==> !value_refuses(#[trigger] self.values()[q], *e),
            r matches Err(x) ==> exists|q: int, j: int|
                0 <= q < self.values().len() && (forall|p: int| 0 <= p < q ==> !value_refuses(#[trigger] self.values()[p], *e))
                    && named_term(self.values()[q], j, *e) && x.0@ == keyword_message(
                    self.values()[q].name@,
                    #[trigger] self.values()[q].forbidden_terms@[j]@,
                ),
    {
        proof {
            write_refused_by_any_value(self.values(), *e);
        }
        let mut i: usize = 0;
        while i < self.core_values.len()
            invariant
                i <= self.core_values.len(),
                write_verdict_from(self.core_values@, 0, *e) == write_verdict_from(self.core_values@, i as int, *e),
                write_verdict_from(self.core_values@, 0, *e) is None <==> forall|q: int|
                    0 <= q < self.core_values@.len() ==> !value_refuses(#[trigger] self.core_values@[q], *e),
                write_verdict_from(self.core_values@, 0, *e) matches Some(m) ==> exists|q: int, j: int|
                    0 <= q < self.core_values@.len() && (forall|p: int|
                        0 <= p < q ==> !value_refuses(#[trigger] self.core_values@[p], *e)) && named_term(
                        self.core_values@[q],
                        j,
                        *e,
                    ) && m == keyword_message(self.core_values@[q].name@, #[trigger] self.core_values@[q].forbidden_terms@[j]@),
            decreases self.core_values.len() - i,
        {
            let v = &self.core_values[i];
            match v.check_keywords(e.l0_abstract.as_str()) {
                Err(x) => {
                    return Err(x);
                },
                Ok(()) => {},
            }
            match &e.l1_overview {
                Some(ov) => match v.check_keywords(ov.as_str()) {
                    Err(x) => {
                        return Err(x);
                    },
                    Ok(()) => {},
                },
                None => {},
            }
            i = i + 1;
        }
        Ok(())
    }

    /// The value list a semantic review is shown: one `- name: description`
    /// line per value.
    pub fn values_text(&self) -> (r: String)
        ensures
            r@ == values_text_spec(self.values()),
    {
        let mut out: Vec<char> = Vec::new();
        let mut i: usize = 0;
        proof {
            assert(self.core_values@.take(0) =~= Seq::<CoreValue>::empty());
        }
        while i < self.core_values.len()
            invariant
                i <= self.core_values.len(),
                out@ == values_text_spec(self.core_values@.take(i as int)),
            decreases self.core_values.len() - i,
        {
            let v = &self.core_values[i];
            let a = concat_str("- ", v.name.as_str());
            let b = concat_str(a.as_str(), ": ");
            let line = concat_str(b.as_str(), v.description.as_str());
            let lc = chars_of(line.as_str());
            let ghost before = out@;
            if i > 0 {
                out.push('\n');
            }
            let mut k: usize = 0;
            let ghost head = out@;
            while k < lc.len()
                invariant
                    k <= lc.len(),
                    out@ == head + lc@.take(k as int),
                decreases lc.len() - k,
            {
                proof {
                    assert(head + lc@.take(k as int + 1) =~= (head + lc@.take(k as int)).push(lc@[k as int]));
                }
                out.push(lc[k]);
                k = k + 1;
            }
            proof {
                assert(lc@.take(lc.len() as int) =~= lc@);
                assert(self.core_values@.take(i as int + 1).drop_last() =~= self.core_values@.take(i as int));
                assert(line@ =~= value_line(*v));
                reveal_strlit("\n");
                if i > 0 {
                    assert(out@ =~= before + "\n"@ + value_line(*v));
                } else {
                    assert(out@ =~= value_line(*v));
                }
            }
            i = i + 1;
        }
        proof {
            assert(self.core_values@.take(self.core_values.len() as int) =~= self.core_values@);
        }
        string_from_chars(out.as_slice())
    }
}

/// The line describing one value.
pub open spec fn value_line(v: CoreValue) -> Seq<char> {
    "- "@ + v.name@ + ": "@ + v.description@
}

/// The lines of the values joined by newlines.
pub open spec fn values_text_spec(vs: Seq<CoreValue>) -> Seq<char>
    decreases vs.len(),
{
    if vs.len() == 0 {
        Seq::empty()
    } else if vs.len() == 1 {
        value_line(vs[0])
    } else {
        values_text_spec(vs.drop_last()) + "\n"@ + value_line(vs.last())
    }
}

/// The first position at or after `i` where `n` occurs in `s`, or -1.
pub open spec fn find_from(s: Seq<char>, n: Seq<char>, i: int) -> int
    decreases s.len() + 1 - i,
{
    if i < 0 || i + n.len() > s.len() {
        -1
    } else if s.subrange(i, i + n.len()) == n {
        i
    } else {
        find_from(s, n, i + 1)
    }
}

/// The last position of `c` in `s`, or -1.
pub open spec fn rfind_char(s: Seq<char>, c: char) -> int
    decreases s.len(),
{
    if s.len() == 0 {
        -1
    } else if s.last() == c {
        s.len() - 1
    } else {
        rfind_char(s.drop_last(), c)
    }
}

/// Where a fenced ```json block of trimmed text `t` ends, if it has one.
pub open spec fn fenced_end(t: Seq<char>) -> int {
    let start = find_from(t, "```json"@, 0);
    if start < 0 {
        -1
    } else {
        find_from(t.skip(start + 7), "```"@, 0)
    }
}

/// Whether extracting a JSON object from `text` slices backwards (a `}`
/// only before the first `{`), where the extraction panics.
pub open spec fn extract_would_panic(text: Seq<char>) -> bool {
    let t = trim(text);
    let s = find_from(t, seq!['{'], 0);
    let e = rfind_char(t, '}');
    fenced_end(t) < 0 && s >= 0 && e >= 0 && e < s
}

/// The JSON object in a model's answer: the body of the first ```json
/// fence (trimmed) when it is closed; else the text from the first `{` to
/// the last `}`; else the trimmed answer.
pub open spec fn extract_json_spec(text: Seq<char>) -> Seq<char> {
    let t = trim(text);
    let start = find_from(t, "```json"@, 0);
    let end = fenced_end(t);
    if end >= 0 {
        trim(t.skip(start + 7).take(end))
    } else {
        let s = find_from(t, seq!['{'], 0);
        let e = rfind_char(t, '}');
        if s >= 0 && e >= 0 {
            t.subrange(s, e + 1)
        } else {
            t
        }
    }
}

/// First position at or after `from` of `n` in `s`.
fn find_exec(s: &Vec<char>, n: &Vec<char>, from: usize) -> (r: Option<usize>)
    requires
        from <= s.len(),
    ensures
        match r {
            Some(i) => i == find_from(s@, n@, from as int) && i >= 0,
            None => find_from(s@, n@, from as int) == -1,
        },
{
    let mut i: usize = from;
    while n.len() <= s.len() - i
        invariant
            from <= i,
            i <= s.len(),
            find_from(s@, n@, from as int) == find_from(s@, n@, i as int),
        decreases s.len() - i,
    {
        let mut k: usize = 0;
        let mut same = true;
        while k < n.len()
            invariant
                k <= n.len(),
                i + n.len() <= s.len(),
                same == (forall|j: int| 0 <= j < k ==> s@[i + j] == n@[j]),
            decreases n.len() - k,
        {
            if s[i + k] != n[k] {
                same = false;
            }
            k = k + 1;
        }
        proof {
            if same {
                assert(s@.subrange(i as int, i + n.len()) =~= n@);
            } else {
                let j = choose|j: int| 0 <= j < n.len() && s@[i + j] != n@[j];
                assert(s@.subrange(i as int, i + n.len())[j] != n@[j]);
            }
        }
        if same {
            return Some(i);
        }
        i = i + 1;
    }
    proof {
        assert(i + n.len() > s.len());
    }
    None
}

/// A position `find_from` returns holds an occurrence.
proof fn lemma_find_from(s: Seq<char>, n: Seq<char>, i: int)
    ensures
        find_from(s, n, i) == -1 || (0 <= i <= find_from(s, n, i) && find_from(s, n, i) + n.len() <= s.len()
            && s.subrange(find_from(s, n, i), find_from(s, n, i) + n.len()) == n),
    decreases s.len() + 1 - i,
{
    if !(i < 0 || i + n.len() > s.len()) && s.subrange(i, i + n.len()) != n {
        lemma_find_from(s, n, i + 1);
    }
}

/// A position `rfind_char` returns holds the character.
proof fn lemma_rfind(s: Seq<char>, c: char)
    ensures
        rfind_char(s, c) == -1 || (0 <= rfind_char(s, c) < s.len() && s[rfind_char(s, c)] == c),
    decreases s.len(),
{
    if s.len() > 0 && s.last() != c {
        lemma_rfind(s.drop_last(), c);
    }
}

/// Whether `extract_json_object` would slice backwards on `text`.
pub fn extract_json_would_panic(text: &str) -> (b: bool)
    ensures
        b == extract_would_panic(text@),
{
    let raw = chars_of(text);
    let t = trim_chars(&raw);
    if fenced_block_end(&t).is_some() {
        return false;
    }
    let mut brace: Vec<char> = Vec::new();
    brace.push('{');
    proof {
        assert(brace@ =~= seq!['{']);
    }
    let s = find_exec(&t, &brace, 0);
    let e = rfind_exec(&t, '}');
    match (s, e) {
        (Some(si), Some(ei)) => ei < si,
        _ => false,
    }
}

/// Where the fenced ```json block of `t` starts and ends (relative to the
/// text after the fence), if it is closed.
fn fenced_block_end(t: &Vec<char>) -> (r: Option<(usize, usize)>)
    ensures
        match r {
            Some((start, end)) => start as int == find_from(t@, "```json"@, 0) && end as int == fenced_end(t@)
                && end >= 0 && start + 7 <= t@.len() && end <= t@.len() - (start + 7),
            None => fenced_end(t@) < 0,
        },
{
    let fence = chars_of("```json");
    let close = chars_of("```");
    proof {
        reveal_strlit("```json");
        reveal_strlit("```");
    }
    match find_exec(t, &fence, 0) {
        Some(start) => {
            proof {
                lemma_find_from(t@, fence@, 0);
                assert(fence@.len() == 7);
                assert(start + 7 <= t@.len());
                assert(t@.len() == t.len());
            }
            let after: Vec<char> = slice_to_vec(t, start + 7, t.len());
            proof {
                assert(after@ =~= t@.skip(start + 7));
            }
            match find_exec(&after, &close, 0) {
                Some(end) => {
                    proof {
                        lemma_find_from(after@, close@, 0);
                    }
                    Some((start, end))
                },
                None => None,
            }
        },
        None => None,
    }
}

/// `v[from..to]` as a vector.
fn slice_to_vec(v: &Vec<char>, from: usize, to: usize) -> (r: Vec<char>)
    requires
        from <= to <= v.len(),
    ensures
        r@ == v@.subrange(from as int, to as int),
{
    let mut r: Vec<char> = Vec::new();
    let mut k: usize = from;
    while k < to
        invariant
            from <= k <= to <= v.len(),
            r@ == v@.subrange(from as int, k as int),
        decreases to - k,
    {
        proof {
            assert(v@.subrange(from as int, k as int + 1) =~= v@.subrange(from as int, k as int).push(v@[k as int]));
        }
        r.push(v[k]);
        k = k + 1;
    }
    r
}

/// Last position of `c`.
fn rfind_exec(v: &Vec<char>, c: char) -> (r: Option<usize>)
    ensures
        match r {
            Some(i) => i as int == rfind_char(v@, c),
            None => rfind_char(v@, c) == -1,
        },
{
    let mut k: usize = v.len();
    proof {
        assert(v@.take(k as int) =~= v@);
    }
    while k > 0
        invariant
            k <= v.len(),
            rfind_char(v@, c) == rfind_char(v@.take(k as int), c),
        decreases k,
    {
        proof {
            assert(v@.take(k as int).drop_last() =~= v@.take(k as int - 1));
        }
        if v[k - 1] == c {
            return Some(k - 1);
        }
        k = k - 1;
    }
    proof {
        assert(v@.take(0) =~= Seq::<char>::empty());
    }
    None
}

/// The JSON object in a model's answer (see `extract_json_spec`).
pub fn extract_json_object(text: &str) -> (r: String)
    requires
        !extract_would_panic(text@),
    ensures
        r@ == extract_json_spec(text@),
{
    let raw = chars_of(text);
    let t = trim_chars(&raw);
    match fenced_block_end(&t) {
        Some((start, end)) => {
            let inner = slice_to_vec(&t, start + 7, start + 7 + end);
            proof {
                assert(inner@ =~= t@.skip(start + 7).take(end as int));
            }
            let trimmed = trim_chars(&inner);
            return string_from_chars(trimmed.as_slice());
        },
        None => {},
    }
    let mut brace: Vec<char> = Vec::new();
    brace.push('{');
    proof {
        assert(brace@ =~= seq!['{']);
        lemma_rfind(t@, '}');
    }
    match (find_exec(&t, &brace, 0), rfind_exec(&t, '}')) {
        (Some(s), Some(e)) => {
            let body = slice_to_vec(&t, s, e + 1);
            string_from_chars(body.as_slice())
        },
        _ => string_from_chars(t.as_slice()),
    }
}

/// The outcome of a semantic review from its parsed answer: a violation
/// refuses the write, naming the value and the reason; anything else (no
/// violation, an answer that did not parse, a failed call) lets it pass.
pub fn semantic_outcome(parsed: Option<(bool, &str, &str)>) -> (r: Result<(), ConstraintViolation>)
    ensures
        match parsed {
            Some((true, name, reason)) => r matches Err(v) && v.0@ == "semantic violation of `"@ + name@ + "`: "@ + reason@,
            _ => r is Ok,
        },
{
    match parsed {
        Some((true, name, reason)) => {
            let a = concat_str("semantic violation of `", name);
            let b = concat_str(a.as_str(), "`: ");
            let m = concat_str(b.as_str(), reason);
            proof {
                assert(m@ =~= "semantic violation of `"@ + name@ + "`: "@ + reason@);
            }
            Err(ConstraintViolation(m))
        },
        _ => Ok(()),
    }
}

/// The text before the value list in a semantic review request.
pub const REVIEW_HEAD: &'static str = "You are a character constraint auditor for an AI agent.\n\nThe agent's core values are:\n";

/// The text between the value list and the content under review.
pub const REVIEW_MID: &'static str = "\n\nReview the following context entry content for semantic violations of ANY of these values.\nA violation means the content goes against a core value in meaning, intent, or implication\n(even if it doesn't use exact forbidden words).\n\nContent:\n";

/// The text after the content: the answer format.
pub const REVIEW_TAIL: &'static str = "\n\nReturn a JSON object:\nIf no violations: {\"violation\": false}\nIf violation found: {\"violation\": true, \"value_name\": \"<which value>\", \"reason\": \"<brief explanation>\"}\n\nRespond with ONLY the JSON object.\n";

impl CharacterConstraint {
    /// The request a semantic review sends to the language model: the value
    /// list (see `values_text`) and the entry's full text (see
    /// `build_full_text`) inside the fixed instructions.
    pub fn review_prompt(&self, e: &EntryText) -> (r: String)
        ensures
            r@ == REVIEW_HEAD@ + values_text_spec(self.values()) + REVIEW_MID@ + full_text_spec(*e)
                + REVIEW_TAIL@,
    {
        let values = self.values_text();
        let full = build_full_text(e);
        let a = concat_str(REVIEW_HEAD, values.as_str());
        let b = concat_str(a.as_str(), REVIEW_MID);
        let c = concat_str(b.as_str(), full.as_str());
        let r = concat_str(c.as_str(), REVIEW_TAIL);
        proof {
            assert(r@ =~= REVIEW_HEAD@ + values_text_spec(self.values()) + REVIEW_MID@ + full_text_spec(*e)
                + REVIEW_TAIL@);
        }
        r
    }
}

} // verus!
