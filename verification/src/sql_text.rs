//! SQL text: splitting a script into statements, quoting, the statements
//! of the schema-version table, and the file names of migration scripts.

use vstd::prelude::*;
use crate::decimal::{dec_signed, format_i64, parse_i64, parse_i64_spec};
use crate::text::{
    chars_of, concat_str, first_index_of, lemma_first_index_at, lemma_first_index_of, str_eq,
    string_from_chars,
};

verus! {

broadcast use vstd::string::group_string_axioms;

/// `char::is_whitespace`: the Unicode White_Space characters.
pub open spec fn is_ws(c: char) -> bool {
    ('\u{9}' <= c && c <= '\u{d}') || c == ' ' || c == '\u{85}' || c == '\u{a0}' || c == '\u{1680}'
        || ('\u{2000}' <= c && c <= '\u{200a}') || c == '\u{2028}' || c == '\u{2029}' || c
        == '\u{202f}' || c == '\u{205f}' || c == '\u{3000}'
}

/// Whether `c` is Unicode white space (`char::is_whitespace`).
pub fn is_ws_char(c: char) -> (b: bool)
    ensures
        b == is_ws(c),
{
    ('\u{9}' <= c && c <= '\u{d}') || c == ' ' || c == '\u{85}' || c == '\u{a0}' || c == '\u{1680}'
        || ('\u{2000}' <= c && c <= '\u{200a}') || c == '\u{2028}' || c == '\u{2029}' || c
        == '\u{202f}' || c == '\u{205f}' || c == '\u{3000}'
}

/// Number of leading white-space characters.
pub open spec fn lead_ws(s: Seq<char>) -> nat
    decreases s.len(),
{
    if s.len() > 0 && is_ws(s[0]) {
        1 + lead_ws(s.drop_first())
    } else {
        0
    }
}

/// Number of trailing white-space characters.
pub open spec fn trail_ws(s: Seq<char>) -> nat
    decreases s.len(),
{
    if s.len() > 0 && is_ws(s.last()) {
        1 + trail_ws(s.drop_last())
    } else {
        0
    }
}

/// `str::trim`: without leading and trailing white space.
pub open spec fn trim(s: Seq<char>) -> Seq<char> {
    let a = lead_ws(s);
    if a == s.len() {
        Seq::empty()
    } else {
        s.subrange(a as int, s.len() - trail_ws(s))
    }
}

proof fn lemma_lead_ws(s: Seq<char>, i: int)
    requires
        0 <= i <= s.len(),
        forall|k: int| 0 <= k < i ==> is_ws(#[trigger] s[k]),
        i == s.len() || !is_ws(s[i]),
    ensures
        lead_ws(s) == i,
    decreases s.len(),
{
    if i > 0 {
        lemma_lead_ws(s.drop_first(), i - 1);
    }
}

proof fn lemma_trail_ws(s: Seq<char>, j: int)
    requires
        0 <= j <= s.len(),
        forall|k: int| j <= k < s.len() ==> is_ws(#[trigger] s[k]),
        j == 0 || !is_ws(s[j - 1]),
    ensures
        trail_ws(s) == s.len() - j,
    decreases s.len(),
{
    if j < s.len() {
        lemma_trail_ws(s.drop_last(), j);
    }
}

/// `s.trim()` as characters.
pub fn trim_chars(s: &Vec<char>) -> (r: Vec<char>)
    ensures
        r@ == trim(s@),
{
    let mut a: usize = 0;
    while a < s.len() && is_ws_char(s[a])
        invariant
            a <= s.len(),
            forall|k: int| 0 <= k < a ==> is_ws(#[trigger] s@[k]),
        decreases s.len() - a,
    {
        a = a + 1;
    }
    proof {
        lemma_lead_ws(s@, a as int);
    }
    if a == s.len() {
        return Vec::new();
    }
    let mut b: usize = s.len();
    while b > a && is_ws_char(s[b - 1])
        invariant
            a < s.len(),
            a <= b <= s.len(),
            !is_ws(s@[a as int]),
            forall|k: int| b <= k < s.len() ==> is_ws(#[trigger] s@[k]),
        decreases b,
    {
        b = b - 1;
    }
    proof {
        lemma_trail_ws(s@, b as int);
    }
    let mut r: Vec<char> = Vec::new();
    let mut k: usize = a;
    while k < b
        invariant
            a <= k <= b <= s.len(),
            r@ == s@.subrange(a as int, k as int),
        decreases b - k,
    {
        proof {
            assert(s@.subrange(a as int, k as int + 1) =~= s@.subrange(a as int, k as int).push(s@[k as int]));
        }
        r.push(s[k]);
        k = k + 1;
    }
    r
}

/// Whether a trimmed piece begins with a comment (`--` or `#`).
pub open spec fn starts_comment(t: Seq<char>) -> bool {
    (t.len() >= 2 && t[0] == '-' && t[1] == '-') || (t.len() >= 1 && t[0] == '#')
}

/// Leading white space is counted within the text, and stops at a
/// non-white character.
proof fn lemma_lead_bound(s: Seq<char>)
    ensures
        lead_ws(s) <= s.len(),
        lead_ws(s) < s.len() ==> !is_ws(s[lead_ws(s) as int]),
    decreases s.len(),
{
    if s.len() > 0 && is_ws(s[0]) {
        lemma_lead_bound(s.drop_first());
        if lead_ws(s) < s.len() {
            assert(s[lead_ws(s) as int] == s.drop_first()[lead_ws(s.drop_first()) as int]);
        }
    }
}

/// Trailing white space is counted within the text, and all of it is white.
proof fn lemma_trail_bound(s: Seq<char>)
    ensures
        trail_ws(s) <= s.len(),
        forall|k: int| s.len() - trail_ws(s) <= k < s.len() ==> is_ws(#[trigger] s[k]),
    decreases s.len(),
{
    if s.len() > 0 && is_ws(s.last()) {
        lemma_trail_bound(s.drop_last());
        assert forall|k: int| s.len() - trail_ws(s) <= k < s.len() implies is_ws(#[trigger] s[k]) by {
            if k < s.len() - 1 {
                assert(s[k] == s.drop_last()[k]);
            }
        }
    }
}

/// Trimming never lengthens a text.
pub proof fn lemma_trim_shorter(s: Seq<char>)
    ensures
        trim(s).len() <= s.len(),
{
    lemma_lead_bound(s);
    lemma_trail_bound(s);
    let a = lead_ws(s);
    if a < s.len() {
        if a >= s.len() - trail_ws(s) {
            assert(is_ws(s[a as int]));
        }
    }
}

/// The piece trimmed and without its leading comment lines: while it
/// begins with a comment, that line goes up to and including its line
/// break (a comment with no line break takes the rest).
pub open spec fn strip_comments(t: Seq<char>) -> Seq<char>
    decreases t.len(),
{
    let u = trim(t);
    if starts_comment(u) {
        let nl = first_index_of(u, '\n');
        if nl < 0 {
            Seq::empty()
        } else {
            proof {
                lemma_trim_shorter(t);
                lemma_first_index_of(u, '\n');
            }
            strip_comments(u.skip(nl + 1))
        }
    } else {
        u
    }
}

/// Whether a piece holds a statement: something is left once it is
/// trimmed and its leading comment lines are gone.
pub open spec fn keep_statement(s: Seq<char>) -> bool {
    strip_comments(s).len() > 0
}

/// The state of the statement splitter: finished statements, the current
/// piece, the quote of the string being read (if any), and whether the
/// next character is escaped.
pub struct SplitState {
    pub stmts: Seq<Seq<char>>,
    pub cur: Seq<char>,
    pub quote: Option<char>,
    pub escaped: bool,
}

/// Ends the current piece: what is left of it without leading comment
/// lines, trimmed, becomes a statement unless it is empty.
pub open spec fn finish_piece(stmts: Seq<Seq<char>>, cur: Seq<char>) -> Seq<Seq<char>> {
    if keep_statement(cur) {
        stmts.push(strip_comments(cur))
    } else {
        stmts
    }
}

/// One character through the splitter. Inside a string a backslash takes
/// the next character along unexamined and the opening quote ends it;
/// outside, a quote opens a string and `;` ends a statement.
pub open spec fn split_step(st: SplitState, c: char) -> SplitState {
    let cur = st.cur.push(c);
    if st.escaped {
        SplitState { stmts: st.stmts, cur, quote: st.quote, escaped: false }
    } else {
        match st.quote {
            Some(q) => if c == '\\' {
                SplitState { stmts: st.stmts, cur, quote: st.quote, escaped: true }
            } else if c == q {
                SplitState { stmts: st.stmts, cur, quote: None, escaped: false }
            } else {
                SplitState { stmts: st.stmts, cur, quote: st.quote, escaped: false }
            },
            None => if c == '\'' || c == '"' {
                SplitState { stmts: st.stmts, cur, quote: Some(c), escaped: false }
            } else if c == ';' {
                SplitState { stmts: finish_piece(st.stmts, cur), cur: Seq::empty(), quote: None, escaped: false }
            } else {
                SplitState { stmts: st.stmts, cur, quote: None, escaped: false }
            },
        }
    }
}

/// The splitter after reading `s`.
pub open spec fn split_scan(s: Seq<char>) -> SplitState
    decreases s.len(),
{
    if s.len() == 0 {
        SplitState { stmts: Seq::empty(), cur: Seq::empty(), quote: None, escaped: false }
    } else {
        split_step(split_scan(s.drop_last()), s.last())
    }
}

/// The statements of a SQL script: split at `;` outside quoted strings,
/// trimmed, with leading comment lines removed and empty pieces dropped.
pub open spec fn split_sql_spec(s: Seq<char>) -> Seq<Seq<char>> {
    let st = split_scan(s);
    finish_piece(st.stmts, st.cur)
}

proof fn lemma_scan_push(s: Seq<char>, c: char)
    ensures
        split_scan(s.push(c)) == split_step(split_scan(s), c),
{
    assert(s.push(c).drop_last() =~= s);
}

proof fn lemma_inside_quote(x: Seq<char>, q: char, b: Seq<char>, k: int)
    requires
        0 <= k <= b.len(),
        split_scan(x).quote == Some(q),
        !split_scan(x).escaped,
        forall|i: int| 0 <= i < b.len() ==> b[i] != q && b[i] != '\\',
    ensures
        split_scan(x + b.take(k)) == (SplitState {
            stmts: split_scan(x).stmts,
            cur: split_scan(x).cur + b.take(k),
            quote: Some(q),
            escaped: false,
        }),
    decreases k,
{
    if k == 0 {
        assert(x + b.take(0) =~= x);
        assert(split_scan(x).cur + b.take(0) =~= split_scan(x).cur);
    } else {
        lemma_inside_quote(x, q, b, k - 1);
        assert(x + b.take(k) =~= (x + b.take(k - 1)).push(b[k - 1]));
        lemma_scan_push(x + b.take(k - 1), b[k - 1]);
        assert(split_scan(x).cur + b.take(k) =~= (split_scan(x).cur + b.take(k - 1)).push(b[k - 1]));
    }
}

/// A quoted string is closed only by the quote character that opened it,
/// and nothing inside it ends a statement: after a text `a` that leaves no
/// string open, a string opened by `q` whose content `b` holds neither `q`
/// nor a backslash (it may hold `;` and the other quote) is read whole into
/// the current statement, and the statements finished before it stay as
/// they were; the script `a q b q` thus ends the statement it started as
/// one piece.
pub proof fn quoted_string_keeps_separators(a: Seq<char>, q: char, b: Seq<char>)
    requires
        q == '\'' || q == '"',
        split_scan(a).quote is None,
        !split_scan(a).escaped,
        forall|i: int| 0 <= i < b.len() ==> b[i] != q && b[i] != '\\',
    ensures
        split_scan(a + seq![q] + b + seq![q]) == (SplitState {
            stmts: split_scan(a).stmts,
            cur: split_scan(a).cur + seq![q] + b + seq![q],
            quote: None,
            escaped: false,
        }),
        split_sql_spec(a + seq![q] + b + seq![q]) == finish_piece(
            split_scan(a).stmts,
            split_scan(a).cur + seq![q] + b + seq![q],
        ),
{
    let x = a + seq![q];
    assert(x =~= a.push(q));
    lemma_scan_push(a, q);
    lemma_inside_quote(x, q, b, b.len() as int);
    assert(b.take(b.len() as int) =~= b);
    assert(a + seq![q] + b + seq![q] =~= (x + b).push(q));
    lemma_scan_push(x + b, q);
    assert(split_scan(x).cur + b =~= split_scan(a).cur + seq![q] + b);
    assert((split_scan(a).cur + seq![q] + b).push(q) =~= split_scan(a).cur + seq![q] + b + seq![q]);
}

proof fn lemma_trail_stop(s: Seq<char>)
    ensures
        trail_ws(s) < s.len() ==> !is_ws(s[s.len() - trail_ws(s) - 1]),
    decreases s.len(),
{
    if s.len() > 0 && is_ws(s.last()) {
        lemma_trail_stop(s.drop_last());
        if trail_ws(s) < s.len() {
            assert(s[s.len() - trail_ws(s) - 1] == s.drop_last()[s.drop_last().len() - trail_ws(s.drop_last()) - 1]);
        }
    }
}

/// What a statement looks like: not empty, no white space at either end,
/// and no leading comment.
pub open spec fn statement_shape(t: Seq<char>) -> bool {
    t.len() > 0 && !is_ws(t[0]) && !is_ws(t.last()) && !starts_comment(t)
}

proof fn lemma_trim_edges(s: Seq<char>)
    ensures
        trim(s).len() > 0 ==> !is_ws(trim(s)[0]) && !is_ws(trim(s).last()),
{
    lemma_lead_bound(s);
    lemma_trail_bound(s);
    lemma_trail_stop(s);
    let a = lead_ws(s);
    if a < s.len() {
        if a >= s.len() - trail_ws(s) {
            assert(is_ws(s[a as int]));
        }
        assert(trim(s)[0] == s[a as int]);
        assert(trim(s).last() == s[s.len() - trail_ws(s) - 1]);
    }
}

proof fn lemma_strip_shape(t: Seq<char>)
    ensures
        strip_comments(t).len() > 0 ==> statement_shape(strip_comments(t)),
    decreases t.len(),
{
    let u = trim(t);
    lemma_trim_edges(t);
    if starts_comment(u) {
        let nl = first_index_of(u, '\n');
        if nl >= 0 {
            lemma_trim_shorter(t);
            lemma_first_index_of(u, '\n');
            lemma_strip_shape(u.skip(nl + 1));
        }
    }
}

proof fn lemma_scan_shape(s: Seq<char>)
    ensures
        forall|i: int| 0 <= i < split_scan(s).stmts.len() ==> statement_shape(#[trigger] split_scan(s).stmts[i]),
    decreases s.len(),
{
    if s.len() > 0 {
        let p = split_scan(s.drop_last());
        lemma_scan_shape(s.drop_last());
        let cur = p.cur.push(s.last());
        lemma_strip_shape(cur);
        let st = split_scan(s);
        assert forall|i: int| 0 <= i < st.stmts.len() implies statement_shape(#[trigger] st.stmts[i]) by {
            if i < p.stmts.len() {
                assert(st.stmts[i] == p.stmts[i]);
            } else {
                assert(st.stmts[i] == strip_comments(cur));
            }
        }
    }
}

/// Every statement the splitter returns is a real statement: not empty,
/// without white space at either end, and not starting with a comment.
pub proof fn statements_are_trimmed(s: Seq<char>)
    ensures
        forall|i: int| 0 <= i < split_sql_spec(s).len() ==> statement_shape(#[trigger] split_sql_spec(s)[i]),
{
    lemma_scan_shape(s);
    let st = split_scan(s);
    lemma_strip_shape(st.cur);
    assert forall|i: int| 0 <= i < split_sql_spec(s).len() implies statement_shape(#[trigger] split_sql_spec(s)[i]) by {
        if i < st.stmts.len() {
            assert(split_sql_spec(s)[i] == st.stmts[i]);
        }
    }
}

proof fn lemma_plain_text(a: Seq<char>, p: Seq<char>, k: int)
    requires
        0 <= k <= p.len(),
        split_scan(a).quote is None,
        !split_scan(a).escaped,
        forall|i: int| 0 <= i < p.len() ==> p[i] != '\'' && p[i] != '"' && p[i] != ';',
    ensures
        split_scan(a + p.take(k)) == (SplitState {
            stmts: split_scan(a).stmts,
            cur: split_scan(a).cur + p.take(k),
            quote: None,
            escaped: false,
        }),
    decreases k,
{
    if k == 0 {
        assert(a + p.take(0) =~= a);
        assert(split_scan(a).cur + p.take(0) =~= split_scan(a).cur);
    } else {
        lemma_plain_text(a, p, k - 1);
        assert(a + p.take(k) =~= (a + p.take(k - 1)).push(p[k - 1]));
        lemma_scan_push(a + p.take(k - 1), p[k - 1]);
        assert(split_scan(a).cur + p.take(k) =~= (split_scan(a).cur + p.take(k - 1)).push(p[k - 1]));
    }
}

/// Outside strings, `;` and only `;` ends a statement: after a text `a`
/// that leaves no string open, text `p` without quotes or `;` only extends
/// the current piece, and a following `;` ends it, the piece (with the
/// `;`) becoming the next statement unless nothing but comments is left of
/// it, and a new piece starts empty.
pub proof fn semicolon_ends_statement(a: Seq<char>, p: Seq<char>)
    requires
        split_scan(a).quote is None,
        !split_scan(a).escaped,
        forall|i: int| 0 <= i < p.len() ==> p[i] != '\'' && p[i] != '"' && p[i] != ';',
    ensures
        split_scan(a + p) == (SplitState {
            stmts: split_scan(a).stmts,
            cur: split_scan(a).cur + p,
            quote: None,
            escaped: false,
        }),
        split_scan(a + p + seq![';']) == (SplitState {
            stmts: finish_piece(split_scan(a).stmts, split_scan(a).cur + p + seq![';']),
            cur: Seq::empty(),
            quote: None,
            escaped: false,
        }),
{
    lemma_plain_text(a, p, p.len() as int);
    assert(p.take(p.len() as int) =~= p);
    assert(a + p + seq![';'] =~= (a + p).push(';'));
    lemma_scan_push(a + p, ';');
    assert((split_scan(a).cur + p).push(';') =~= split_scan(a).cur + p + seq![';']);
}

/// Inside a string a backslash escapes the next character, whatever it is
/// (the closing quote too): the string stays open.
pub proof fn backslash_escapes_in_string(a: Seq<char>, c: char)
    requires
        split_scan(a).quote is Some,
        !split_scan(a).escaped,
    ensures
        split_scan(a + seq!['\\', c]) == (SplitState {
            stmts: split_scan(a).stmts,
            cur: split_scan(a).cur + seq!['\\', c],
            quote: split_scan(a).quote,
            escaped: false,
        }),
{
    assert(a + seq!['\\', c] =~= a.push('\\').push(c));
    lemma_scan_push(a, '\\');
    lemma_scan_push(a.push('\\'), c);
    assert(split_scan(a).cur.push('\\').push(c) =~= split_scan(a).cur + seq!['\\', c]);
}

/// A finished piece that is not a comment becomes one statement, its text
/// trimmed; a piece of white space only adds none.
pub proof fn piece_becomes_trimmed_statement(stmts: Seq<Seq<char>>, cur: Seq<char>)
    ensures
        trim(cur).len() > 0 && !starts_comment(trim(cur)) ==> finish_piece(stmts, cur) == stmts.push(trim(cur)),
        trim(cur).len() == 0 ==> finish_piece(stmts, cur) == stmts,
{
}

/// Splits a SQL script into statements (see `split_sql_spec`).
pub fn split_sql(sql: &str) -> (r: Vec<String>)
    ensures
        r@.map_values(|x: String| x@) == split_sql_spec(sql@),
{
    let s = chars_of(sql);
    let mut stmts: Vec<String> = Vec::new();
    let mut cur: Vec<char> = Vec::new();
    let mut quote: Option<char> = None;
    let mut escaped = false;
    let mut i: usize = 0;
    proof {
        assert(s@.take(0) =~= Seq::<char>::empty());
        assert(stmts@.map_values(|x: String| x@) =~= Seq::<Seq<char>>::empty());
    }
    while i < s.len()
        invariant
            i <= s.len(),
            s@ == sql@,
            ({
                let st = split_scan(s@.take(i as int));
                &&& stmts@.map_values(|x: String| x@) == st.stmts
                &&& cur@ == st.cur
                &&& quote == st.quote
                &&& escaped == st.escaped
            }),
        decreases s.len() - i,
    {
        let c = s[i];
        proof {
            assert(s@.take(i as int + 1).drop_last() =~= s@.take(i as int));
            assert(s@.take(i as int + 1).last() == c);
        }
        let ghost old_stmts = stmts@;
        cur.push(c);
        if escaped {
            escaped = false;
        } else {
            match quote {
                Some(q) => {
                    if c == '\\' {
                        escaped = true;
                    } else if c == q {
                        quote = None;
                    }
                },
                None => {
                    if c == '\'' || c == '"' {
                        quote = Some(c);
                    } else if c == ';' {
                        let t = strip_comment_lines(&cur);
                        if t.len() > 0 {
                            stmts.push(string_from_chars(t.as_slice()));
                            proof {
                                assert(stmts@.map_values(|x: String| x@) =~= old_stmts.map_values(|x: String| x@).push(t@));
                            }
                        }
                        cur = Vec::new();
                    }
                },
            }
        }
        i = i + 1;
    }
    proof {
        assert(s@.take(s.len() as int) =~= s@);
    }
    let ghost old_stmts = stmts@;
    let t = strip_comment_lines(&cur);
    if t.len() > 0 {
        stmts.push(string_from_chars(t.as_slice()));
        proof {
            assert(stmts@.map_values(|x: String| x@) =~= old_stmts.map_values(|x: String| x@).push(t@));
        }
    }
    stmts
}

/// A piece trimmed and without its leading comment lines (see
/// `strip_comments`).
fn strip_comment_lines(cur: &Vec<char>) -> (r: Vec<char>)
    ensures
        r@ == strip_comments(cur@),
{
    let mut t = trim_chars(cur);
    let ghost mut src = cur@;
    loop
        invariant
            t@ == trim(src),
            strip_comments(cur@) == strip_comments(src),
        decreases t.len(),
    {
        let comment = (t.len() >= 2 && t[0] == '-' && t[1] == '-') || (t.len() >= 1 && t[0] == '#');
        if !comment {
            return t;
        }
        let mut nl: usize = 0;
        while nl < t.len() && t[nl] != '\n'
            invariant
                nl <= t.len(),
                forall|k: int| 0 <= k < nl ==> t@[k] != '\n',
            decreases t.len() - nl,
        {
            nl = nl + 1;
        }
        proof {
            lemma_first_index_of(t@, '\n');
        }
        if nl == t.len() {
            proof {
                assert(!t@.contains('\n'));
            }
            return Vec::new();
        }
        proof {
            lemma_first_index_at(t@, '\n', nl as int);
        }
        let mut rest: Vec<char> = Vec::new();
        let mut k: usize = nl + 1;
        while k < t.len()
            invariant
                nl < k <= t.len(),
                rest@ == t@.subrange(nl as int + 1, k as int),
            decreases t.len() - k,
        {
            proof {
                assert(t@.subrange(nl as int + 1, k as int + 1) =~= t@.subrange(nl as int + 1, k as int).push(t@[k as int]));
            }
            rest.push(t[k]);
            k = k + 1;
        }
        proof {
            assert(rest@ =~= t@.skip(nl as int + 1));
            lemma_trim_shorter(rest@);
            src = rest@;
        }
        t = trim_chars(&rest);
    }
}


/// `s` with every `c` doubled (how SQL escapes a quote inside quotes).
pub open spec fn double_char(s: Seq<char>, c: char) -> Seq<char>
    decreases s.len(),
{
    if s.len() == 0 {
        s
    } else if s.last() == c {
        double_char(s.drop_last(), c) + seq![c, c]
    } else {
        double_char(s.drop_last(), c).push(s.last())
    }
}

/// `s.replace(c, "cc")`.
fn double_occurrences(s: &str, c: char) -> (r: String)
    ensures
        r@ == double_char(s@, c),
{
    let v = chars_of(s);
    let mut out: Vec<char> = Vec::new();
    let mut i: usize = 0;
    proof {
        assert(v@.take(0) =~= Seq::<char>::empty());
    }
    while i < v.len()
        invariant
            i <= v.len(),
            v@ == s@,
            out@ == double_char(v@.take(i as int), c),
        decreases v.len() - i,
    {
        proof {
            assert(v@.take(i as int + 1).drop_last() =~= v@.take(i as int));
            assert(v@.take(i as int + 1).last() == v@[i as int]);
        }
        if v[i] == c {
            let ghost before = out@;
            out.push(c);
            out.push(c);
            proof {
                assert(out@ =~= before + seq![c, c]);
            }
        } else {
            out.push(v[i]);
        }
        i = i + 1;
    }
    proof {
        assert(v@.take(v.len() as int) =~= v@);
    }
    string_from_chars(out.as_slice())
}

/// Escapes single quotes for a SQL string literal.
pub fn escape_sql_str(s: &str) -> (r: String)
    ensures
        r@ == double_char(s@, '\''),
{
    double_occurrences(s, '\'')
}

/// Escapes double quotes for a quoted SQL identifier.
pub fn quote_ident_body(s: &str) -> (r: String)
    ensures
        r@ == double_char(s@, '"'),
{
    double_occurrences(s, '"')
}

/// The statement that creates the schema-version table (the name is used
/// as given).
pub open spec fn create_version_table_text(table: Seq<char>) -> Seq<char> {
    "CREATE TABLE IF NOT EXISTS \""@ + table + CREATE_TABLE_TAIL@
}

/// The column list of the schema-version table.
pub const CREATE_TABLE_TAIL: &'static str = "\" (\n            version     BIGINT PRIMARY KEY,\n            name        TEXT    NOT NULL,\n            applied_at  TEXT    NOT NULL,\n            checksum    TEXT\n        )";

/// The statement that creates the schema-version table.
pub fn create_version_table_sql(table: &str) -> (r: String)
    ensures
        r@ == create_version_table_text(table@),
{
    let a = concat_str("CREATE TABLE IF NOT EXISTS \"", table);
    let r = concat_str(a.as_str(), CREATE_TABLE_TAIL);
    proof {
        assert(r@ =~= create_version_table_text(table@));
    }
    r
}

/// The query that lists applied versions.
pub open spec fn fetch_versions_text(table: Seq<char>) -> Seq<char> {
    "SELECT version, name, applied_at FROM \""@ + double_char(table, '"') + "\" ORDER BY version"@
}

/// The query that lists applied versions, oldest first.
pub fn fetch_version_records_sql(table: &str) -> (r: String)
    ensures
        r@ == fetch_versions_text(table@),
{
    let q = quote_ident_body(table);
    let a = concat_str("SELECT version, name, applied_at FROM \"", q.as_str());
    let r = concat_str(a.as_str(), "\" ORDER BY version");
    proof {
        assert(r@ =~= fetch_versions_text(table@));
    }
    r
}

/// The statement that records an applied migration (or updates its row).
pub open spec fn insert_version_text(
    table: Seq<char>,
    version: i64,
    name: Seq<char>,
    applied_at: Seq<char>,
    checksum: Seq<char>,
) -> Seq<char> {
    "INSERT INTO \""@ + double_char(table, '"') + "\" (version, name, applied_at, checksum) VALUES ("@
        + dec_signed(version as int) + ", '"@ + double_char(name, '\'') + "', '"@ + double_char(
        applied_at,
        '\'',
    ) + "', '"@ + double_char(checksum, '\'') + INSERT_TAIL@
}

/// The end of the statement that records an applied migration.
pub const INSERT_TAIL: &'static str = "') ON CONFLICT (version) DO UPDATE SET name = EXCLUDED.name, applied_at = EXCLUDED.applied_at, checksum = EXCLUDED.checksum";

/// The statement that records an applied migration.
pub fn insert_version_record_sql(
    table: &str,
    version: i64,
    name: &str,
    applied_at: &str,
    checksum: &str,
) -> (r: String)
    ensures
        r@ == insert_version_text(table@, version, name@, applied_at@, checksum@),
{
    let t = quote_ident_body(table);
    let v = format_i64(version);
    let n = escape_sql_str(name);
    let a = escape_sql_str(applied_at);
    let c = escape_sql_str(checksum);
    let s1 = concat_str("INSERT INTO \"", t.as_str());
    let s2 = concat_str(s1.as_str(), "\" (version, name, applied_at, checksum) VALUES (");
    let s3 = concat_str(s2.as_str(), v.as_str());
    let s4 = concat_str(s3.as_str(), ", '");
    let s5 = concat_str(s4.as_str(), n.as_str());
    let s6 = concat_str(s5.as_str(), "', '");
    let s7 = concat_str(s6.as_str(), a.as_str());
    let s8 = concat_str(s7.as_str(), "', '");
    let s9 = concat_str(s8.as_str(), c.as_str());
    let r = concat_str(s9.as_str(), INSERT_TAIL);
    proof {
        assert(r@ =~= insert_version_text(table@, version, name@, applied_at@, checksum@));
    }
    r
}

/// The statement that forgets an applied migration.
pub open spec fn delete_version_text(table: Seq<char>, version: i64) -> Seq<char> {
    "DELETE FROM \""@ + double_char(table, '"') + "\" WHERE version = "@ + dec_signed(version as int)
}

/// The statement that forgets an applied migration.
pub fn delete_version_record_sql(table: &str, version: i64) -> (r: String)
    ensures
        r@ == delete_version_text(table@, version),
{
    let t = quote_ident_body(table);
    let v = format_i64(version);
    let a = concat_str("DELETE FROM \"", t.as_str());
    let b = concat_str(a.as_str(), "\" WHERE version = ");
    let r = concat_str(b.as_str(), v.as_str());
    proof {
        assert(r@ =~= delete_version_text(table@, version));
    }
    r
}

/// The name of the down script that belongs to the up script `up`: its
/// `.up.sql` ending replaced by `.down.sql` (none without that ending).
pub open spec fn down_name_spec(up: Seq<char>) -> Option<Seq<char>> {
    if up.len() >= 7 && up.skip(up.len() - 7) == ".up.sql"@ {
        Some(up.take(up.len() - 7) + ".down.sql"@)
    } else {
        None
    }
}

/// The name of the down script that belongs to the up script `up`.
pub fn down_script_name(up: &str) -> (r: Option<String>)
    ensures
        match r {
            Some(d) => down_name_spec(up@) == Some(d@),
            None => down_name_spec(up@) is None,
        },
{
    proof {
        reveal_strlit(".up.sql");
    }
    let cs = chars_of(up);
    let n = cs.len();
    if n < 7 {
        return None;
    }
    let tail = ['.', 'u', 'p', '.', 's', 'q', 'l'];
    let mut i: usize = 0;
    while i < 7
        invariant
            n == cs.len(),
            n >= 7,
            cs@ == up@,
            i <= 7,
            tail@ == ".up.sql"@,
            forall|k: int| 0 <= k < i ==> cs@[n - 7 + k] == tail@[k],
        decreases 7 - i,
    {
        if cs[n - 7 + i] != tail[i] {
            proof {
                assert(up@.skip(n - 7)[i as int] != (".up.sql"@)[i as int]);
            }
            return None;
        }
        i = i + 1;
    }
    proof {
        assert(up@.skip(n - 7) =~= ".up.sql"@);
    }
    let mut stem: Vec<char> = Vec::new();
    let mut j: usize = 0;
    while j < n - 7
        invariant
            n == cs.len(),
            n >= 7,
            j <= n - 7,
            stem@ == cs@.take(j as int),
        decreases n - 7 - j,
    {
        proof {
            assert(cs@.take(j as int + 1) =~= cs@.take(j as int).push(cs@[j as int]));
        }
        stem.push(cs[j]);
        j = j + 1;
    }
    let st = string_from_chars(stem.as_slice());
    let r = concat_str(st.as_str(), ".down.sql");
    proof {
        assert(r@ =~= up@.take(n - 7) + ".down.sql"@);
    }
    Some(r)
}

/// Index of the last occurrence of `c`, or -1.
pub open spec fn last_index(s: Seq<char>, c: char) -> int
    decreases s.len(),
{
    if s.len() == 0 {
        -1
    } else if s.last() == c {
        s.len() - 1
    } else {
        last_index(s.drop_last(), c)
    }
}

/// What a migration script's file name says: for `<version>_<name>.up.sql`
/// the version and the name; nothing for other names. The part before the
/// last `.` of the name without `.sql` is split at its first `_`.
pub open spec fn parse_filename_spec(f: Seq<char>) -> Option<(i64, Seq<char>)> {
    if f.len() >= 4 && f.skip(f.len() - 4) == ".sql"@ {
        let stem = f.take(f.len() - 4);
        let k = last_index(stem, '.');
        if k < 0 || stem.skip(k + 1) != "up"@ {
            None
        } else {
            let prefix = stem.take(k);
            let j = crate::text::first_index_of(prefix, '_');
            if j < 0 {
                None
            } else {
                match parse_i64_spec(prefix.take(j)) {
                    Some(v) => Some((v, prefix.skip(j + 1))),
                    None => None,
                }
            }
        }
    } else {
        None
    }
}

/// The version and name of an `.up.sql` migration script.
#[verifier::rlimit(30)]
pub fn parse_filename(fname: &str) -> (r: Option<(i64, String)>)
    ensures
        match r {
            Some((v, n)) => parse_filename_spec(fname@) == Some((v, n@)),
            None => parse_filename_spec(fname@) is None,
        },
{
    let f = chars_of(fname);
    let n = f.len();
    if n < 4 {
        return None;
    }
    let tail = string_from_chars(vstd::slice::slice_subrange(f.as_slice(), n - 4, n));
    proof {
        assert(tail@ =~= fname@.skip(n - 4));
    }
    if !str_eq(tail.as_str(), ".sql") {
        return None;
    }
    let m = n - 4;
    let ghost stem = fname@.take(m as int);
    let mut k: usize = m;
    proof {
        assert(stem.take(m as int) =~= stem);
    }
    while k > 0 && f[k - 1] != '.'
        invariant
            k <= m,
            m == n - 4,
            n == f.len(),
            f@ == fname@,
            stem == fname@.take(m as int),
            last_index(stem, '.') == last_index(stem.take(k as int), '.'),
        decreases k,
    {
        proof {
            assert(stem.take(k as int).drop_last() =~= stem.take(k as int - 1));
        }
        k = k - 1;
    }
    if k == 0 {
        proof {
            assert(stem.take(0) =~= Seq::<char>::empty());
        }
        return None;
    }
    let dot = k - 1;
    proof {
        assert(stem.take(k as int).last() == '.');
        assert(last_index(stem, '.') == dot);
    }
    let ext = string_from_chars(vstd::slice::slice_subrange(f.as_slice(), dot + 1, m));
    proof {
        assert(ext@ =~= stem.skip(dot as int + 1));
    }
    if !str_eq(ext.as_str(), "up") {
        return None;
    }
    let ghost prefix = stem.take(dot as int);
    let mut j: usize = 0;
    while j < dot && f[j] != '_'
        invariant
            j <= dot,
            dot < m,
            m == n - 4,
            n == f.len(),
            f@ == fname@,
            prefix == fname@.take(dot as int),
            forall|q: int| 0 <= q < j ==> prefix[q] != '_',
        decreases dot - j,
    {
        j = j + 1;
    }
    proof {
        assert(prefix =~= fname@.take(dot as int));
    }
    if j == dot {
        proof {
            crate::text::lemma_first_index_of(prefix, '_');
            if prefix.contains('_') {
                let q = choose|q: int| 0 <= q < prefix.len() && prefix[q] == '_';
                assert(prefix[q] != '_');
            }
        }
        return None;
    }
    proof {
        assert(prefix[j as int] == '_');
        crate::text::lemma_first_index_at(prefix, '_', j as int);
    }
    let ver = string_from_chars(vstd::slice::slice_subrange(f.as_slice(), 0, j));
    let name = string_from_chars(vstd::slice::slice_subrange(f.as_slice(), j + 1, dot));
    proof {
        assert(ver@ =~= prefix.take(j as int));
        assert(name@ =~= prefix.skip(j as int + 1));
    }
    match parse_i64(ver.as_str()) {
        Some(v) => Some((v, name)),
        None => None,
    }
}

} // verus!
