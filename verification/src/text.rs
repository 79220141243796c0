//! Character-level text helpers: splitting, ordering, searching.

use vstd::prelude::*;

verus! {

broadcast use vstd::string::group_string_axioms;

/// The characters of a string slice.
pub fn chars_of(s: &str) -> (out: Vec<char>)
    ensures
        out@ == s@,
{
    let mut out: Vec<char> = Vec::new();
    for c in it: s.chars()
        invariant
            it.seq() == s@,
            out@ == it.seq().take(it.index() as int),
    {
        proof {
            assert(it.seq().take(it.index() as int + 1) =~= out@.push(c));
        }
        out.push(c);
    }
    proof {
        assert(out@ =~= s@);
    }
    out
}

/// Builds a `String` from characters (`Iterator::collect`).
#[verifier::external_body]
pub(crate) fn string_from_chars(v: &[char]) -> (s: String)
    ensures
        s@ == v@,
{
    v.iter().collect()
}

/// Lexicographic order of character sequences by code point.
pub open spec fn lex_lt(a: Seq<char>, b: Seq<char>) -> bool
    decreases a.len(),
{
    if a.len() == 0 {
        b.len() > 0
    } else if b.len() == 0 {
        false
    } else if a[0] != b[0] {
        a[0] < b[0]
    } else {
        lex_lt(a.drop_first(), b.drop_first())
    }
}

/// Whether `a` sorts strictly before `b`, comparing code points from the
/// left (the order of `str`, since UTF-8 preserves code-point order).
pub fn text_lt(a: &str, b: &str) -> (r: bool)
    ensures
        r == lex_lt(a@, b@),
{
    let av = chars_of(a);
    let bv = chars_of(b);
    let mut i: usize = 0;
    proof {
        assert(av@.skip(0) =~= av@);
        assert(bv@.skip(0) =~= bv@);
        assert(av@.take(0) =~= bv@.take(0));
    }
    while i < av.len() && i < bv.len()
        invariant
            i <= av.len(),
            i <= bv.len(),
            av@ == a@,
            bv@ == b@,
            av@.take(i as int) == bv@.take(i as int),
            lex_lt(a@, b@) == lex_lt(av@.skip(i as int), bv@.skip(i as int)),
        decreases av.len() - i,
    {
        let x = av[i];
        let y = bv[i];
        if x != y {
            proof {
                assert(av@.skip(i as int)[0] == x);
                assert(bv@.skip(i as int)[0] == y);
            }
            return x < y;
        }
        proof {
            assert(av@.skip(i as int).drop_first() =~= av@.skip(i as int + 1));
            assert(bv@.skip(i as int).drop_first() =~= bv@.skip(i as int + 1));
            assert(av@.take(i as int + 1) =~= av@.take(i as int).push(x));
            assert(bv@.take(i as int + 1) =~= bv@.take(i as int).push(y));
        }
        i = i + 1;
    }
    i < bv.len()
}

/// Lexicographic order is a strict total order.
pub proof fn lemma_lex_lt_total(a: Seq<char>, b: Seq<char>)
    ensures
        !lex_lt(a, a),
        lex_lt(a, b) ==> !lex_lt(b, a),
        a != b ==> (lex_lt(a, b) || lex_lt(b, a)),
    decreases a.len(),
{
    if a.len() > 0 && b.len() > 0 && a[0] == b[0] {
        lemma_lex_lt_total(a.drop_first(), b.drop_first());
        if a != b {
            assert(a =~= seq![a[0]] + a.drop_first());
            assert(b =~= seq![b[0]] + b.drop_first());
        }
    } else if a.len() > 0 {
        lemma_lex_lt_total(a.drop_first(), a.drop_first());
        if b.len() > 0 {
            assert(a[0] < b[0] || b[0] < a[0]);
        }
    }
    if a.len() == 0 && b.len() == 0 {
        assert(a =~= b);
    }
}

/// Lexicographic order is transitive.
pub proof fn lemma_lex_lt_trans(a: Seq<char>, b: Seq<char>, c: Seq<char>)
    requires
        lex_lt(a, b),
        lex_lt(b, c),
    ensures
        lex_lt(a, c),
    decreases a.len(),
{
    if a.len() > 0 && b.len() > 0 && c.len() > 0 && a[0] == b[0] && b[0] == c[0] {
        lemma_lex_lt_trans(a.drop_first(), b.drop_first(), c.drop_first());
    }
}


/// Whether two string slices hold the same characters.
pub fn str_eq(a: &str, b: &str) -> (r: bool)
    ensures
        r == (a@ == b@),
{
    let av = chars_of(a);
    let bv = chars_of(b);
    if av.len() != bv.len() {
        return false;
    }
    let mut i: usize = 0;
    while i < av.len()
        invariant
            i <= av.len(),
            av.len() == bv.len(),
            av@ == a@,
            bv@ == b@,
            forall|k: int| 0 <= k < i ==> av@[k] == bv@[k],
        decreases av.len() - i,
    {
        if av[i] != bv[i] {
            return false;
        }
        i = i + 1;
    }
    proof {
        assert(av@ =~= bv@);
    }
    true
}

/// Whether `v` holds the character `c`.
pub fn has_char(v: &Vec<char>, c: char) -> (r: bool)
    ensures
        r == v@.contains(c),
{
    let mut i: usize = 0;
    while i < v.len()
        invariant
            i <= v.len(),
            forall|k: int| 0 <= k < i ==> v@[k] != c,
        decreases v.len() - i,
    {
        if v[i] == c {
            proof {
                assert(v@[i as int] == c);
            }
            return true;
        }
        i = i + 1;
    }
    false
}

/// Whether a string consists of exactly the one character `c`.
pub fn is_single_char(s: &str, c: char) -> (r: bool)
    ensures
        r == (s@ == seq![c]),
{
    let v = chars_of(s);
    if v.len() == 1 && v[0] == c {
        proof {
            assert(v@ =~= seq![c]);
        }
        true
    } else {
        false
    }
}

/// The concatenation of two string slices.
pub fn concat_str(a: &str, b: &str) -> (r: String)
    ensures
        r@ == a@ + b@,
{
    let mut v = chars_of(a);
    let w = chars_of(b);
    let mut i: usize = 0;
    while i < w.len()
        invariant
            i <= w.len(),
            w@ == b@,
            v@ == a@ + b@.take(i as int),
        decreases w.len() - i,
    {
        proof {
            assert(a@ + b@.take(i as int + 1) =~= (a@ + b@.take(i as int)).push(w@[i as int]));
        }
        v.push(w[i]);
        i = i + 1;
    }
    proof {
        assert(b@.take(w.len() as int) =~= b@);
    }
    string_from_chars(v.as_slice())
}

/// Index of the first occurrence of `c` in `s`, or -1 when there is none.
pub open spec fn first_index_of(s: Seq<char>, c: char) -> int
    decreases s.len(),
{
    if s.len() == 0 {
        -1
    } else if s[0] == c {
        0
    } else {
        let r = first_index_of(s.drop_first(), c);
        if r < 0 {
            -1
        } else {
            r + 1
        }
    }
}

/// `first_index_of` finds the first occurrence, and -1 means there is none.
pub proof fn lemma_first_index_of(s: Seq<char>, c: char)
    ensures
        first_index_of(s, c) == -1 <==> !s.contains(c),
        first_index_of(s, c) >= -1,
        first_index_of(s, c) >= 0 ==> {
            &&& first_index_of(s, c) < s.len()
            &&& s[first_index_of(s, c)] == c
            &&& forall|k: int| 0 <= k < first_index_of(s, c) ==> s[k] != c
        },
    decreases s.len(),
{
    if s.len() > 0 && s[0] != c {
        lemma_first_index_of(s.drop_first(), c);
        let r = first_index_of(s.drop_first(), c);
        if s.contains(c) {
            let j = choose|j: int| 0 <= j < s.len() && s[j] == c;
            assert(s.drop_first()[j - 1] == c);
        }
        if r >= 0 {
            assert forall|k: int| 0 <= k < r + 1 implies s[k] != c by {
                if k > 0 {
                    assert(s[k] == s.drop_first()[k - 1]);
                }
            }
            assert(s.contains(c)) by {
                assert(s[r + 1] == c);
            }
        } else {
            assert forall|k: int| 0 <= k < s.len() implies s[k] != c by {
                if k > 0 {
                    assert(s[k] == s.drop_first()[k - 1]);
                }
            }
        }
    } else if s.len() > 0 {
        assert(s.contains(c)) by {
            assert(s[0] == c);
        }
    }
}

/// A position that holds `c`, with no `c` before it, is the first index of `c`.
pub proof fn lemma_first_index_at(s: Seq<char>, c: char, i: int)
    requires
        0 <= i < s.len(),
        s[i] == c,
        forall|k: int| 0 <= k < i ==> s[k] != c,
    ensures
        first_index_of(s, c) == i,
{
    lemma_first_index_of(s, c);
    assert(s.contains(c));
    let r = first_index_of(s, c);
    if r < i {
        assert(s[r] == c);
    } else if r > i {
        assert(s[i] != c);
    }
}

/// The pieces of `s` between occurrences of `sep`, as `str::split` gives
/// them: one more piece than there are separators, empty pieces included.
pub open spec fn split_on(s: Seq<char>, sep: char) -> Seq<Seq<char>>
    decreases s.len(),
{
    if s.len() == 0 {
        seq![Seq::empty()]
    } else {
        let prev = split_on(s.drop_last(), sep);
        if s.last() == sep {
            prev.push(Seq::empty())
        } else {
            prev.update(prev.len() - 1, prev.last().push(s.last()))
        }
    }
}

/// Splitting always yields at least one piece.
pub proof fn lemma_split_nonempty(s: Seq<char>, sep: char)
    ensures
        split_on(s, sep).len() >= 1,
    decreases s.len(),
{
    if s.len() > 0 {
        lemma_split_nonempty(s.drop_last(), sep);
    }
}

/// The character views of a list of character vectors.
pub open spec fn char_vec_views(v: Seq<Vec<char>>) -> Seq<Seq<char>> {
    v.map_values(|x: Vec<char>| x@)
}

/// The character views of a list of strings.
pub open spec fn string_views(v: Seq<String>) -> Seq<Seq<char>> {
    v.map_values(|x: String| x@)
}

/// The character views of a list of string slices.
pub open spec fn str_views(v: Seq<&str>) -> Seq<Seq<char>> {
    v.map_values(|x: &str| x@)
}

/// Splits characters at every `sep` (`str::split`).
pub fn split_chars(s: &Vec<char>, sep: char) -> (out: Vec<Vec<char>>)
    ensures
        char_vec_views(out@) == split_on(s@, sep),
{
    let mut done: Vec<Vec<char>> = Vec::new();
    let mut cur: Vec<char> = Vec::new();
    let mut i: usize = 0;
    proof {
        assert(s@.take(0) =~= Seq::<char>::empty());
        assert(char_vec_views(done@).push(cur@) =~= split_on(s@.take(0), sep));
    }
    while i < s.len()
        invariant
            i <= s.len(),
            char_vec_views(done@).push(cur@) == split_on(s@.take(i as int), sep),
        decreases s.len() - i,
    {
        let c = s[i];
        let ghost t1 = s@.take(i as int + 1);
        proof {
            assert(t1.drop_last() =~= s@.take(i as int));
            assert(t1.last() == c);
            lemma_split_nonempty(s@.take(i as int), sep);
        }
        if c == sep {
            let finished = cur;
            done.push(finished);
            cur = Vec::new();
            proof {
                assert(char_vec_views(done@).push(cur@) =~= split_on(s@.take(i as int), sep).push(
                    Seq::empty(),
                ));
            }
        } else {
            let ghost before = cur@;
            cur.push(c);
            proof {
                let p = split_on(s@.take(i as int), sep);
                assert(p.last() == before);
                assert(char_vec_views(done@).push(cur@) =~= p.update(p.len() - 1, p.last().push(c)));
            }
        }
        i = i + 1;
    }
    proof {
        assert(s@.take(s.len() as int) =~= s@);
    }
    done.push(cur);
    proof {
        assert(char_vec_views(done@) =~= split_on(s@, sep));
    }
    done
}

/// Splits a string slice at every `sep` into owned strings (`str::split`).
pub fn split_str(s: &str, sep: char) -> (out: Vec<String>)
    ensures
        string_views(out@) == split_on(s@, sep),
{
    let chars = chars_of(s);
    let pieces = split_chars(&chars, sep);
    let mut out: Vec<String> = Vec::new();
    let mut i: usize = 0;
    while i < pieces.len()
        invariant
            i <= pieces.len(),
            out.len() == i,
            string_views(out@) == char_vec_views(pieces@).take(i as int),
        decreases pieces.len() - i,
    {
        let piece = string_from_chars(pieces[i].as_slice());
        let ghost prev = out@;
        proof {
            assert(piece@ == pieces@[i as int]@);
        }
        out.push(piece);
        proof {
            let sv = string_views(out@);
            let cv = char_vec_views(pieces@);
            assert(sv.len() == i + 1);
            assert(sv[i as int] == cv[i as int]);
            assert forall|k: int| 0 <= k < i implies #[trigger] sv[k] == cv[k] by {
                assert(sv[k] == out@[k]@);
                assert(out@[k] == prev[k]);
                assert(string_views(prev)[k] == cv.take(i as int)[k]);
            }
            assert(sv =~= cv.take(i as int + 1));
        }
        i = i + 1;
    }
    proof {
        assert(char_vec_views(pieces@).take(pieces.len() as int) =~= char_vec_views(pieces@));
    }
    out
}


/// Whether `n` occurs in `h` as a contiguous piece (`str::contains`).
pub open spec fn has_substring(h: Seq<char>, n: Seq<char>) -> bool {
    exists|i: int| 0 <= i && i + n.len() <= h.len() && #[trigger] h.subrange(i, i + n.len()) == n
}

/// Whether `n` occurs in `h` starting at `i`.
fn occurs_at(h: &Vec<char>, n: &Vec<char>, i: usize) -> (b: bool)
    requires
        i + n.len() <= h.len(),
    ensures
        b == (h@.subrange(i as int, i + n.len()) == n@),
{
    let mut k: usize = 0;
    while k < n.len()
        invariant
            k <= n.len(),
            i + n.len() <= h.len(),
            forall|j: int| 0 <= j < k ==> h@[i + j] == n@[j],
        decreases n.len() - k,
    {
        if h[i + k] != n[k] {
            proof {
                assert(h@.subrange(i as int, i + n.len())[k as int] != n@[k as int]);
            }
            return false;
        }
        k = k + 1;
    }
    proof {
        assert(h@.subrange(i as int, i + n.len()) =~= n@);
    }
    true
}

/// `h.contains(n)` for string slices.
pub fn contains_str(h: &str, n: &str) -> (b: bool)
    ensures
        b == has_substring(h@, n@),
{
    let hv = chars_of(h);
    let nv = chars_of(n);
    if nv.len() > hv.len() {
        proof {
            if has_substring(h@, n@) {
                let i = choose|i: int| 0 <= i && i + n@.len() <= h@.len() && #[trigger] h@.subrange(i, i + n@.len()) == n@;
            }
        }
        return false;
    }
    if nv.len() == 0 {
        proof {
            assert(n@.len() == 0);
            assert(h@.subrange(0int, 0int + n@.len()) =~= n@);
        }
        return true;
    }
    let last = hv.len() - nv.len();
    let mut i: usize = 0;
    while i <= last
        invariant
            last == hv.len() - nv.len(),
            nv.len() <= hv.len(),
            nv.len() >= 1,
            hv@ == h@,
            nv@ == n@,
            i <= last + 1,
            forall|j: int| 0 <= j < i ==> #[trigger] h@.subrange(j, j + n@.len()) != n@,
        decreases last + 1 - i,
    {
        if occurs_at(&hv, &nv, i) {
            return true;
        }
        i = i + 1;
    }
    proof {
        if has_substring(h@, n@) {
            let j = choose|j: int| 0 <= j && j + n@.len() <= h@.len() && #[trigger] h@.subrange(j, j + n@.len()) == n@;
            assert(j <= last);
        }
    }
    false
}

/// Whether any of `needles` occurs in `h`.
pub open spec fn contains_any_spec(h: Seq<char>, needles: Seq<Seq<char>>) -> bool {
    exists|k: int| 0 <= k < needles.len() && has_substring(h, #[trigger] needles[k])
}

/// Whether any of `needles` occurs in `haystack`.
pub fn contains_any(haystack: &str, needles: &[&str]) -> (b: bool)
    ensures
        b == contains_any_spec(haystack@, str_views(needles@)),
{
    let mut k: usize = 0;
    while k < needles.len()
        invariant
            k <= needles.len(),
            forall|j: int| 0 <= j < k ==> !has_substring(haystack@, #[trigger] str_views(needles@)[j]),
        decreases needles.len() - k,
    {
        if contains_str(haystack, needles[k]) {
            proof {
                assert(str_views(needles@)[k as int] == needles@[k as int]@);
            }
            return true;
        }
        k = k + 1;
    }
    false
}

/// The lowercase form of a text, as `str::to_lowercase` computes it from
/// the Unicode case tables.
pub uninterp spec fn lowercase(s: Seq<char>) -> Seq<char>;

/// `s.to_lowercase()`.
#[verifier::external_body]
pub(crate) fn to_lowercase(s: &str) -> (r: String)
    ensures
        r@ == lowercase(s@),
{
    s.to_lowercase()
}

} // verus!
