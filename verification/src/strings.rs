//! Text helpers for notes: titles from file names and contents, search queries made safe
//! for full-text matching, and human-readable ages.
use vstd::prelude::*;
use crate::text::{
    chars_of, decimal, is_alphanumeric_char, is_blank, is_whitespace_char,
    is_ws, owned, push_char, seq_ends_with, string_of_range, u64_to_decimal,
    unicode_alphanumeric,
};
use crate::config::join_with;

verus! {

// ---------------------------------------------------------------------------------------
// Titles
// ---------------------------------------------------------------------------------------

/// `s` with every trailing repetition of a non-empty `suffix` removed, as
/// `str::trim_end_matches` does.
pub open spec fn strip_all_suffix(s: Seq<char>, suffix: Seq<char>) -> Seq<char>
    decreases s.len(),
{
    if suffix.len() > 0 && seq_ends_with(s, suffix) {
        strip_all_suffix(s.subrange(0, s.len() - suffix.len()), suffix)
    } else {
        s
    }
}

/// `_` and `-` read as spaces in titles.
pub open spec fn title_char(c: char) -> char {
    if c == '_' || c == '-' {
        ' '
    } else {
        c
    }
}

/// The title a file name gives: the `.md`, then `.txt`, then `.markdown` endings removed,
/// and `_` and `-` turned into spaces.
pub open spec fn title_from_filename(f: Seq<char>) -> Seq<char> {
    strip_all_suffix(strip_all_suffix(strip_all_suffix(f, ".md"@), ".txt"@), ".markdown"@).map_values(
        |c: char| title_char(c),
    )
}

fn strip_suffix_repeated(v: &Vec<char>, len: usize, suffix: &str) -> (r: usize)
    requires
        len <= v.len(),
    ensures
        r <= len,
        v@.take(r as int) == strip_all_suffix(v@.take(len as int), suffix@),
{
    let suf = chars_of(suffix);
    if suf.len() == 0 {
        return len;
    }
    let mut end = len;
    while end >= suf.len() && ends_at(v, end, &suf)
        invariant
            end <= len <= v.len(),
            suf@ == suffix@,
            suf.len() > 0,
            strip_all_suffix(v@.take(len as int), suffix@) == strip_all_suffix(v@.take(end as int), suffix@),
        decreases end,
    {
        assert(seq_ends_with(v@.take(end as int), suffix@)) by {
            assert(v@.take(end as int).subrange(end - suf.len(), end as int) =~= v@.subrange(
                end - suf.len(),
                end as int,
            ));
        }
        assert(v@.take(end as int).subrange(0, end - suf.len()) =~= v@.take(end - suf.len()));
        end = end - suf.len();
    }
    proof {
        if end >= suf.len() {
            assert(v@.take(end as int).subrange(end - suf.len(), end as int) =~= v@.subrange(
                end - suf.len(),
                end as int,
            ));
        }
    }
    end
}

fn ends_at(v: &Vec<char>, end: usize, suf: &Vec<char>) -> (r: bool)
    requires
        suf.len() <= end <= v.len(),
    ensures
        r == (v@.subrange(end - suf.len(), end as int) == suf@),
{
    let start = end - suf.len();
    let mut k: usize = 0;
    while k < suf.len()
        invariant
            start + suf.len() == end <= v.len(),
            k <= suf.len(),
            forall|j: int| 0 <= j < k ==> v@[start + j] == suf@[j],
        decreases suf.len() - k,
    {
        if v[start + k] != suf[k] {
            assert(v@.subrange(start as int, end as int)[k as int] != suf@[k as int]);
            return false;
        }
        k += 1;
    }
    assert(v@.subrange(start as int, end as int) =~= suf@);
    true
}

/// A title from a file name, for notes whose content has no title line.
pub fn extract_title_from_filename(filename: &str) -> (r: String)
    ensures
        r@ == title_from_filename(filename@),
{
    let v = chars_of(filename);
    let e1 = strip_suffix_repeated(&v, v.len(), ".md");
    assert(v@.take(v.len() as int) =~= v@);
    let e2 = strip_suffix_repeated(&v, e1, ".txt");
    let e3 = strip_suffix_repeated(&v, e2, ".markdown");
    let mut out = String::new();
    let mut i: usize = 0;
    while i < e3
        invariant
            i <= e3 <= v.len(),
            out@ == v@.take(i as int).map_values(|c: char| title_char(c)),
        decreases e3 - i,
    {
        let c = v[i];
        if c == '_' || c == '-' {
            push_char(&mut out, ' ');
        } else {
            push_char(&mut out, c);
        }
        assert(v@.take(i + 1).map_values(|c: char| title_char(c)) =~= v@.take(i as int).map_values(
            |c: char| title_char(c),
        ).push(title_char(c)));
        i += 1;
    }
    assert(v@.take(e3 as int).map_values(|c: char| title_char(c)) =~= v@.take(i as int).map_values(
        |c: char| title_char(c),
    ));
    out
}

/// `s` without its leading white space.
pub open spec fn trim_start(s: Seq<char>) -> Seq<char>
    decreases s.len(),
{
    if s.len() > 0 && is_ws(s[0]) {
        trim_start(s.drop_first())
    } else {
        s
    }
}

/// `s` without its trailing white space.
pub open spec fn trim_end(s: Seq<char>) -> Seq<char>
    decreases s.len(),
{
    if s.len() > 0 && is_ws(s.last()) {
        trim_end(s.drop_last())
    } else {
        s
    }
}

/// `s` without white space at either end, as `str::trim` gives it.
pub open spec fn trim(s: Seq<char>) -> Seq<char> {
    trim_end(trim_start(s))
}

/// `s` without its leading `#` characters.
pub open spec fn strip_leading_hashes(s: Seq<char>) -> Seq<char>
    decreases s.len(),
{
    if s.len() > 0 && s[0] == '#' {
        strip_leading_hashes(s.drop_first())
    } else {
        s
    }
}

/// The length of the first line of `s`: the characters before its first `\n`.
pub open spec fn first_line_len(s: Seq<char>) -> int
    decreases s.len(),
{
    if s.len() == 0 {
        0
    } else if s[0] == '\n' {
        0
    } else {
        1 + first_line_len(s.drop_first())
    }
}

/// The title that content gives: its first line that is not blank, without leading `#`
/// characters and surrounding white space; none if that is empty or there is no such line.
pub open spec fn title_from_content(s: Seq<char>) -> Option<Seq<char>>
    decreases s.len(),
{
    let k = first_line_len(s);
    let line = s.take(k);
    if !is_blank(line) {
        let t = trim(strip_leading_hashes(line));
        if t.len() > 0 {
            Some(t)
        } else {
            None
        }
    } else if k < s.len() {
        proof {
            lemma_first_line_len_bounds(s);
        }
        title_from_content(s.skip(k + 1))
    } else {
        None
    }
}

/// The first line of a text lies within it and ends at a `\n` or at its end.
pub proof fn lemma_first_line_len_bounds(s: Seq<char>)
    ensures
        0 <= first_line_len(s) <= s.len(),
        first_line_len(s) < s.len() ==> s[first_line_len(s)] == '\n',
        forall|i: int| 0 <= i < first_line_len(s) ==> s[i] != '\n',
    decreases s.len(),
{
    if s.len() > 0 && s[0] != '\n' {
        lemma_first_line_len_bounds(s.drop_first());
        assert forall|i: int| 0 <= i < first_line_len(s) implies s[i] != '\n' by {
            if i > 0 {
                assert(s.drop_first()[i - 1] == s[i]);
            }
        }
    }
}

proof fn lemma_first_line_len_at(s: Seq<char>, k: int)
    requires
        0 <= k <= s.len(),
        k < s.len() ==> s[k] == '\n',
        forall|i: int| 0 <= i < k ==> s[i] != '\n',
    ensures
        first_line_len(s) == k,
    decreases k,
{
    if k > 0 {
        lemma_first_line_len_at(s.drop_first(), k - 1);
    }
}

proof fn lemma_trim_start_index(s: Seq<char>, i: int)
    requires
        0 <= i <= s.len(),
        forall|j: int| 0 <= j < i ==> is_ws(s[j]),
        i == s.len() || !is_ws(s[i]),
    ensures
        trim_start(s) == s.skip(i),
    decreases i,
{
    if i > 0 {
        lemma_trim_start_index(s.drop_first(), i - 1);
        assert(s.drop_first().skip(i - 1) =~= s.skip(i));
    } else {
        assert(s.skip(0) =~= s);
    }
}

proof fn lemma_trim_end_index(s: Seq<char>, e: int)
    requires
        0 <= e <= s.len(),
        forall|j: int| e <= j < s.len() ==> is_ws(s[j]),
        e == 0 || !is_ws(s[e - 1]),
    ensures
        trim_end(s) == s.take(e),
    decreases s.len() - e,
{
    if e < s.len() {
        lemma_trim_end_index(s.drop_last(), e);
        assert(s.drop_last().take(e) =~= s.take(e));
    } else {
        assert(s.take(e) =~= s);
    }
}

proof fn lemma_strip_hashes_index(s: Seq<char>, i: int)
    requires
        0 <= i <= s.len(),
        forall|j: int| 0 <= j < i ==> s[j] == '#',
        i == s.len() || s[i] != '#',
    ensures
        strip_leading_hashes(s) == s.skip(i),
    decreases i,
{
    if i > 0 {
        lemma_strip_hashes_index(s.drop_first(), i - 1);
        assert(s.drop_first().skip(i - 1) =~= s.skip(i));
    } else {
        assert(s.skip(0) =~= s);
    }
}

/// The title of a line: leading `#` characters and surrounding white space removed.
fn title_of_line(v: &Vec<char>, start: usize, end: usize) -> (r: String)
    requires
        start <= end <= v.len(),
    ensures
        r@ == trim(strip_leading_hashes(v@.subrange(start as int, end as int))),
{
    let ghost line = v@.subrange(start as int, end as int);
    let mut a = start;
    while a < end && v[a] == '#'
        invariant
            start <= a <= end <= v.len(),
            forall|j: int| start <= j < a ==> v@[j] == '#',
        decreases end - a,
    {
        a += 1;
    }
    proof {
        lemma_strip_hashes_index(line, a - start);
        assert(line.skip(a - start) =~= v@.subrange(a as int, end as int));
    }
    let ghost h = v@.subrange(a as int, end as int);
    let mut b = a;
    while b < end && is_whitespace_char(v[b])
        invariant
            a <= b <= end <= v.len(),
            forall|j: int| a <= j < b ==> is_ws(v@[j]),
        decreases end - b,
    {
        b += 1;
    }
    proof {
        lemma_trim_start_index(h, b - a);
        assert(h.skip(b - a) =~= v@.subrange(b as int, end as int));
    }
    let ghost t = v@.subrange(b as int, end as int);
    let mut e = end;
    while e > b && is_whitespace_char(v[e - 1])
        invariant
            b <= e <= end <= v.len(),
            forall|j: int| e <= j < end ==> is_ws(v@[j]),
        decreases e - b,
    {
        e -= 1;
    }
    proof {
        lemma_trim_end_index(t, e - b);
        assert(t.take(e - b) =~= v@.subrange(b as int, e as int));
    }
    string_of_range(v, b, e)
}

/// A title from the content of a note: its first non-blank line, without heading marks.
pub fn extract_title_from_content(content: &str) -> (r: Option<String>)
    ensures
        r matches Some(t) ==> title_from_content(content@) == Some(t@),
        r is None ==> title_from_content(content@) is None,
{
    let v = chars_of(content);
    let mut start: usize = 0;
    assert(v@.skip(0) =~= v@);
    loop
        invariant
            start <= v.len(),
            title_from_content(content@) == title_from_content(v@.skip(start as int)),
            v@ == content@,
        decreases v.len() - start,
    {
        let ghost rest = v@.skip(start as int);
        let mut end = start;
        while end < v.len() && v[end] != '\n'
            invariant
                start <= end <= v.len(),
                forall|j: int| start <= j < end ==> v@[j] != '\n',
            decreases v.len() - end,
        {
            end += 1;
        }
        proof {
            lemma_first_line_len_at(rest, end - start);
            assert(rest.take(end - start) =~= v@.subrange(start as int, end as int));
        }
        let mut blank = true;
        let mut k = start;
        while k < end
            invariant
                start <= k <= end <= v.len(),
                blank == (forall|j: int| start <= j < k ==> is_ws(v@[j])),
            decreases end - k,
        {
            if !is_whitespace_char(v[k]) {
                blank = false;
            }
            k += 1;
        }
        assert(blank == is_blank(v@.subrange(start as int, end as int))) by {
            if blank {
                assert forall|i: int| 0 <= i < v@.subrange(start as int, end as int).len() implies is_ws(
                    #[trigger] v@.subrange(start as int, end as int)[i],
                ) by {
                    assert(v@.subrange(start as int, end as int)[i] == v@[start + i]);
                }
            } else {
                let j = choose|j: int| start <= j < end && !is_ws(v@[j]);
                assert(v@.subrange(start as int, end as int)[j - start] == v@[j]);
            }
        }
        if !blank {
            let t = title_of_line(&v, start, end);
            if !t.as_str().is_empty() {
                return Some(t);
            } else {
                return None;
            }
        }
        if end == v.len() {
            return None;
        }
        assert(rest.skip(end - start + 1) =~= v@.skip(end + 1));
        start = end + 1;
    }
}

// ---------------------------------------------------------------------------------------
// Full-text queries
// ---------------------------------------------------------------------------------------

/// A character survives the first pass of query sanitising: letters, digits, white space,
/// `-`, `_`, `.`, and `*` unless the whole query is that one character.
pub open spec fn fts_keeps(c: char, query: Seq<char>) -> bool {
    if c == '*' {
        query != seq!['*']
    } else {
        unicode_alphanumeric(c) || is_ws(c) || c == '-' || c == '_' || c == '.'
    }
}

/// The characters of `s` that `keep` accepts, in order.
pub open spec fn keep_chars(s: Seq<char>, query: Seq<char>) -> Seq<char> {
    s.filter(|c: char| fts_keeps(c, query))
}

/// How many leading characters of `s` are not white space.
pub open spec fn word_len(s: Seq<char>) -> int
    decreases s.len(),
{
    if s.len() == 0 || is_ws(s[0]) {
        0
    } else {
        1 + word_len(s.drop_first())
    }
}

/// The words of `s`: its maximal runs of characters that are not white space, as
/// `str::split_whitespace` yields them.
pub open spec fn words(s: Seq<char>) -> Seq<Seq<char>>
    decreases s.len(),
{
    if s.len() == 0 {
        Seq::empty()
    } else if is_ws(s[0]) {
        words(s.drop_first())
    } else {
        proof {
            lemma_word_len_bounds(s);
        }
        seq![s.take(word_len(s))] + words(s.skip(word_len(s)))
    }
}

/// A word is as long as its run of characters that are not white space.
pub proof fn lemma_word_len_bounds(s: Seq<char>)
    ensures
        0 <= word_len(s) <= s.len(),
        s.len() > 0 && !is_ws(s[0]) ==> word_len(s) > 0,
        forall|i: int| 0 <= i < word_len(s) ==> !is_ws(s[i]),
        word_len(s) < s.len() ==> is_ws(s[word_len(s)]),
    decreases s.len(),
{
    if s.len() > 0 && !is_ws(s[0]) {
        lemma_word_len_bounds(s.drop_first());
        assert forall|i: int| 0 <= i < word_len(s) implies !is_ws(s[i]) by {
            if i > 0 {
                assert(s.drop_first()[i - 1] == s[i]);
            }
        }
    }
}

proof fn lemma_word_len_at(s: Seq<char>, k: int)
    requires
        0 <= k <= s.len(),
        forall|i: int| 0 <= i < k ==> !is_ws(s[i]),
        k == s.len() || is_ws(s[k]),
    ensures
        word_len(s) == k,
    decreases k,
{
    if k > 0 {
        lemma_word_len_at(s.drop_first(), k - 1);
    }
}

/// The text that the upper-case mapping of `str::to_uppercase` gives.
pub uninterp spec fn unicode_uppercase(s: Seq<char>) -> Seq<char>;

/// Maps a text to upper case with `str::to_uppercase`. Its documentation maps each ASCII
/// letter to its capital and leaves other ASCII characters as they are, so for an ASCII
/// text the result is stated exactly; for other texts it is named `unicode_uppercase`.
#[verifier::external_body]
fn to_uppercase_text(s: &str) -> (r: String)
    ensures
        r@ == unicode_uppercase(s@),
        crate::text::is_ascii_text(s@) ==> r@ == crate::text::ascii_uppercase(s@),
{
    s.to_uppercase()
}

/// A word that full-text search reads as an operator once in upper case.
pub open spec fn is_fts_operator(w: Seq<char>) -> bool {
    let u = unicode_uppercase(w);
    u == "AND"@ || u == "OR"@ || u == "NOT"@ || u == "NEAR"@ || u == "MATCH"@
}

/// A query made safe for full-text matching: characters with a meaning to the matcher
/// removed, words that are operators dropped, the rest joined by single spaces.
pub open spec fn sanitized_query(q: Seq<char>) -> Seq<char> {
    join_with(words(keep_chars(q, q)).filter(|w: Seq<char>| !is_fts_operator(w)), " "@)
}

fn is_operator_word(w: &String) -> (r: bool)
    ensures
        r == is_fts_operator(w@),
{
    let u = to_uppercase_text(w.as_str());
    let uv = chars_of(u.as_str());
    let a = chars_of("AND");
    let o = chars_of("OR");
    let n = chars_of("NOT");
    let e = chars_of("NEAR");
    let m = chars_of("MATCH");
    crate::text::chars_equal(&uv, &a) || crate::text::chars_equal(&uv, &o)
        || crate::text::chars_equal(&uv, &n) || crate::text::chars_equal(&uv, &e)
        || crate::text::chars_equal(&uv, &m)
}

/// Splits a character sequence into its words.
pub(crate) fn split_words(v: &Vec<char>) -> (r: Vec<String>)
    ensures
        r@.map_values(|w: String| w@) == words(v@),
{
    let mut out: Vec<String> = Vec::new();
    let mut i: usize = 0;
    assert(v@.skip(0) =~= v@);
    while i < v.len()
        invariant
            i <= v.len(),
            words(v@) == out@.map_values(|w: String| w@) + words(v@.skip(i as int)),
        decreases v.len() - i,
    {
        let ghost rest = v@.skip(i as int);
        if is_whitespace_char(v[i]) {
            assert(rest.drop_first() =~= v@.skip(i + 1));
            i += 1;
        } else {
            let mut j = i;
            while j < v.len() && !is_whitespace_char(v[j])
                invariant
                    i <= j <= v.len(),
                    forall|k: int| i <= k < j ==> !is_ws(v@[k]),
                decreases v.len() - j,
            {
                j += 1;
            }
            proof {
                lemma_word_len_at(rest, j - i);
                assert(rest.take(j - i) =~= v@.subrange(i as int, j as int));
                assert(rest.skip(j - i) =~= v@.skip(j as int));
            }
            let w = string_of_range(v, i, j);
            let ghost before = out@.map_values(|w: String| w@);
            out.push(w);
            assert(out@.map_values(|w: String| w@) =~= before.push(w@));
            assert(before + (seq![rest.take(j - i)] + words(v@.skip(j as int))) =~= before.push(w@)
                + words(v@.skip(j as int)));
            i = j;
        }
    }
    assert(v@.skip(i as int) =~= Seq::<char>::empty());
    assert(words(Seq::<char>::empty()) =~= Seq::<Seq<char>>::empty());
    assert(out@.map_values(|w: String| w@) + Seq::<Seq<char>>::empty() =~= out@.map_values(
        |w: String| w@,
    ));
    out
}

/// Joins strings with a separator.
pub fn join_strings(list: &Vec<String>, sep: &str) -> (r: String)
    ensures
        r@ == join_with(list@.map_values(|s: String| s@), sep@),
{
    let ghost parts = list@.map_values(|s: String| s@);
    let mut r = String::new();
    let mut i: usize = 0;
    while i < list.len()
        invariant
            i <= list.len(),
            parts == list@.map_values(|s: String| s@),
            r@ == join_with(parts.take(i as int), sep@),
        decreases list.len() - i,
    {
        if i > 0 {
            r.append(sep);
        }
        r.append(list[i].as_str());
        assert(parts.take(i + 1).drop_last() =~= parts.take(i as int));
        i += 1;
    }
    assert(parts.take(list@.len() as int) =~= parts);
    r
}

/// Makes a search query safe for full-text matching: quotes, brackets and punctuation
/// with a meaning to the matcher are removed, a lone `*` is removed, and the words `AND`,
/// `OR`, `NOT`, `NEAR` and `MATCH` (in any case) are dropped.
pub fn sanitize_fts_query(query: &str) -> (r: String)
    ensures
        r@ == sanitized_query(query@),
{
    let q = chars_of(query);
    let lone_star = q.len() == 1 && q[0] == '*';
    assert(lone_star == (query@ == seq!['*'])) by {
        if q.len() == 1 && q[0] == '*' {
            assert(query@ =~= seq!['*']);
        }
    }
    let mut kept: Vec<char> = Vec::new();
    let mut i: usize = 0;
    while i < q.len()
        invariant
            i <= q.len(),
            q@ == query@,
            lone_star == (query@ == seq!['*']),
            kept@ == keep_chars(q@.take(i as int), query@),
        decreases q.len() - i,
    {
        let c = q[i];
        let keep = if c == '*' {
            !lone_star
        } else {
            is_alphanumeric_char(c) || is_whitespace_char(c) || c == '-' || c == '_' || c == '.'
        };
        if keep {
            kept.push(c);
        }
        assert(q@.take(i + 1).drop_last() =~= q@.take(i as int));
        assert(keep_chars(q@.take(i + 1), query@) == if fts_keeps(c, query@) {
            keep_chars(q@.take(i as int), query@).push(c)
        } else {
            keep_chars(q@.take(i as int), query@)
        }) by {
            reveal(Seq::filter);
            assert(q@.take(i + 1).last() == c);
        }
        i += 1;
    }
    assert(q@.take(q.len() as int) =~= q@);
    let all_words = split_words(&kept);
    let mut chosen: Vec<String> = Vec::new();
    let mut k: usize = 0;
    let ghost ws = all_words@.map_values(|w: String| w@);
    while k < all_words.len()
        invariant
            k <= all_words.len(),
            ws == all_words@.map_values(|w: String| w@),
            chosen@.map_values(|w: String| w@) == ws.take(k as int).filter(
                |w: Seq<char>| !is_fts_operator(w),
            ),
        decreases all_words.len() - k,
    {
        let ghost before = chosen@.map_values(|w: String| w@);
        let op = is_operator_word(&all_words[k]);
        if !op {
            chosen.push(all_words[k].clone());
            assert(chosen@.map_values(|w: String| w@) =~= before.push(ws[k as int]));
        } else {
            assert(chosen@.map_values(|w: String| w@) =~= before);
        }
        assert(ws.take(k + 1).drop_last() =~= ws.take(k as int));
        assert(ws.take(k + 1).filter(|w: Seq<char>| !is_fts_operator(w)) == if !is_fts_operator(
            ws[k as int],
        ) {
            ws.take(k as int).filter(|w: Seq<char>| !is_fts_operator(w)).push(ws[k as int])
        } else {
            ws.take(k as int).filter(|w: Seq<char>| !is_fts_operator(w))
        }) by {
            reveal(Seq::filter);
            assert(ws.take(k + 1).last() == ws[k as int]);
        }
        k += 1;
    }
    assert(ws.take(all_words.len() as int) =~= ws);
    join_strings(&chosen, " ")
}

// ---------------------------------------------------------------------------------------
// Ages
// ---------------------------------------------------------------------------------------

/// How long ago something happened, for an elapsed number of seconds.
pub open spec fn elapsed_text(diff: nat) -> Seq<char> {
    if diff <= 59 {
        "Just now"@
    } else if diff <= 3599 {
        decimal(diff / 60) + "m ago"@
    } else if diff <= 86399 {
        decimal(diff / 3600) + "h ago"@
    } else if diff <= 2591999 {
        decimal(diff / 86400) + "d ago"@
    } else {
        decimal(diff / 604800) + "w ago"@
    }
}

/// The text for a moment seen from `now`, both in seconds since the Unix epoch; moments
/// after `now` count as just now.
pub open spec fn age_text(now: u64, timestamp: u64) -> Seq<char> {
    elapsed_text(if now >= timestamp { (now - timestamp) as nat } else { 0 })
}

/// How long before `now` a moment was, both in seconds since the Unix epoch; moments
/// after `now` count as just now.
pub fn format_elapsed(now: u64, timestamp: u64) -> (r: String)
    ensures
        r@ == age_text(now, timestamp),
{
    let diff = if now >= timestamp { now - timestamp } else { 0 };
    if diff <= 59 {
        owned("Just now")
    } else if diff <= 3599 {
        let mut s = u64_to_decimal(diff / 60);
        s.append("m ago");
        s
    } else if diff <= 86399 {
        let mut s = u64_to_decimal(diff / 3600);
        s.append("h ago");
        s
    } else if diff <= 2591999 {
        let mut s = u64_to_decimal(diff / 86400);
        s.append("d ago");
        s
    } else {
        let mut s = u64_to_decimal(diff / 604800);
        s.append("w ago");
        s
    }
}

/// Declares `std::time::SystemTime` for use in signatures; its values stay opaque.
#[verifier::external_type_specification]
#[verifier::external_body]
pub struct ExSystemTime(std::time::SystemTime);

/// Reads the system clock with `SystemTime::now`. What it reads depends on the moment, so
/// nothing is stated of it.
#[verifier::external_body]
fn system_now() -> (r: std::time::SystemTime) {
    std::time::SystemTime::now()
}

/// The time from `UNIX_EPOCH` to `t`, by `SystemTime::duration_since`; `None` where `t`
/// lies before the epoch. The clock's values are opaque here, so nothing more is stated.
#[verifier::external_body]
fn since_epoch(t: &std::time::SystemTime) -> (r: Option<std::time::Duration>) {
    match t.duration_since(std::time::UNIX_EPOCH) {
        Ok(d) => Some(d),
        Err(_) => None,
    }
}

/// The whole seconds of a duration, by `Duration::as_secs`. Durations are opaque here, so
/// nothing is stated of the number.
#[verifier::external_body]
fn whole_seconds(d: &std::time::Duration) -> (r: u64) {
    d.as_secs()
}

/// A duration of `secs` seconds, by `Duration::from_secs`.
#[verifier::external_body]
fn seconds_duration(secs: u64) -> (r: std::time::Duration) {
    std::time::Duration::from_secs(secs)
}

/// The moment `d` after `UNIX_EPOCH`, by `SystemTime::checked_add`; `None` where the
/// platform cannot represent it. Which durations fit depends on the platform, so nothing
/// is stated of when that happens.
#[verifier::external_body]
fn epoch_plus(d: std::time::Duration) -> (r: Option<std::time::SystemTime>) {
    std::time::UNIX_EPOCH.checked_add(d)
}

/// Formats a `SystemTime` with `{:?}`. The text is the platform's own rendering of
/// `SystemTime`, so nothing is stated of it.
#[verifier::external_body]
fn system_time_debug(t: &std::time::SystemTime) -> (r: String) {
    format!("{:?}", t)
}

/// Seconds since the Unix epoch by the system clock; `None` where the clock is set before
/// the epoch.
fn unix_now_secs() -> (r: Option<u64>) {
    let now = system_now();
    match since_epoch(&now) {
        Some(d) => Some(whole_seconds(&d)),
        None => None,
    }
}

/// The current time in seconds since the Unix epoch, or 0 where the clock is set before it.
pub(crate) fn current_unix_time() -> (r: u64) {
    match unix_now_secs() {
        Some(s) => s,
        None => 0,
    }
}

/// How long ago a moment was, by the system clock.
pub fn format_timestamp_for_humans(timestamp: u64) -> (r: String)
    ensures
        exists|now: u64| r@ == #[trigger] age_text(now, timestamp),
{
    let now = current_unix_time();
    format_elapsed(now, timestamp)
}

/// A timestamp for records: the current time, in whole seconds, as `SystemTime` prints it,
/// or `UNKNOWN_TIME` where the clock is set before the epoch or the time cannot be
/// represented. The printed form belongs to the platform, so no clause states it.
pub fn get_timestamp() -> (r: String) {
    match unix_now_secs() {
        Some(secs) => match epoch_plus(seconds_duration(secs)) {
            Some(t) => system_time_debug(&t),
            None => owned("UNKNOWN_TIME"),
        },
        None => owned("UNKNOWN_TIME"),
    }
}

/// Every character of `s` has the property `p`.
pub open spec fn all_chars(s: Seq<char>, p: spec_fn(char) -> bool) -> bool {
    forall|i: int| 0 <= i < s.len() ==> p(#[trigger] s[i])
}

proof fn lemma_words_chars(s: Seq<char>, p: spec_fn(char) -> bool)
    requires
        all_chars(s, p),
    ensures
        forall|k: int| 0 <= k < words(s).len() ==> all_chars(#[trigger] words(s)[k], p),
    decreases s.len(),
{
    if s.len() > 0 {
        if is_ws(s[0]) {
            assert(all_chars(s.drop_first(), p)) by {
                assert forall|i: int| 0 <= i < s.drop_first().len() implies p(#[trigger] s.drop_first()[i]) by {
                    assert(s.drop_first()[i] == s[i + 1]);
                }
            }
            lemma_words_chars(s.drop_first(), p);
            assert(words(s) == words(s.drop_first()));
        } else {
            lemma_word_len_bounds(s);
            let n = word_len(s);
            assert(all_chars(s.skip(n), p)) by {
                assert forall|i: int| 0 <= i < s.skip(n).len() implies p(#[trigger] s.skip(n)[i]) by {
                    assert(s.skip(n)[i] == s[i + n]);
                }
            }
            lemma_words_chars(s.skip(n), p);
            let rest = words(s.skip(n));
            assert(words(s) == seq![s.take(n)] + rest);
            assert forall|k: int| 0 <= k < words(s).len() implies all_chars(#[trigger] words(s)[k], p) by {
                if k == 0 {
                    assert forall|i: int| 0 <= i < s.take(n).len() implies p(#[trigger] s.take(n)[i]) by {
                        assert(s.take(n)[i] == s[i]);
                    }
                } else {
                    assert(words(s)[k] == rest[k - 1]);
                }
            }
        }
    }
}

proof fn lemma_join_chars(parts: Seq<Seq<char>>, sep: Seq<char>, p: spec_fn(char) -> bool)
    requires
        forall|k: int| 0 <= k < parts.len() ==> all_chars(#[trigger] parts[k], p),
        all_chars(sep, p),
    ensures
        all_chars(join_with(parts, sep), p),
    decreases parts.len(),
{
    if parts.len() > 1 {
        let init = parts.drop_last();
        assert forall|k: int| 0 <= k < init.len() implies all_chars(#[trigger] init[k], p) by {
            assert(init[k] == parts[k]);
        }
        lemma_join_chars(init, sep, p);
        let a = join_with(init, sep);
        let last = parts.last();
        assert(all_chars(last, p)) by {
            assert(last == parts[parts.len() - 1]);
        }
        assert forall|i: int| 0 <= i < (a + sep + last).len() implies p(#[trigger] (a + sep + last)[i]) by {
            if i < a.len() {
                assert((a + sep + last)[i] == a[i]);
            } else if i < a.len() + sep.len() {
                assert((a + sep + last)[i] == sep[i - a.len()]);
            } else {
                assert((a + sep + last)[i] == last[i - a.len() - sep.len()]);
            }
        }
    } else if parts.len() == 1 {
        assert(all_chars(parts[0], p));
    }
}

/// A sanitized query holds only characters that the first pass keeps (letters, digits,
/// white space, `-`, `_`, `.`, and `*` where the query is more than a lone `*`) and the
/// spaces that join its words: no quote, bracket or other punctuation with a meaning to
/// full-text search survives.
pub proof fn law_sanitized_chars(q: Seq<char>)
    ensures
        all_chars(sanitized_query(q), |c: char| fts_keeps(c, q) || c == ' '),
{
    let p = |c: char| fts_keeps(c, q) || c == ' ';
    let keep = |c: char| fts_keeps(c, q);
    let k = keep_chars(q, q);
    assert(all_chars(k, p)) by {
        assert forall|i: int| 0 <= i < k.len() implies p(#[trigger] k[i]) by {
            q.lemma_filter_pred(keep, i);
        }
    }
    lemma_words_chars(k, p);
    let ws = words(k);
    let not_op = |w: Seq<char>| !is_fts_operator(w);
    let parts = ws.filter(not_op);
    assert forall|j: int| 0 <= j < parts.len() implies all_chars(#[trigger] parts[j], p) by {
        assert(parts.contains(parts[j]));
        ws.lemma_filter_contains_rev(not_op, parts[j]);
        let m = choose|m: int| 0 <= m < ws.len() && ws[m] == parts[j];
        assert(all_chars(ws[m], p));
    }
    reveal_strlit(" ");
    assert(all_chars(" "@, p));
    lemma_join_chars(parts, " "@, p);
}

proof fn lemma_words_nonempty(s: Seq<char>)
    ensures
        forall|k: int| 0 <= k < words(s).len() ==> (#[trigger] words(s)[k]).len() > 0,
    decreases s.len(),
{
    if s.len() > 0 {
        if is_ws(s[0]) {
            lemma_words_nonempty(s.drop_first());
            assert(words(s) == words(s.drop_first()));
        } else {
            lemma_word_len_bounds(s);
            let n = word_len(s);
            lemma_words_nonempty(s.skip(n));
            let rest = words(s.skip(n));
            assert(words(s) == seq![s.take(n)] + rest);
            assert forall|k: int| 0 <= k < words(s).len() implies (#[trigger] words(s)[k]).len() > 0 by {
                if k > 0 {
                    assert(words(s)[k] == rest[k - 1]);
                }
            }
        }
    }
}

proof fn lemma_words_split(a: Seq<char>, b: Seq<char>)
    ensures
        words(a + " "@ + b) == words(a) + words(b),
    decreases a.len(),
{
    reveal_strlit(" ");
    let s = a + " "@ + b;
    if a.len() == 0 {
        assert(s.drop_first() =~= b);
        assert(is_ws(s[0]));
        assert(words(a) =~= Seq::<Seq<char>>::empty());
        assert(words(s) == words(b));
        assert(words(a) + words(b) =~= words(b));
    } else if is_ws(a[0]) {
        assert(s[0] == a[0]);
        assert(s.drop_first() =~= a.drop_first() + " "@ + b);
        lemma_words_split(a.drop_first(), b);
        assert(words(s) == words(s.drop_first()));
        assert(words(a) == words(a.drop_first()));
    } else {
        assert(s[0] == a[0]);
        lemma_word_len_bounds(a);
        let n = word_len(a);
        assert forall|i: int| 0 <= i < n implies !is_ws(s[i]) by {
            assert(s[i] == a[i]);
        }
        if n < a.len() {
            assert(s[n] == a[n]);
        } else {
            assert(s[n] == ' ');
        }
        lemma_word_len_at(s, n);
        lemma_word_len_bounds(s);
        assert(s.take(n) =~= a.take(n));
        assert(s.skip(n) =~= a.skip(n) + " "@ + b);
        lemma_words_split(a.skip(n), b);
        assert(words(s) == seq![s.take(n)] + words(s.skip(n)));
        assert(words(a) == seq![a.take(n)] + words(a.skip(n)));
        assert(words(s) =~= words(a) + words(b));
    }
}

proof fn lemma_word_alone(w: Seq<char>)
    requires
        w.len() > 0,
        forall|i: int| 0 <= i < w.len() ==> !is_ws(#[trigger] w[i]),
    ensures
        words(w) == seq![w],
{
    lemma_word_len_at(w, w.len() as int);
    assert(w.take(w.len() as int) =~= w);
    assert(w.skip(w.len() as int) =~= Seq::<char>::empty());
    assert(words(Seq::<char>::empty()) =~= Seq::<Seq<char>>::empty());
    assert(words(w) == seq![w.take(word_len(w))] + words(w.skip(word_len(w))));
    assert(seq![w] + Seq::<Seq<char>>::empty() =~= seq![w]);
}

proof fn lemma_words_of_join(parts: Seq<Seq<char>>)
    requires
        forall|k: int| 0 <= k < parts.len() ==> (#[trigger] parts[k]).len() > 0,
        forall|k: int| 0 <= k < parts.len() ==> all_chars(#[trigger] parts[k], |c: char| !is_ws(c)),
    ensures
        words(join_with(parts, " "@)) == parts,
    decreases parts.len(),
{
    if parts.len() == 0 {
        assert(words(Seq::<char>::empty()) =~= Seq::<Seq<char>>::empty());
        assert(join_with(parts, " "@) == Seq::<char>::empty());
    } else {
        let last = parts.last();
        assert(last == parts[parts.len() - 1]);
        assert(all_chars(last, |c: char| !is_ws(c)));
        assert forall|i: int| 0 <= i < last.len() implies !is_ws(#[trigger] last[i]) by {
            assert((|c: char| !is_ws(c))(last[i]));
        }
        lemma_word_alone(last);
        if parts.len() == 1 {
            assert(parts =~= seq![last]);
        } else {
            let init = parts.drop_last();
            assert forall|k: int| 0 <= k < init.len() implies (#[trigger] init[k]).len() > 0 by {
                assert(init[k] == parts[k]);
            }
            assert forall|k: int| 0 <= k < init.len() implies all_chars(#[trigger] init[k], |c: char| !is_ws(c)) by {
                assert(init[k] == parts[k]);
            }
            lemma_words_of_join(init);
            lemma_words_split(join_with(init, " "@), last);
            assert(parts =~= init + seq![last]);
        }
    }
}

/// No word of a sanitized query is a full-text search operator (`AND`, `OR`, `NOT`,
/// `NEAR` or `MATCH` in any case): the query's words are those of the cleaned query that
/// are not operators.
pub proof fn law_sanitized_has_no_operators(q: Seq<char>)
    ensures
        words(sanitized_query(q)) == words(keep_chars(q, q)).filter(|w: Seq<char>| !is_fts_operator(w)),
        forall|k: int| 0 <= k < words(sanitized_query(q)).len() ==> !is_fts_operator(#[trigger] words(sanitized_query(q))[k]),
{
    let k = keep_chars(q, q);
    let ws = words(k);
    let not_op = |w: Seq<char>| !is_fts_operator(w);
    let parts = ws.filter(not_op);
    lemma_words_nonempty(k);
    let nws = |c: char| !is_ws(c);
    assert forall|i: int| 0 <= i < ws.len() implies all_chars(#[trigger] ws[i], nws) by {
        lemma_words_no_ws(k, i);
    }
    assert forall|j: int| 0 <= j < parts.len() implies (#[trigger] parts[j]).len() > 0 && all_chars(parts[j], nws) by {
        assert(parts.contains(parts[j]));
        ws.lemma_filter_contains_rev(not_op, parts[j]);
        let m = choose|m: int| 0 <= m < ws.len() && ws[m] == parts[j];
        assert(ws[m].len() > 0);
        assert(all_chars(ws[m], nws));
    }
    lemma_words_of_join(parts);
    assert forall|j: int| 0 <= j < parts.len() implies !is_fts_operator(#[trigger] parts[j]) by {
        ws.lemma_filter_pred(not_op, j);
    }
}

proof fn lemma_words_no_ws(s: Seq<char>, k: int)
    requires
        0 <= k < words(s).len(),
    ensures
        all_chars(words(s)[k], |c: char| !is_ws(c)),
    decreases s.len(),
{
    if s.len() > 0 {
        if is_ws(s[0]) {
            assert(words(s) == words(s.drop_first()));
            lemma_words_no_ws(s.drop_first(), k);
        } else {
            lemma_word_len_bounds(s);
            let n = word_len(s);
            let rest = words(s.skip(n));
            assert(words(s) == seq![s.take(n)] + rest);
            if k == 0 {
                assert forall|i: int| 0 <= i < s.take(n).len() implies (|c: char| !is_ws(c))(#[trigger] s.take(n)[i]) by {
                    assert(s.take(n)[i] == s[i]);
                }
            } else {
                assert(words(s)[k] == rest[k - 1]);
                lemma_words_no_ws(s.skip(n), k - 1);
            }
        }
    }
}

} // verus!
