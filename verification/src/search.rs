//! Note search. A blank query lists the most recently modified notes. Otherwise the notes
//! whose file name, content or rendered HTML hold a word of the query at the start of a
//! token are the candidates; each is scored against its title, then its file name, then its
//! content, and the hits are ranked by kind of match, score, recency and title.
use vstd::prelude::*;
use vstd::utf8::encode_utf8;
use crate::text::{
    chars_of, chars_equal, contains_chars, is_whitespace_char, matches_at, occurs_at,
    seq_contains, seq_starts_with, starts_with_chars, is_ws, is_alphanumeric_char,
    unicode_alphanumeric, is_blank, is_blank_chars, owned,
};
use crate::ordering::{lemma_first_after_is, sorted_stable, strict_order};
use crate::index::{NoteRecord, NotesIndex, RecordView, names_by_recency_spec};
use crate::strings::{
    extract_title_from_content, extract_title_from_filename, sanitize_fts_query, sanitized_query,
    split_words, title_from_content, title_from_filename, words,
};
use crate::errors::{AppError, AppErrorView};
use nucleo_matcher::{Config, Matcher, Utf32Str};

verus! {

/// What `str::to_lowercase` makes of a text.
pub uninterp spec fn unicode_lowercase(s: Seq<char>) -> Seq<char>;

/// Lowercases a text with `str::to_lowercase`: the result is `unicode_lowercase` of the
/// text, and for an ASCII text each capital letter in lower case, the rest unchanged.
#[verifier::external_body]
pub(crate) fn to_lowercase_text(s: &str) -> (r: String)
    ensures
        r@ == unicode_lowercase(s@),
        crate::text::is_ascii_text(s@) ==> r@ == crate::text::ascii_lowercase(s@),
{
    s.to_lowercase()
}

/// The score that `nucleo_matcher::Matcher::fuzzy_match`, with the default configuration,
/// gives `needle` in `haystack` (`None` where it does not match).
pub uninterp spec fn fuzzy_score(haystack: Seq<char>, needle: Seq<char>) -> Option<u16>;

/// Calls `nucleo_matcher::Matcher::fuzzy_match` on a matcher made with
/// `Config::DEFAULT`; the result is `fuzzy_score` of the two texts. The matcher asserts that
/// the haystack's `Utf32Str` is at most `u32::MAX` long; that length is the UTF-8 byte count
/// of an ASCII text (and of one whose graphemes all start with an ASCII character) and the
/// grapheme count otherwise, never more than the UTF-8 byte count, which is what `requires`
/// bounds.
#[verifier::external_body]
fn fuzzy_match_score(haystack: &str, needle: &str) -> (r: Option<u16>)
    requires
        encode_utf8(haystack@).len() <= u32::MAX,
    ensures
        r == fuzzy_score(haystack@, needle@),
{
    let mut matcher = Matcher::new(Config::DEFAULT);
    let mut haystack_buf = Vec::new();
    let mut needle_buf = Vec::new();
    matcher.fuzzy_match(Utf32Str::new(haystack, &mut haystack_buf), Utf32Str::new(needle, &mut needle_buf))
}

/// How a note matched a query, from the strongest kind to the weakest.
#[derive(Debug, Clone, Copy, PartialEq, Eq, Structural)]
pub enum MatchType {
    ExactTitle,
    PrefixTitle,
    FuzzyTitle,
    Content,
}

/// The strength of a kind of match: a stronger kind ranks first.
pub open spec fn match_rank(m: MatchType) -> int {
    match m {
        MatchType::ExactTitle => 3,
        MatchType::PrefixTitle => 2,
        MatchType::FuzzyTitle => 1,
        MatchType::Content => 0,
    }
}

/// The characters at which a title splits into words.
pub open spec fn is_word_sep(c: char) -> bool {
    c == '_' || c == '-' || c == '.' || c == ',' || c == '+' || c == '=' || c == ';' || c == ':'
        || c == ' ' || is_ws(c)
}

/// A word of `text` (a maximal run of characters that are not separators) starts at `i`
/// and begins with `q`.
pub open spec fn word_starts_at(text: Seq<char>, q: Seq<char>, i: int) -> bool {
    &&& 0 <= i < text.len()
    &&& (i == 0 || is_word_sep(text[i - 1]))
    &&& !is_word_sep(text[i])
    &&& occurs_at(text, q, i)
    &&& forall|k: int| 0 <= k < q.len() ==> !is_word_sep(#[trigger] q[k])
}

/// Some word of `text` begins with `q`.
pub open spec fn some_word_starts_with(text: Seq<char>, q: Seq<char>) -> bool {
    exists|i: int| word_starts_at(text, q, i)
}

/// How a title text matches the lowercased query, with the boost of the field it came
/// from: the whole text, its start, the start of one of its words, or a fuzzy match that
/// scores above 50.
pub open spec fn title_score(text: Seq<char>, q: Seq<char>, boost: u32) -> Option<(u32, MatchType)> {
    if text == q {
        Some(((1000 + boost) as u32, MatchType::ExactTitle))
    } else if seq_starts_with(text, q) {
        Some(((800 + boost) as u32, MatchType::PrefixTitle))
    } else if some_word_starts_with(text, q) {
        Some(((700 + boost) as u32, MatchType::PrefixTitle))
    } else {
        match fuzzy_score(q, text) {
            Some(s) => if s > 50 {
                Some(((s + boost) as u32, MatchType::FuzzyTitle))
            } else {
                None
            },
            None => None,
        }
    }
}

/// The title match of a note: by its title (boost 100), else by its file name (boost 50).
pub open spec fn title_match(title: Seq<char>, filename: Seq<char>, q: Seq<char>) -> Option<(u32, MatchType)> {
    match title_score(title, q, 100) {
        Some(r) => Some(r),
        None => title_score(filename, q, 50),
    }
}

fn is_word_sep_char(c: char) -> (r: bool)
    ensures
        r == is_word_sep(c),
{
    c == '_' || c == '-' || c == '.' || c == ',' || c == '+' || c == '=' || c == ';' || c == ':'
        || c == ' ' || is_whitespace_char(c)
}

/// Tests whether some word of `text` begins with `q`.
pub fn word_starts_with(text: &Vec<char>, q: &Vec<char>) -> (r: bool)
    ensures
        r == some_word_starts_with(text@, q@),
{
    let mut k: usize = 0;
    while k < q.len()
        invariant
            k <= q@.len(),
            forall|j: int| 0 <= j < k ==> !is_word_sep(#[trigger] q@[j]),
        decreases q.len() - k,
    {
        if is_word_sep_char(q[k]) {
            assert forall|i: int| !word_starts_at(text@, q@, i) by {
                if word_starts_at(text@, q@, i) {
                    assert(!is_word_sep(q@[k as int]));
                }
            }
            return false;
        }
        k += 1;
    }
    let mut i: usize = 0;
    while i < text.len()
        invariant
            i <= text@.len(),
            forall|j: int| 0 <= j < q@.len() ==> !is_word_sep(#[trigger] q@[j]),
            forall|j: int| 0 <= j < i ==> !word_starts_at(text@, q@, j),
        decreases text.len() - i,
    {
        let starts = i == 0 || is_word_sep_char(text[i - 1]);
        if starts && !is_word_sep_char(text[i]) && matches_at(text, q, i) {
            assert(word_starts_at(text@, q@, i as int));
            return true;
        }
        i += 1;
    }
    false
}

/// Scores a lowercased title or file name against the lowercased query.
pub fn score_title_text(text: &str, query_lower: &str, boost: u32) -> (r: Option<(u32, MatchType)>)
    requires
        encode_utf8(query_lower@).len() <= u32::MAX,
        boost <= 100,
    ensures
        r == title_score(text@, query_lower@, boost),
{
    let t = chars_of(text);
    let q = chars_of(query_lower);
    if chars_equal(&t, &q) {
        return Some((1000 + boost, MatchType::ExactTitle));
    }
    if starts_with_chars(&t, &q) {
        return Some((800 + boost, MatchType::PrefixTitle));
    }
    if word_starts_with(&t, &q) {
        return Some((700 + boost, MatchType::PrefixTitle));
    }
    match fuzzy_match_score(query_lower, text) {
        Some(s) => {
            if s > 50 {
                Some((s as u32 + boost, MatchType::FuzzyTitle))
            } else {
                None
            }
        },
        None => None,
    }
}

/// Scores a note's lowercased title, then its lowercased file name, against the lowercased
/// query.
pub fn score_title_match(title_lower: &str, filename_lower: &str, query_lower: &str) -> (r: Option<(u32, MatchType)>)
    requires
        encode_utf8(query_lower@).len() <= u32::MAX,
    ensures
        r == title_match(title_lower@, filename_lower@, query_lower@),
{
    match score_title_text(title_lower, query_lower, 100) {
        Some(r) => Some(r),
        None => score_title_text(filename_lower, query_lower, 50),
    }
}

/// How many times `q` occurs in `text` from position `i` on, counting from the left
/// without overlaps.
pub open spec fn count_from(text: Seq<char>, q: Seq<char>, i: int) -> nat
    decreases text.len() - i,
{
    if q.len() == 0 || i < 0 || i + q.len() > text.len() {
        0
    } else if occurs_at(text, q, i) {
        1 + count_from(text, q, i + q.len())
    } else {
        count_from(text, q, i + 1)
    }
}

/// The number of matches that `str::matches(q).count()` finds: the non-overlapping
/// occurrences from the left, or one per character boundary for an empty `q`.
pub open spec fn count_matches(text: Seq<char>, q: Seq<char>) -> nat {
    if q.len() == 0 {
        text.len() + 1
    } else {
        count_from(text, q, 0)
    }
}

proof fn lemma_count_from_bound(text: Seq<char>, q: Seq<char>, i: int)
    requires
        0 <= i <= text.len(),
    ensures
        count_from(text, q, i) <= text.len() - i,
    decreases text.len() - i,
{
    if q.len() > 0 && i + q.len() <= text.len() {
        if occurs_at(text, q, i) {
            lemma_count_from_bound(text, q, i + q.len());
        } else {
            lemma_count_from_bound(text, q, i + 1);
        }
    }
}

/// Counts the non-overlapping occurrences of `q` in `text`, as `str::matches(q).count()`
/// does.
pub fn count_occurrences(text: &Vec<char>, q: &Vec<char>) -> (r: usize)
    requires
        q@.len() > 0 || text@.len() < usize::MAX,
    ensures
        r == count_matches(text@, q@),
{
    if q.len() == 0 {
        return text.len() + 1;
    }
    if q.len() > text.len() {
        return 0;
    }
    let mut count: usize = 0;
    let mut i: usize = 0;
    proof {
        lemma_count_from_bound(text@, q@, 0);
    }
    while i <= text.len() - q.len()
        invariant
            q@.len() > 0,
            q@.len() <= text@.len(),
            i <= text@.len(),
            count + count_from(text@, q@, i as int) == count_from(text@, q@, 0),
            count_from(text@, q@, 0) <= text@.len(),
        decreases text.len() - i,
    {
        if matches_at(text, q, i) {
            count += 1;
            i += q.len();
        } else {
            i += 1;
        }
    }
    count
}

/// The largest number of matches for which a content score fits in a `u32`.
pub const MAX_CONTENT_MATCHES: usize = 429496724;

/// The content score fits in a `u32`: `50 + 10 * count` does not overflow.
pub open spec fn content_score_fits(content: Seq<char>, q: Seq<char>) -> bool {
    count_matches(content, q) <= MAX_CONTENT_MATCHES
}

/// How the lowercased content matches the lowercased query: 50 plus 10 for each occurrence
/// where it occurs, else the fuzzy score.
pub open spec fn content_score(content: Seq<char>, q: Seq<char>) -> Option<u32> {
    if seq_contains(content, q) {
        Some((50 + 10 * count_matches(content, q)) as u32)
    } else {
        match fuzzy_score(q, content) {
            Some(s) => Some(s as u32),
            None => None,
        }
    }
}

/// Scores a note's lowercased content against the lowercased query.
pub fn score_content_match(content_lower: &str, query_lower: &str) -> (r: Option<u32>)
    requires
        encode_utf8(query_lower@).len() <= u32::MAX,
        content_score_fits(content_lower@, query_lower@),
    ensures
        r == content_score(content_lower@, query_lower@),
{
    let c = chars_of(content_lower);
    let q = chars_of(query_lower);
    if contains_chars(&c, &q) {
        let count = count_occurrences(&c, &q);
        Some(50 + (count as u32) * 10)
    } else {
        match fuzzy_match_score(query_lower, content_lower) {
            Some(s) => Some(s as u32),
            None => None,
        }
    }
}

/// A note about to be scored: its file name and title as shown, its modification time, and
/// the lowercased title, file name and content that the scoring reads.
#[derive(Debug, Clone)]
pub struct SearchCandidate {
    pub filename: String,
    pub title: String,
    pub modified: i64,
    pub title_lower: String,
    pub filename_lower: String,
    pub content_lower: String,
}

/// The mathematical value of a [`SearchCandidate`].
pub struct CandidateView {
    pub filename: Seq<char>,
    pub title: Seq<char>,
    pub modified: i64,
    pub title_lower: Seq<char>,
    pub filename_lower: Seq<char>,
    pub content_lower: Seq<char>,
}

impl View for SearchCandidate {
    type V = CandidateView;

    open spec fn view(&self) -> CandidateView {
        CandidateView {
            filename: self.filename@,
            title: self.title@,
            modified: self.modified,
            title_lower: self.title_lower@,
            filename_lower: self.filename_lower@,
            content_lower: self.content_lower@,
        }
    }
}

/// A scored note.
#[derive(Debug, Clone)]
pub struct SearchResult {
    pub filename: String,
    pub title: String,
    pub score: u32,
    pub match_type: MatchType,
    pub modified: i64,
}

/// The mathematical value of a [`SearchResult`].
pub struct ResultView {
    pub filename: Seq<char>,
    pub title: Seq<char>,
    pub score: u32,
    pub match_type: MatchType,
    pub modified: i64,
}

impl View for SearchResult {
    type V = ResultView;

    open spec fn view(&self) -> ResultView {
        ResultView {
            filename: self.filename@,
            title: self.title@,
            score: self.score,
            match_type: self.match_type,
            modified: self.modified,
        }
    }
}

/// The hit that a candidate makes: by its title or file name where they match, else by its
/// content, else none.
pub open spec fn score_of(c: CandidateView, q: Seq<char>) -> Option<ResultView> {
    match title_match(c.title_lower, c.filename_lower, q) {
        Some(t) => Some(
            ResultView {
                filename: c.filename,
                title: c.title,
                score: t.0,
                match_type: t.1,
                modified: c.modified,
            },
        ),
        None => match content_score(c.content_lower, q) {
            Some(s) => Some(
                ResultView {
                    filename: c.filename,
                    title: c.title,
                    score: s,
                    match_type: MatchType::Content,
                    modified: c.modified,
                },
            ),
            None => None,
        },
    }
}

/// The hits of the candidates, in their order.
pub open spec fn hits(cands: Seq<CandidateView>, q: Seq<char>) -> Seq<ResultView>
    decreases cands.len(),
{
    if cands.len() == 0 {
        Seq::empty()
    } else {
        let h = hits(cands.drop_last(), q);
        match score_of(cands.last(), q) {
            Some(r) => h.push(r),
            None => h,
        }
    }
}

/// `a` comes before `b` in code-point order, as `String`s compare.
pub open spec fn title_less(a: Seq<char>, b: Seq<char>) -> bool
    decreases a.len(),
{
    if a.len() == 0 {
        b.len() > 0
    } else if b.len() == 0 {
        false
    } else if a[0] != b[0] {
        (a[0] as u32) < (b[0] as u32)
    } else {
        title_less(a.drop_first(), b.drop_first())
    }
}

/// One hit ranks before another: a stronger kind of match, then a higher score, then a
/// later modification, then a title earlier in order.
pub open spec fn ranks_before(a: ResultView, b: ResultView) -> bool {
    ||| match_rank(a.match_type) > match_rank(b.match_type)
    ||| match_rank(a.match_type) == match_rank(b.match_type) && a.score > b.score
    ||| match_rank(a.match_type) == match_rank(b.match_type) && a.score == b.score && a.modified
        > b.modified
    ||| match_rank(a.match_type) == match_rank(b.match_type) && a.score == b.score && a.modified
        == b.modified && title_less(a.title, b.title)
}

/// [`ranks_before`] as a relation.
pub open spec fn ranking() -> spec_fn(ResultView, ResultView) -> bool {
    |a: ResultView, b: ResultView| ranks_before(a, b)
}

/// The file names of the best `max` hits, in rank order; hits that rank alike keep the
/// order of their candidates.
pub open spec fn ranked_names(cands: Seq<CandidateView>, q: Seq<char>, max: nat) -> Seq<Seq<char>> {
    let sorted = sorted_stable(hits(cands, q), ranking());
    sorted.take(if max < sorted.len() { max as int } else { sorted.len() as int }).map_values(
        |r: ResultView| r.filename,
    )
}

/// No title comes before itself.
pub proof fn lemma_title_less_irreflexive(a: Seq<char>)
    ensures
        !title_less(a, a),
    decreases a.len(),
{
    if a.len() > 0 {
        lemma_title_less_irreflexive(a.drop_first());
    }
}

/// The order of titles is transitive.
pub proof fn lemma_title_less_transitive(a: Seq<char>, b: Seq<char>, c: Seq<char>)
    requires
        title_less(a, b),
        title_less(b, c),
    ensures
        title_less(a, c),
    decreases a.len(),
{
    if a.len() > 0 && b.len() > 0 && c.len() > 0 && a[0] == b[0] && b[0] == c[0] {
        lemma_title_less_transitive(a.drop_first(), b.drop_first(), c.drop_first());
    }
}

/// Of two different titles, one comes before the other.
pub proof fn lemma_title_less_total(a: Seq<char>, b: Seq<char>)
    requires
        a != b,
    ensures
        title_less(a, b) || title_less(b, a),
    decreases a.len(),
{
    if a.len() == 0 && b.len() == 0 {
        assert(a =~= b);
    } else if a.len() > 0 && b.len() > 0 && a[0] == b[0] {
        if a.drop_first() == b.drop_first() {
            assert(a =~= b) by {
                assert(a.len() == a.drop_first().len() + 1 && b.len() == b.drop_first().len() + 1);
                assert forall|i: int| 0 <= i < a.len() implies a[i] == b[i] by {
                    if i > 0 {
                        assert(a[i] == a.drop_first()[i - 1]);
                        assert(b[i] == b.drop_first()[i - 1]);
                    }
                }
            }
        } else {
            lemma_title_less_total(a.drop_first(), b.drop_first());
        }
    } else if a.len() > 0 && b.len() > 0 {
        vstd::utf8::char_u32_cast(a[0], a[0] as u32);
        vstd::utf8::char_u32_cast(b[0], b[0] as u32);
    }
}

/// The ranking of hits is a strict order.
pub proof fn lemma_ranking_is_strict()
    ensures
        strict_order(ranking()),
{
    assert forall|a: ResultView| #![trigger ranking()(a, a)] !ranking()(a, a) by {
        lemma_title_less_irreflexive(a.title);
    }
    assert forall|a: ResultView, b: ResultView, c: ResultView| #[trigger] ranking()(a, b) && #[trigger] ranking()(b, c) implies ranking()(a, c) by {
        if match_rank(a.match_type) == match_rank(b.match_type) && match_rank(b.match_type) == match_rank(c.match_type)
            && a.score == b.score && b.score == c.score && a.modified == b.modified && b.modified == c.modified {
            lemma_title_less_transitive(a.title, b.title, c.title);
        }
    }
}

/// Compares two titles in code-point order.
pub fn title_precedes(a: &str, b: &str) -> (r: bool)
    ensures
        r == title_less(a@, b@),
{
    let x = chars_of(a);
    let y = chars_of(b);
    let mut i: usize = 0;
    assert(x@.skip(0) =~= x@ && y@.skip(0) =~= y@);
    while i < x.len() && i < y.len()
        invariant
            i <= x@.len() && i <= y@.len(),
            title_less(a@, b@) == title_less(x@.skip(i as int), y@.skip(i as int)),
            x@ == a@ && y@ == b@,
        decreases x.len() - i,
    {
        if x[i] != y[i] {
            return (x[i] as u32) < (y[i] as u32);
        }
        assert(x@.skip(i as int).drop_first() =~= x@.skip(i + 1));
        assert(y@.skip(i as int).drop_first() =~= y@.skip(i + 1));
        i += 1;
    }
    x.len() - i < y.len() - i
}

fn match_rank_of(m: MatchType) -> (r: u8)
    ensures
        r == match_rank(m),
{
    match m {
        MatchType::ExactTitle => 3,
        MatchType::PrefixTitle => 2,
        MatchType::FuzzyTitle => 1,
        MatchType::Content => 0,
    }
}

/// Tests whether one hit ranks before another.
pub fn result_ranks_before(a: &SearchResult, b: &SearchResult) -> (r: bool)
    ensures
        r == ranks_before(a@, b@),
{
    let ra = match_rank_of(a.match_type);
    let rb = match_rank_of(b.match_type);
    if ra != rb {
        return ra > rb;
    }
    if a.score != b.score {
        return a.score > b.score;
    }
    if a.modified != b.modified {
        return a.modified > b.modified;
    }
    title_precedes(a.title.as_str(), b.title.as_str())
}

impl SearchResult {
    /// A copy of the hit.
    pub fn copy(&self) -> (r: SearchResult)
        ensures
            r@ == self@,
    {
        SearchResult {
            filename: self.filename.clone(),
            title: self.title.clone(),
            score: self.score,
            match_type: self.match_type,
            modified: self.modified,
        }
    }
}

/// Sorts hits by rank, keeping the order of hits that rank alike.
pub fn sort_results(items: Vec<SearchResult>) -> (r: Vec<SearchResult>)
    ensures
        r@.map_values(|h: SearchResult| h@) == sorted_stable(
            items@.map_values(|h: SearchResult| h@),
            ranking(),
        ),
{
    let ghost input = items@.map_values(|h: SearchResult| h@);
    let mut out: Vec<SearchResult> = Vec::new();
    let mut i: usize = 0;
    assert(input.take(0) =~= Seq::<ResultView>::empty());
    while i < items.len()
        invariant
            i <= items@.len(),
            input == items@.map_values(|h: SearchResult| h@),
            out@.map_values(|h: SearchResult| h@) == sorted_stable(input.take(i as int), ranking()),
        decreases items.len() - i,
    {
        let x = items[i].copy();
        let ghost cur = out@.map_values(|h: SearchResult| h@);
        let mut p: usize = 0;
        while p < out.len() && !result_ranks_before(&x, &out[p])
            invariant
                p <= out@.len(),
                cur == out@.map_values(|h: SearchResult| h@),
                forall|j: int| 0 <= j < p ==> !ranks_before(x@, #[trigger] cur[j]),
            decreases out.len() - p,
        {
            p += 1;
        }
        proof {
            lemma_first_after_is(cur, x@, ranking(), p as int);
        }
        let ghost xv = x@;
        out.insert(p, x);
        assert(out@.map_values(|h: SearchResult| h@) =~= cur.insert(p as int, xv));
        assert(input.take(i + 1).drop_last() =~= input.take(i as int));
        assert(input.take(i + 1).last() == xv);
        i += 1;
    }
    assert(input.take(items@.len() as int) =~= input);
    out
}

/// Scores one candidate against the lowercased query.
pub fn score_candidate(c: &SearchCandidate, query_lower: &str) -> (r: Option<SearchResult>)
    requires
        encode_utf8(query_lower@).len() <= u32::MAX,
        content_score_fits(c.content_lower@, query_lower@),
    ensures
        r matches Some(h) ==> score_of(c@, query_lower@) == Some(h@),
        r is None ==> score_of(c@, query_lower@) is None,
{
    match score_title_match(c.title_lower.as_str(), c.filename_lower.as_str(), query_lower) {
        Some((score, match_type)) => Some(
            SearchResult {
                filename: c.filename.clone(),
                title: c.title.clone(),
                score,
                match_type,
                modified: c.modified,
            },
        ),
        None => match score_content_match(c.content_lower.as_str(), query_lower) {
            Some(score) => Some(
                SearchResult {
                    filename: c.filename.clone(),
                    title: c.title.clone(),
                    score,
                    match_type: MatchType::Content,
                    modified: c.modified,
                },
            ),
            None => None,
        },
    }
}

/// Scores the candidates against the lowercased query and gives the file names of the best
/// `max_results` hits, in rank order.
pub fn rank_candidates(cands: &Vec<SearchCandidate>, query_lower: &str, max_results: usize) -> (r: Vec<String>)
    requires
        encode_utf8(query_lower@).len() <= u32::MAX,
        forall|i: int| 0 <= i < cands@.len() ==> content_score_fits(#[trigger] cands@[i].content_lower@, query_lower@),
    ensures
        r@.map_values(|s: String| s@) == ranked_names(
            cands@.map_values(|c: SearchCandidate| c@),
            query_lower@,
            max_results as nat,
        ),
{
    let ghost cv = cands@.map_values(|c: SearchCandidate| c@);
    let mut found: Vec<SearchResult> = Vec::new();
    let mut i: usize = 0;
    assert(cv.take(0) =~= Seq::<CandidateView>::empty());
    while i < cands.len()
        invariant
            i <= cands@.len(),
            cv == cands@.map_values(|c: SearchCandidate| c@),
            encode_utf8(query_lower@).len() <= u32::MAX,
            forall|j: int| 0 <= j < cands@.len() ==> content_score_fits(#[trigger] cands@[j].content_lower@, query_lower@),
            found@.map_values(|h: SearchResult| h@) == hits(cv.take(i as int), query_lower@),
        decreases cands.len() - i,
    {
        let ghost before = found@.map_values(|h: SearchResult| h@);
        assert(cv.take(i + 1).drop_last() =~= cv.take(i as int));
        assert(cv.take(i + 1).last() == cands@[i as int]@);
        match score_candidate(&cands[i], query_lower) {
            Some(h) => {
                found.push(h);
                assert(found@.map_values(|h: SearchResult| h@) =~= before.push(h@));
            },
            None => {},
        }
        i += 1;
    }
    assert(cv.take(cands@.len() as int) =~= cv);
    let sorted = sort_results(found);
    let ghost sv = sorted@.map_values(|h: SearchResult| h@);
    let limit = if max_results < sorted.len() { max_results } else { sorted.len() };
    let mut out: Vec<String> = Vec::new();
    let mut k: usize = 0;
    while k < limit
        invariant
            k <= limit <= sorted@.len(),
            sv == sorted@.map_values(|h: SearchResult| h@),
            out@.map_values(|s: String| s@) == sv.take(k as int).map_values(|r: ResultView| r.filename),
        decreases limit - k,
    {
        let ghost before = out@.map_values(|s: String| s@);
        let name = sorted[k].filename.clone();
        assert(name@ == sv[k as int].filename);
        out.push(name);
        assert(out@.map_values(|s: String| s@) =~= before.push(sv[k as int].filename));
        assert(before.push(sv[k as int].filename) =~= sv.take(k + 1).map_values(|r: ResultView| r.filename));
        k += 1;
    }
    out
}

/// `w` begins a token of `text` at position `p`: it occurs there, and the character before
/// it, if any, is not alphanumeric.
pub open spec fn token_prefix_at(text: Seq<char>, w: Seq<char>, p: int) -> bool {
    occurs_at(text, w, p) && (p == 0 || !unicode_alphanumeric(text[p - 1]))
}

/// Some token of `text` begins with `w`.
pub open spec fn has_token_prefix(text: Seq<char>, w: Seq<char>) -> bool {
    exists|p: int| token_prefix_at(text, w, p)
}

/// Tests whether some token of `text` begins with `w`.
pub fn token_prefix_in(text: &Vec<char>, w: &Vec<char>) -> (r: bool)
    ensures
        r == has_token_prefix(text@, w@),
{
    if w.len() > text.len() {
        return false;
    }
    let last = text.len() - w.len();
    let mut p: usize = 0;
    while p <= last
        invariant
            last == text@.len() - w@.len(),
            w@.len() <= text@.len(),
            p <= last + 1,
            forall|j: int| 0 <= j < p ==> !token_prefix_at(text@, w@, j),
        decreases last + 1 - p,
    {
        if (p == 0 || !is_alphanumeric_char(text[p - 1])) && matches_at(text, w, p) {
            assert(token_prefix_at(text@, w@, p as int));
            return true;
        }
        if p == last {
            assert forall|j: int| !token_prefix_at(text@, w@, j) by {
                if 0 <= j <= p {
                }
            }
            return false;
        }
        p += 1;
    }
    false
}

/// The words that select candidates: the words of the sanitized, lowercased query.
pub open spec fn query_words(query: Seq<char>) -> Seq<Seq<char>> {
    words(unicode_lowercase(sanitized_query(query)))
}

/// The lowercased file name, content or rendered HTML of the record has a token that
/// begins with `w`.
pub open spec fn record_has_word(r: RecordView, w: Seq<char>) -> bool {
    ||| has_token_prefix(unicode_lowercase(r.filename), w)
    ||| has_token_prefix(unicode_lowercase(r.content), w)
    ||| has_token_prefix(unicode_lowercase(r.html_render), w)
}

/// The record holds one of the words.
pub open spec fn is_candidate(r: RecordView, ws: Seq<Seq<char>>) -> bool {
    exists|k: int| 0 <= k < ws.len() && record_has_word(r, #[trigger] ws[k])
}

/// [`is_candidate`] as a predicate on records.
pub open spec fn candidate_pred(ws: Seq<Seq<char>>) -> spec_fn(RecordView) -> bool {
    |r: RecordView| is_candidate(r, ws)
}

/// The title that search shows for a note: from its content, else from its file name.
pub open spec fn note_title(r: RecordView) -> Seq<char> {
    match title_from_content(r.content) {
        Some(t) => t,
        None => title_from_filename(r.filename),
    }
}

/// The candidate made from a record.
pub open spec fn candidate_of(r: RecordView) -> CandidateView {
    CandidateView {
        filename: r.filename,
        title: note_title(r),
        modified: r.modified,
        title_lower: unicode_lowercase(note_title(r)),
        filename_lower: unicode_lowercase(r.filename),
        content_lower: unicode_lowercase(r.content),
    }
}

/// At most this many candidates are scored.
pub const MAX_CANDIDATES: usize = 500;

/// The candidates for the words: the first [`MAX_CANDIDATES`] records, in index order,
/// that hold one of them. Where more records match, the ones scored are those that come
/// first in the index (the order in which notes were first recorded), not those a
/// full-text engine would rank as most relevant.
pub open spec fn candidates_for(s: Seq<RecordView>, ws: Seq<Seq<char>>) -> Seq<CandidateView> {
    let f = s.filter(candidate_pred(ws));
    f.take(if f.len() < MAX_CANDIDATES { f.len() as int } else { MAX_CANDIDATES as int }).map_values(
        |r: RecordView| candidate_of(r),
    )
}

fn record_holds_word(filename_lower: &Vec<char>, content_lower: &Vec<char>, html_lower: &Vec<char>, ws: &Vec<Vec<char>>) -> (r: bool)
    ensures
        r == exists|k: int| 0 <= k < ws@.len() && {
            ||| has_token_prefix(filename_lower@, #[trigger] ws@[k]@)
            ||| has_token_prefix(content_lower@, ws@[k]@)
            ||| has_token_prefix(html_lower@, ws@[k]@)
        },
{
    let mut k: usize = 0;
    while k < ws.len()
        invariant
            k <= ws@.len(),
            forall|j: int| 0 <= j < k ==> !{
                ||| has_token_prefix(filename_lower@, #[trigger] ws@[j]@)
                ||| has_token_prefix(content_lower@, ws@[j]@)
                ||| has_token_prefix(html_lower@, ws@[j]@)
            },
        decreases ws.len() - k,
    {
        if token_prefix_in(filename_lower, &ws[k]) || token_prefix_in(content_lower, &ws[k])
            || token_prefix_in(html_lower, &ws[k]) {
            return true;
        }
        k += 1;
    }
    false
}

fn candidate_from(r: &NoteRecord) -> (c: SearchCandidate)
    ensures
        c@ == candidate_of(r@),
{
    let title = match extract_title_from_content(r.content.as_str()) {
        Some(t) => t,
        None => extract_title_from_filename(r.filename.as_str()),
    };
    let title_lower = to_lowercase_text(title.as_str());
    SearchCandidate {
        filename: r.filename.clone(),
        title,
        modified: r.modified,
        title_lower,
        filename_lower: to_lowercase_text(r.filename.as_str()),
        content_lower: to_lowercase_text(r.content.as_str()),
    }
}

/// Finds the candidates for the lowercased query words: the first [`MAX_CANDIDATES`]
/// notes, in index order, whose lowercased file name, content or rendered HTML has a token
/// beginning with one of the words.
pub fn find_candidates(index: &NotesIndex, query_words: &Vec<String>) -> (r: Vec<SearchCandidate>)
    ensures
        r@.map_values(|c: SearchCandidate| c@) == candidates_for(
            index@,
            query_words@.map_values(|w: String| w@),
        ),
{
    let ghost ws = query_words@.map_values(|w: String| w@);
    let mut wv: Vec<Vec<char>> = Vec::new();
    let mut k: usize = 0;
    while k < query_words.len()
        invariant
            k <= query_words@.len(),
            wv@.len() == k,
            forall|j: int| 0 <= j < k ==> #[trigger] wv@[j]@ == query_words@[j]@,
        decreases query_words.len() - k,
    {
        wv.push(chars_of(query_words[k].as_str()));
        k += 1;
    }
    let ghost s = index@;
    let ghost pred = candidate_pred(ws);
    let mut out: Vec<SearchCandidate> = Vec::new();
    let mut i: usize = 0;
    assert(s.take(0) =~= Seq::<RecordView>::empty());
    assert(s.take(0).filter(pred) =~= Seq::<RecordView>::empty()) by {
        reveal(Seq::filter);
    }
    while i < index.len()
        invariant
            i <= s.len(),
            s == index@,
            ws == query_words@.map_values(|w: String| w@),
            wv@.len() == ws.len(),
            forall|j: int| 0 <= j < ws.len() ==> #[trigger] wv@[j]@ == ws[j],
            pred == candidate_pred(ws),
            out@.map_values(|c: SearchCandidate| c@) == candidates_for(s.take(i as int), ws),
        decreases s.len() - i,
    {
        let rec = index.get(i);
        let ghost f = s.take(i as int).filter(pred);
        let ghost before = out@.map_values(|c: SearchCandidate| c@);
        proof {
            assert(s.take(i + 1) =~= s.take(i as int).push(rec@));
            s.take(i as int).lemma_filter_push(rec@, pred);
        }
        if out.len() < MAX_CANDIDATES {
            let fl = chars_of(to_lowercase_text(rec.filename.as_str()).as_str());
            let cl = chars_of(to_lowercase_text(rec.content.as_str()).as_str());
            let hl = chars_of(to_lowercase_text(rec.html_render.as_str()).as_str());
            let hit = record_holds_word(&fl, &cl, &hl, &wv);
            assert(hit == is_candidate(rec@, ws)) by {
                if hit {
                    let k = choose|k: int| 0 <= k < wv@.len() && {
                        ||| has_token_prefix(fl@, #[trigger] wv@[k]@)
                        ||| has_token_prefix(cl@, wv@[k]@)
                        ||| has_token_prefix(hl@, wv@[k]@)
                    };
                    assert(record_has_word(rec@, ws[k]));
                }
                if is_candidate(rec@, ws) {
                    let k = choose|k: int| 0 <= k < ws.len() && record_has_word(rec@, #[trigger] ws[k]);
                    assert(wv@[k]@ == ws[k]);
                }
            }
            if hit {
                let c = candidate_from(rec);
                out.push(c);
                assert(out@.map_values(|c: SearchCandidate| c@) =~= before.push(candidate_of(rec@)));
                assert(f.push(rec@).take((f.len() + 1) as int) =~= f.push(rec@));
                assert(f.take(f.len() as int) =~= f);
                assert(f.push(rec@).map_values(|r: RecordView| candidate_of(r)) =~= f.map_values(|r: RecordView| candidate_of(r)).push(candidate_of(rec@)));
            }
        } else {
            assert(before.len() == out@.len());
            assert(f.len() >= MAX_CANDIDATES);
            assert(f.push(rec@).take(MAX_CANDIDATES as int) =~= f.take(MAX_CANDIDATES as int));
        }
        i += 1;
    }
    assert(s.take(s.len() as int) =~= s);
    out
}

/// The file names of the `max` most recently modified notes.
pub open spec fn recent_names(s: Seq<RecordView>, max: nat) -> Seq<Seq<char>> {
    let n = names_by_recency_spec(s);
    n.take(if max < n.len() { max as int } else { n.len() as int })
}

/// The file names of the `max_results` most recently modified notes, as a blank query
/// gives them.
pub fn recent_notes(index: &NotesIndex, max_results: usize) -> (r: Vec<String>)
    ensures
        r@.map_values(|s: String| s@) == recent_names(index@, max_results as nat),
{
    let all = index.names_by_recency();
    let ghost av = all@.map_values(|s: String| s@);
    let limit = if max_results < all.len() { max_results } else { all.len() };
    let mut out: Vec<String> = Vec::new();
    let mut k: usize = 0;
    while k < limit
        invariant
            k <= limit <= all@.len(),
            av == all@.map_values(|s: String| s@),
            out@.map_values(|s: String| s@) == av.take(k as int),
        decreases limit - k,
    {
        let ghost before = out@.map_values(|s: String| s@);
        let name = all[k].clone();
        assert(name@ == av[k as int]);
        out.push(name);
        assert(out@.map_values(|s: String| s@) =~= before.push(av[k as int]));
        assert(before.push(av[k as int]) =~= av.take(k + 1));
        k += 1;
    }
    out
}

/// The search can score every candidate: the lowercased query takes at most `u32::MAX`
/// bytes in UTF-8 and no content score overflows.
pub open spec fn search_fits(s: Seq<RecordView>, query: Seq<char>) -> bool {
    let q = unicode_lowercase(query);
    let cands = candidates_for(s, query_words(query));
    &&& encode_utf8(q).len() <= u32::MAX
    &&& forall|i: int| 0 <= i < cands.len() ==> content_score_fits(#[trigger] cands[i].content_lower, q)
}

/// What the search answers where it cannot score the candidates.
pub open spec fn too_large_message() -> Seq<char> {
    "Search query is too large to score"@
}

fn content_fits(content: &Vec<char>, q: &Vec<char>) -> (r: bool)
    ensures
        r == content_score_fits(content@, q@),
{
    if q.len() == 0 {
        content.len() < MAX_CONTENT_MATCHES
    } else {
        count_occurrences(content, q) <= MAX_CONTENT_MATCHES
    }
}

/// Searches the notes. A blank query gives the most recently modified notes; any other
/// query gives the best `max_results` hits among the candidates for its words, in rank
/// order.
pub fn search_notes_hybrid(index: &NotesIndex, query: &str, max_results: usize) -> (r: Result<Vec<String>, AppError>)
    ensures
        is_blank(query@) ==> (r matches Ok(v) && v@.map_values(|s: String| s@) == recent_names(
            index@,
            max_results as nat,
        )),
        !is_blank(query@) && search_fits(index@, query@) ==> (r matches Ok(v) && v@.map_values(
            |s: String| s@,
        ) == ranked_names(
            candidates_for(index@, query_words(query@)),
            unicode_lowercase(query@),
            max_results as nat,
        )),
        !is_blank(query@) && !search_fits(index@, query@) ==> (r matches Err(e) && e@
            == AppErrorView::SearchQuery(too_large_message())),
{
    let qc = chars_of(query);
    if is_blank_chars(&qc) {
        return Ok(recent_notes(index, max_results));
    }
    let sanitized = sanitize_fts_query(query);
    let lowered = to_lowercase_text(sanitized.as_str());
    let words = split_words(&chars_of(lowered.as_str()));
    let cands = find_candidates(index, &words);
    let ghost cv = cands@.map_values(|c: SearchCandidate| c@);
    let query_lower = to_lowercase_text(query);
    let ql = chars_of(query_lower.as_str());
    let mut fits = crate::text::utf8_len_at_most(&ql, 4294967295u64);
    let mut i: usize = 0;
    while fits && i < cands.len()
        invariant
            i <= cands@.len(),
            cv == cands@.map_values(|c: SearchCandidate| c@),
            ql@ == query_lower@,
            fits ==> encode_utf8(ql@).len() <= u32::MAX,
            fits ==> forall|j: int| 0 <= j < i ==> content_score_fits(#[trigger] cands@[j].content_lower@, ql@),
            !fits ==> !search_fits(index@, query@),
            cv == candidates_for(index@, query_words(query@)),
            query_lower@ == unicode_lowercase(query@),
        decreases cands.len() - i,
    {
        let cc = chars_of(cands[i].content_lower.as_str());
        if !content_fits(&cc, &ql) {
            assert(cv[i as int].content_lower == cands@[i as int].content_lower@);
            fits = false;
        }
        i += 1;
    }
    if !fits {
        return Err(AppError::SearchQuery(owned("Search query is too large to score")));
    }
    assert forall|j: int| 0 <= j < cv.len() implies content_score_fits(#[trigger] cv[j].content_lower, unicode_lowercase(query@)) by {
        assert(cv[j].content_lower == cands@[j].content_lower@);
    }
    Ok(rank_candidates(&cands, query_lower.as_str(), max_results))
}

/// A search gives at most `max` file names, and a blank query at most `max` recent ones.
pub proof fn law_results_bounded(cands: Seq<CandidateView>, q: Seq<char>, max: nat, s: Seq<RecordView>)
    ensures
        ranked_names(cands, q, max).len() <= max,
        recent_names(s, max).len() <= max,
{
}

/// The hits of a search come in rank order, and they are the scored candidates, each as
/// often as it was scored.
pub proof fn law_results_ranked(cands: Seq<CandidateView>, q: Seq<char>)
    ensures
        crate::ordering::is_ordered(sorted_stable(hits(cands, q), ranking()), ranking()),
        sorted_stable(hits(cands, q), ranking()).to_multiset() == hits(cands, q).to_multiset(),
{
    lemma_ranking_is_strict();
    crate::ordering::lemma_sorted_is_ordered(hits(cands, q), ranking());
    crate::ordering::lemma_sorted_is_permutation(hits(cands, q), ranking());
}

proof fn lemma_hits_from_candidates(cands: Seq<CandidateView>, q: Seq<char>, k: int)
    requires
        0 <= k < hits(cands, q).len(),
    ensures
        exists|m: int| 0 <= m < cands.len() && (#[trigger] cands[m]).filename == hits(cands, q)[k].filename,
    decreases cands.len(),
{
    let h = hits(cands.drop_last(), q);
    if k < h.len() {
        lemma_hits_from_candidates(cands.drop_last(), q, k);
        let m = choose|m: int| 0 <= m < cands.drop_last().len() && (#[trigger] cands.drop_last()[m]).filename == h[k].filename;
        assert(cands[m] == cands.drop_last()[m]);
    } else {
        assert(cands[cands.len() - 1] == cands.last());
    }
}

/// Every file name that a search gives names a note of the index.
pub proof fn law_results_are_notes(s: Seq<RecordView>, ws: Seq<Seq<char>>, q: Seq<char>, max: nat, i: int)
    requires
        0 <= i < ranked_names(candidates_for(s, ws), q, max).len(),
    ensures
        exists|m: int| 0 <= m < s.len() && (#[trigger] s[m]).filename == ranked_names(candidates_for(s, ws), q, max)[i],
{
    let cands = candidates_for(s, ws);
    let h = hits(cands, q);
    let sorted = sorted_stable(h, ranking());
    let name = ranked_names(cands, q, max)[i];
    assert(name == sorted[i].filename);
    assert(sorted.contains(sorted[i]));
    crate::ordering::lemma_sorted_members(h, ranking(), sorted[i]);
    let k = choose|k: int| 0 <= k < h.len() && h[k] == sorted[i];
    lemma_hits_from_candidates(cands, q, k);
    let m = choose|m: int| 0 <= m < cands.len() && (#[trigger] cands[m]).filename == h[k].filename;
    let f = s.filter(candidate_pred(ws));
    assert(cands[m] == candidate_of(f[m]));
    assert(f.contains(f[m]));
    s.lemma_filter_contains_rev(candidate_pred(ws), f[m]);
    let j = choose|j: int| 0 <= j < s.len() && s[j] == f[m];
    assert(s[j].filename == name);
}

// ---------------------------------------------------------------------------------------
// Laws of candidate selection and titles
// ---------------------------------------------------------------------------------------

proof fn lemma_first_line_of(x: Seq<char>, y: Seq<char>)
    requires
        forall|i: int| 0 <= i < x.len() ==> x[i] != '\n',
        y.len() == 0 || y[0] == '\n',
    ensures
        crate::strings::first_line_len(x + y) == x.len(),
    decreases x.len(),
{
    if x.len() > 0 {
        assert((x + y).drop_first() =~= x.drop_first() + y);
        lemma_first_line_of(x.drop_first(), y);
    } else {
        assert(x + y =~= y);
    }
}

proof fn lemma_strip_hashes_of(h: Seq<char>, x: Seq<char>)
    requires
        forall|i: int| 0 <= i < h.len() ==> h[i] == '#',
        x.len() == 0 || x[0] != '#',
    ensures
        crate::strings::strip_leading_hashes(h + x) == x,
    decreases h.len(),
{
    if h.len() > 0 {
        assert((h + x).drop_first() =~= h.drop_first() + x);
        lemma_strip_hashes_of(h.drop_first(), x);
    } else {
        assert(h + x =~= x);
    }
}

proof fn lemma_trim_start_of(sp: Seq<char>, t: Seq<char>)
    requires
        forall|i: int| 0 <= i < sp.len() ==> is_ws(sp[i]),
        t.len() > 0,
        !is_ws(t[0]),
    ensures
        crate::strings::trim_start(sp + t) == t,
    decreases sp.len(),
{
    if sp.len() > 0 {
        assert((sp + t).drop_first() =~= sp.drop_first() + t);
        lemma_trim_start_of(sp.drop_first(), t);
    } else {
        assert(sp + t =~= t);
    }
}

/// Blank lines in front of a text do not change the title it gives.
proof fn lemma_blank_lines_skipped(b: Seq<char>, x: Seq<char>)
    requires
        forall|i: int| 0 <= i < b.len() ==> is_ws(#[trigger] b[i]),
        b.len() == 0 || b.last() == '\n',
    ensures
        title_from_content(b + x) == title_from_content(x),
    decreases b.len(),
{
    if b.len() > 0 {
        let s = b + x;
        let k = crate::strings::first_line_len(s);
        crate::strings::lemma_first_line_len_bounds(s);
        assert(s[b.len() - 1] == '\n');
        assert(k < b.len()) by {
            if k >= b.len() {
                assert(s[b.len() - 1] != '\n');
            }
        }
        assert(is_blank(s.take(k))) by {
            assert forall|i: int| 0 <= i < s.take(k).len() implies is_ws(#[trigger] s.take(k)[i]) by {
                assert(s.take(k)[i] == b[i]);
            }
        }
        let b2 = b.skip(k + 1);
        assert(s.skip(k + 1) =~= b2 + x);
        assert(b2.len() == 0 || b2.last() == '\n') by {
            if b2.len() > 0 {
                assert(b2.last() == b.last());
            }
        }
        assert forall|i: int| 0 <= i < b2.len() implies is_ws(#[trigger] b2[i]) by {
            assert(b2[i] == b[i + k + 1]);
        }
        lemma_blank_lines_skipped(b2, x);
    } else {
        assert(b + x =~= x);
    }
}

/// A note whose first line that is not blank is a heading (`#` marks, optional white
/// space, then the title text) is titled by that text, whatever its file name: a search
/// scores it, and shows it, by the heading.
pub proof fn law_heading_titles_the_note(
    r: RecordView,
    blank_lines: Seq<char>,
    h: Seq<char>,
    sp: Seq<char>,
    t: Seq<char>,
    rest: Seq<char>,
)
    requires
        forall|i: int| 0 <= i < blank_lines.len() ==> is_ws(#[trigger] blank_lines[i]),
        blank_lines.len() == 0 || blank_lines.last() == '\n',
        forall|i: int| 0 <= i < h.len() ==> h[i] == '#',
        forall|i: int| 0 <= i < sp.len() ==> is_ws(#[trigger] sp[i]) && sp[i] != '\n',
        t.len() > 0,
        !is_ws(t[0]),
        t[0] != '#',
        !is_ws(t[t.len() - 1]),
        forall|i: int| 0 <= i < t.len() ==> t[i] != '\n',
        rest.len() == 0 || rest[0] == '\n',
        r.content == blank_lines + h + sp + t + rest,
    ensures
        candidate_of(r).title == t,
        candidate_of(r).title_lower == unicode_lowercase(t),
{
    let line = h + sp + t;
    let c = line + rest;
    assert(r.content =~= blank_lines + c);
    lemma_blank_lines_skipped(blank_lines, c);
    assert forall|i: int| 0 <= i < line.len() implies line[i] != '\n' by {
        if i < h.len() {
            assert(line[i] == h[i]);
        } else if i < h.len() + sp.len() {
            assert(line[i] == sp[i - h.len()]);
        } else {
            assert(line[i] == t[i - h.len() - sp.len()]);
        }
    }
    lemma_first_line_of(line, rest);
    assert(c.take(line.len() as int) =~= line);
    assert(line[(h.len() + sp.len()) as int] == t[0]);
    assert(!is_blank(line));
    assert(h + sp + t =~= h + (sp + t));
    assert((sp + t)[0] != '#') by {
        if sp.len() > 0 {
            assert((sp + t)[0] == sp[0]);
        } else {
            assert((sp + t)[0] == t[0]);
        }
    }
    lemma_strip_hashes_of(h, sp + t);
    lemma_trim_start_of(sp, t);
    assert(t.last() == t[t.len() - 1]);
    assert(crate::strings::trim_end(t) == t);
    assert(title_from_content(c) == Some(t));
}

/// A note whose content is blank is titled from its file name.
pub proof fn law_blank_note_titled_by_name(r: RecordView)
    requires
        is_blank(r.content),
    ensures
        candidate_of(r).title == title_from_filename(r.filename),
{
    lemma_blank_has_no_title(r.content);
}

proof fn lemma_blank_has_no_title(s: Seq<char>)
    requires
        is_blank(s),
    ensures
        title_from_content(s) is None,
    decreases s.len(),
{
    let k = crate::strings::first_line_len(s);
    crate::strings::lemma_first_line_len_bounds(s);
    assert(is_blank(s.take(k))) by {
        assert forall|i: int| 0 <= i < s.take(k).len() implies is_ws(#[trigger] s.take(k)[i]) by {
            assert(s.take(k)[i] == s[i]);
        }
    }
    if k < s.len() {
        assert(is_blank(s.skip(k + 1))) by {
            assert forall|i: int| 0 <= i < s.skip(k + 1).len() implies is_ws(#[trigger] s.skip(k + 1)[i]) by {
                assert(s.skip(k + 1)[i] == s[i + k + 1]);
            }
        }
        lemma_blank_has_no_title(s.skip(k + 1));
    }
}

/// A query word selects every note with a token that starts with it, in its lowercased
/// file name, content or rendered HTML: the word may be the whole token or only its
/// beginning (`mark` selects a note holding `markdown`). Where the index holds at most
/// [`MAX_CANDIDATES`] notes, every such note is among the candidates that search scores.
pub proof fn law_word_selects_notes_with_token_starting_with_it(
    s: Seq<RecordView>,
    r: RecordView,
    ws: Seq<Seq<char>>,
    k: int,
    before: Seq<char>,
    after: Seq<char>,
)
    requires
        0 <= k < ws.len(),
        before.len() == 0 || !unicode_alphanumeric(before.last()),
        unicode_lowercase(r.filename) == before + ws[k] + after
            || unicode_lowercase(r.content) == before + ws[k] + after
            || unicode_lowercase(r.html_render) == before + ws[k] + after,
    ensures
        is_candidate(r, ws),
        s.contains(r) && s.len() <= MAX_CANDIDATES ==> candidates_for(s, ws).contains(candidate_of(r)),
{
    let text = before + ws[k] + after;
    let p = before.len() as int;
    assert(text.subrange(p, p + ws[k].len()) =~= ws[k]);
    if p > 0 {
        assert(text[p - 1] == before.last());
    }
    assert(token_prefix_at(text, ws[k], p));
    assert(record_has_word(r, ws[k]));
    assert(is_candidate(r, ws));
    if s.contains(r) && s.len() <= MAX_CANDIDATES {
        let pred = candidate_pred(ws);
        let i = choose|i: int| 0 <= i < s.len() && s[i] == r;
        assert(pred(s[i]));
        s.lemma_filter_contains(pred, i);
        let f = s.filter(pred);
        s.lemma_filter_len(pred);
        assert(f.take(f.len() as int) =~= f);
        let j = choose|j: int| 0 <= j < f.len() && f[j] == r;
        let c = candidates_for(s, ws);
        assert(c[j] == candidate_of(r));
    }
}

/// A note in whose lowercased file name, content and rendered HTML no query word occurs
/// at all is never a candidate, so search never returns it for a query that is not blank.
pub proof fn law_note_without_the_words_is_not_selected(s: Seq<RecordView>, r: RecordView, ws: Seq<Seq<char>>)
    requires
        forall|k: int| 0 <= k < ws.len() ==> {
            &&& !seq_contains(unicode_lowercase(r.filename), #[trigger] ws[k])
            &&& !seq_contains(unicode_lowercase(r.content), ws[k])
            &&& !seq_contains(unicode_lowercase(r.html_render), ws[k])
        },
    ensures
        !is_candidate(r, ws),
        !s.filter(candidate_pred(ws)).contains(r),
{
    if is_candidate(r, ws) {
        let k = choose|k: int| 0 <= k < ws.len() && record_has_word(r, #[trigger] ws[k]);
        let w = ws[k];
        if has_token_prefix(unicode_lowercase(r.filename), w) {
            let p = choose|p: int| token_prefix_at(unicode_lowercase(r.filename), w, p);
            assert(crate::text::occurs_at(unicode_lowercase(r.filename), w, p));
        } else if has_token_prefix(unicode_lowercase(r.content), w) {
            let p = choose|p: int| token_prefix_at(unicode_lowercase(r.content), w, p);
            assert(crate::text::occurs_at(unicode_lowercase(r.content), w, p));
        } else {
            let p = choose|p: int| token_prefix_at(unicode_lowercase(r.html_render), w, p);
            assert(crate::text::occurs_at(unicode_lowercase(r.html_render), w, p));
        }
    }
    if s.filter(candidate_pred(ws)).contains(r) {
        let f = s.filter(candidate_pred(ws));
        let j = choose|j: int| 0 <= j < f.len() && f[j] == r;
        s.lemma_filter_pred(candidate_pred(ws), j);
    }
}

} // verus!
