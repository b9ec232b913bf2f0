//! Completing template calls (`[@...`) and fragment calls (`[[...`): what the
//! cursor is completing, how well a name matches the typed query, and the order
//! of the candidates.
use vstd::prelude::*;
use crate::studio::rename::{definition_name, template_definition_name};
use crate::studio::keystroke::{key_stroke_matches, spec_stroke, KeyCode, KeyEvent, KeyStroke};
use crate::text::{
    ascii_lowercase, chars_of, is_ascii_alnum, is_ascii_alphanumeric, is_prefix, slice_vec, split_lines,
    starts_with, string_of, string_views, to_lower, views, first_where, lemma_first_where,
};

verus! {

/// The most candidates the completion list shows.
pub const MAX_COMPLETION_ITEMS: usize = 8;

/// What is being completed.
#[derive(Clone, Copy, Debug, PartialEq, Eq, Structural)]
pub enum CompletionTrigger {
    TemplateCall,
    FragmentCall,
}

/// Where a candidate comes from; earlier kinds rank first on equal scores.
#[derive(Clone, Copy, Debug, PartialEq, Eq, Structural)]
pub enum CandidateSourceOrder {
    LocalTemplate,
    LibraryTemplate,
    Fragment,
}

impl CandidateSourceOrder {
    /// The rank of the kind.
    pub open spec fn rank(self) -> int {
        match self {
            CandidateSourceOrder::LocalTemplate => 0,
            CandidateSourceOrder::LibraryTemplate => 1,
            CandidateSourceOrder::Fragment => 2,
        }
    }

    fn rank_exec(self) -> (r: u8)
        ensures
            r as int == self.rank(),
    {
        match self {
            CandidateSourceOrder::LocalTemplate => 0,
            CandidateSourceOrder::LibraryTemplate => 1,
            CandidateSourceOrder::Fragment => 2,
        }
    }
}

/// A completion candidate: the name it matches on, the text it inserts, a label
/// and where it comes from.
#[derive(Debug)]
pub struct CompletionCandidate {
    pub name: String,
    pub insert_text: String,
    pub label: &'static str,
    pub source_order: CandidateSourceOrder,
}

/// The completion the text before the cursor asks for: its kind, the column of
/// its opening `[`, and the query typed after `[@` or `[[`.
#[derive(Debug)]
pub struct ActiveTrigger {
    pub kind: CompletionTrigger,
    pub anchor_col: usize,
    pub query: String,
}

// ---------------------------------------------------------------------------
// Triggers
// ---------------------------------------------------------------------------

/// A query character: ASCII letter or digit, `-`, `_` or `.`.
pub open spec fn query_char(c: char) -> bool {
    is_ascii_alnum(c) || c == '-' || c == '_' || c == '.'
}

/// The last column `i` with `s[i] == a` and `s[i + 1] == b`.
pub open spec fn last_pair(s: Seq<char>, a: char, b: char) -> Option<int>
    decreases s.len(),
{
    if s.len() < 2 {
        None
    } else if s[s.len() - 2] == a && s[s.len() - 1] == b {
        Some(s.len() - 2)
    } else {
        last_pair(s.drop_last(), a, b)
    }
}

/// The completion active at column `col` of `line`: in the text before the
/// cursor, the last `[@` (else the last `[[`), when all that follows it is a
/// query.
pub open spec fn spec_trigger(line: Seq<char>, col: int) -> Option<(CompletionTrigger, int, Seq<char>)> {
    let prefix = line.take(if col < line.len() { col } else { line.len() as int });
    let found = match last_pair(prefix, '[', '@') {
        Some(i) => Some((CompletionTrigger::TemplateCall, i)),
        None => match last_pair(prefix, '[', '[') {
            Some(i) => Some((CompletionTrigger::FragmentCall, i)),
            None => None,
        },
    };
    match found {
        None => None,
        Some((k, i)) => {
            let q = prefix.skip(i + 2);
            if all_query(q) {
                Some((k, i, q))
            } else {
                None
            }
        },
    }
}

/// Every character of `q` is a query character.
pub open spec fn all_query(q: Seq<char>) -> bool {
    forall|j: int| 0 <= j < q.len() ==> query_char(#[trigger] q[j])
}

proof fn lemma_last_pair_bound(s: Seq<char>, a: char, b: char)
    ensures
        last_pair(s, a, b) matches Some(i) ==> 0 <= i && i + 2 <= s.len(),
    decreases s.len(),
{
    if s.len() >= 2 && !(s[s.len() - 2] == a && s[s.len() - 1] == b) {
        lemma_last_pair_bound(s.drop_last(), a, b);
    }
}

fn find_last_pair(v: &Vec<char>, a: char, b: char) -> (r: Option<usize>)
    ensures
        match last_pair(v@, a, b) {
            Some(i) => r == Some(i as usize),
            None => r is None,
        },
{
    let mut n: usize = v.len();
    assert(v@.take(n as int) =~= v@);
    while n >= 2
        invariant
            n <= v.len(),
            last_pair(v@, a, b) == last_pair(v@.take(n as int), a, b),
        decreases n,
    {
        assert(v@.take(n as int).drop_last() =~= v@.take(n - 1));
        if v[n - 2] == a && v[n - 1] == b {
            return Some(n - 2);
        }
        n -= 1;
    }
    None
}

/// The completion active at column `cursor_col` of `line`.
pub fn completion_trigger_before_cursor(line: &str, cursor_col: usize) -> (r: Option<ActiveTrigger>)
    ensures
        match spec_trigger(line@, cursor_col as int) {
            Some((k, i, q)) => r matches Some(t) && t.kind == k && t.anchor_col == i && t.query@ == q,
            None => r is None,
        },
{
    let v = chars_of(line);
    let end = if cursor_col < v.len() {
        cursor_col
    } else {
        v.len()
    };
    let prefix = slice_vec(&v, 0, end);
    assert(prefix@ =~= line@.take(end as int));
    proof {
        lemma_last_pair_bound(prefix@, '[', '@');
        lemma_last_pair_bound(prefix@, '[', '[');
    }
    let (kind, anchor) = match find_last_pair(&prefix, '[', '@') {
        Some(i) => (CompletionTrigger::TemplateCall, i),
        None => match find_last_pair(&prefix, '[', '[') {
            Some(i) => (CompletionTrigger::FragmentCall, i),
            None => {
                return None;
            },
        },
    };
    let query = slice_vec(&prefix, anchor + 2, prefix.len());
    assert(query@ =~= prefix@.skip(anchor + 2));
    let mut j: usize = 0;
    while j < query.len()
        invariant
            j <= query.len(),
            spec_trigger(line@, cursor_col as int) == (if all_query(query@) {
                Some((kind, anchor as int, query@))
            } else {
                None
            }),
            forall|k: int| 0 <= k < j ==> query_char(#[trigger] query@[k]),
        decreases query.len() - j,
    {
        let c = query[j];
        if !(is_ascii_alphanumeric(c) || c == '-' || c == '_' || c == '.') {
            assert(!query_char(query@[j as int]));
            assert(!all_query(query@));
            return None;
        }
        j += 1;
    }
    Some(ActiveTrigger { kind, anchor_col: anchor, query: string_of(&query) })
}

/// Whether every character of `query` is a query character.
pub fn is_valid_completion_query(query: &str) -> (b: bool)
    ensures
        b == forall|k: int| 0 <= k < query@.len() ==> query_char(#[trigger] query@[k]),
{
    let v = chars_of(query);
    let mut j: usize = 0;
    while j < v.len()
        invariant
            j <= v.len(),
            v@ == query@,
            forall|k: int| 0 <= k < j ==> query_char(#[trigger] v@[k]),
        decreases v.len() - j,
    {
        let c = v[j];
        if !(is_ascii_alphanumeric(c) || c == '-' || c == '_' || c == '.') {
            return false;
        }
        j += 1;
    }
    true
}

// ---------------------------------------------------------------------------
// Scores
// ---------------------------------------------------------------------------

/// The number of UTF-8 bytes of a character.
pub open spec fn utf8_len(c: char) -> nat {
    if (c as u32) < 0x80 {
        1
    } else if (c as u32) < 0x800 {
        2
    } else if (c as u32) < 0x10000 {
        3
    } else {
        4
    }
}

/// The number of UTF-8 bytes of a text.
pub open spec fn byte_len(s: Seq<char>) -> nat
    decreases s.len(),
{
    if s.len() == 0 {
        0
    } else {
        byte_len(s.drop_last()) + utf8_len(s.last())
    }
}

/// The ASCII lower-case of a text.
pub open spec fn lower(s: Seq<char>) -> Seq<char> {
    s.map_values(|c: char| to_lower(c))
}

/// The first column from `from` on that holds `ch`.
pub open spec fn next_match(c: Seq<char>, from: int, ch: char) -> Option<int>
    decreases c.len() - from,
{
    if from < 0 || from >= c.len() {
        None
    } else if c[from] == ch {
        Some(from)
    } else {
        next_match(c, from + 1, ch)
    }
}

/// The bonus of a match at column `j`: 5 when it follows the previous match
/// directly in the text's bytes, 3 at the start or after `.`, `-` or `_`.
pub open spec fn match_bonus(c: Seq<char>, prev: Option<int>, j: int) -> int {
    let follows = match prev {
        Some(p) => p + 1 == j && utf8_len(c[p]) == 1,
        None => false,
    };
    (if follows { 5int } else { 0int }) + (if j == 0 || c[j - 1] == '.' || c[j - 1] == '-' || c[j - 1] == '_' {
        3int
    } else {
        0int
    })
}

/// The score of matching `q[qi..]` in order against `c[from..]`, each character at
/// its first place after the previous one: 10 per character plus its bonus.
pub open spec fn fuzzy_from(q: Seq<char>, c: Seq<char>, qi: int, from: int, prev: Option<int>) -> Option<int>
    decreases q.len() - qi,
{
    if qi < 0 || qi >= q.len() {
        Some(0)
    } else {
        match next_match(c, from, q[qi]) {
            None => None,
            Some(j) => match fuzzy_from(q, c, qi + 1, j + 1, Some(j)) {
                None => None,
                Some(rest) => Some(10 + match_bonus(c, prev, j) + rest),
            },
        }
    }
}

/// How well `candidate` matches `query`: 0 for an empty query; for a prefix
/// (ignoring ASCII case), 10000 minus the candidate's byte length; for a
/// subsequence, its match score minus that length; else no match.
pub open spec fn spec_fuzzy_score(query: Seq<char>, candidate: Seq<char>) -> Option<int> {
    if query.len() == 0 {
        Some(0)
    } else {
        let q = lower(query);
        let c = lower(candidate);
        if is_prefix(q, c) {
            Some(10000 - byte_len(c))
        } else {
            match fuzzy_from(q, c, 0, 0, None) {
                Some(s) => Some(s - byte_len(c)),
                None => None,
            }
        }
    }
}

proof fn lemma_lower_len(s: Seq<char>)
    ensures
        byte_len(lower(s)) == byte_len(s),
    decreases s.len(),
{
    if s.len() > 0 {
        assert(lower(s).drop_last() =~= lower(s.drop_last()));
        lemma_lower_len(s.drop_last());
    }
}

fn utf8_len_exec(c: char) -> (r: u64)
    ensures
        r == utf8_len(c),
{
    let u = c as u32;
    if u < 0x80 {
        1
    } else if u < 0x800 {
        2
    } else if u < 0x10000 {
        3
    } else {
        4
    }
}

fn byte_len_exec(v: &Vec<char>) -> (r: u64)
    requires
        v.len() <= 0x1000_0000_0000,
    ensures
        r == byte_len(v@),
{
    let mut n: u64 = 0;
    let mut i: usize = 0;
    while i < v.len()
        invariant
            i <= v.len() <= 0x1000_0000_0000,
            n == byte_len(v@.take(i as int)),
            n <= 4 * i,
        decreases v.len() - i,
    {
        assert(v@.take(i + 1).drop_last() =~= v@.take(i as int));
        n = n + utf8_len_exec(v[i]);
        i += 1;
    }
    assert(v@.take(v.len() as int) =~= v@);
    n
}

fn lower_chars(v: &Vec<char>) -> (r: Vec<char>)
    ensures
        r@ == lower(v@),
{
    let mut r: Vec<char> = Vec::new();
    let mut i: usize = 0;
    while i < v.len()
        invariant
            i <= v.len(),
            r@ == lower(v@.take(i as int)),
        decreases v.len() - i,
    {
        r.push(ascii_lowercase(v[i]));
        i += 1;
        assert(r@ =~= lower(v@.take(i as int)));
    }
    assert(v@.take(v.len() as int) =~= v@);
    r
}

proof fn lemma_fuzzy_bound(q: Seq<char>, c: Seq<char>, qi: int, from: int, prev: Option<int>)
    requires
        0 <= qi,
    ensures
        fuzzy_from(q, c, qi, from, prev) matches Some(s) ==> 0 <= s <= 18 * (q.len() - qi) || qi >= q.len(),
    decreases q.len() - qi,
{
    if qi < q.len() {
        if let Some(j) = next_match(c, from, q[qi]) {
            lemma_fuzzy_bound(q, c, qi + 1, j + 1, Some(j));
        }
    }
}

proof fn lemma_next_match(c: Seq<char>, from: int, ch: char)
    ensures
        next_match(c, from, ch) matches Some(j) ==> from <= j < c.len() && c[j] == ch,
    decreases c.len() - from,
{
    if 0 <= from < c.len() && c[from] != ch {
        lemma_next_match(c, from + 1, ch);
    }
}

/// How well `candidate` matches `query`.
pub fn fuzzy_score(query: &str, candidate: &str) -> (r: Option<i32>)
    requires
        query@.len() <= 100_000_000,
        candidate@.len() <= 0x1000_0000_0000,
        byte_len(candidate@) <= 0x7fff_ffff,
    ensures
        match spec_fuzzy_score(query@, candidate@) {
            Some(s) => r == Some(s as i32) && i32::MIN <= s <= i32::MAX,
            None => r is None,
        },
{
    let qv = chars_of(query);
    if qv.len() == 0 {
        return Some(0);
    }
    let q = lower_chars(&qv);
    let c = lower_chars(&chars_of(candidate));
    proof {
        lemma_lower_len(candidate@);
    }
    let clen = byte_len_exec(&c) as i32;
    if starts_with(&c, &q) {
        return Some(10_000 - clen);
    }
    let ghost total = fuzzy_from(q@, c@, 0, 0, None);
    let mut score: i32 = 0;
    let mut from: usize = 0;
    let mut prev: Option<usize> = None;
    let mut qi: usize = 0;
    proof {
        lemma_fuzzy_bound(q@, c@, 0, 0, None);
    }
    while qi < q.len()
        invariant
            qi <= q.len() <= 100_000_000,
            from <= c.len(),
            0 <= score <= 18 * qi,
            prev matches Some(p) ==> p < c.len(),
            total == fuzzy_from(q@, c@, 0, 0, None),
            q@ == lower(query@),
            c@ == lower(candidate@),
            query@.len() > 0,
            !is_prefix(q@, c@),
            clen as int == byte_len(c@),
            0 <= clen <= 0x7fff_ffff,
            match fuzzy_from(q@, c@, qi as int, from as int, match prev { Some(p) => Some(p as int), None => None }) {
                Some(rest) => total == Some(score + rest),
                None => total is None,
            },
        decreases q.len() - qi,
    {
        let ch = q[qi];
        let mut j = from;
        while j < c.len() && c[j] != ch
            invariant
                from <= j <= c.len(),
                next_match(c@, from as int, ch) == next_match(c@, j as int, ch),
            decreases c.len() - j,
        {
            j += 1;
        }
        if j >= c.len() {
            return None;
        }
        score = score + 10;
        match prev {
            Some(p) => {
                if p + 1 == j && utf8_len_exec(c[p]) == 1 {
                    score = score + 5;
                }
            },
            None => {},
        }
        if j == 0 || c[j - 1] == '.' || c[j - 1] == '-' || c[j - 1] == '_' {
            score = score + 3;
        }
        prev = Some(j);
        from = j + 1;
        qi += 1;
    }
    Some(score - clen)
}

/// Moves a selection index by one, wrapping around a list of `len` items.
pub fn wrap_index(index: usize, delta: i32, len: usize) -> (r: usize)
    requires
        len > 0,
        delta >= 0 ==> index < usize::MAX,
    ensures
        r == (if delta < 0 {
            if index >= 1 { index - 1 } else { len - 1 }
        } else {
            (index + 1) % (len as int)
        }),
{
    if delta < 0 {
        if index >= 1 {
            index - 1
        } else {
            len - 1
        }
    } else {
        (index + 1) % len
    }
}

/// The names of the templates that `source` defines, in order.
pub open spec fn headers_of(ls: Seq<Seq<char>>) -> Seq<Seq<char>>
    decreases ls.len(),
{
    if ls.len() == 0 {
        seq![]
    } else {
        let r = headers_of(ls.drop_last());
        match definition_name(ls.last()) {
            Some(n) => r.push(n),
            None => r,
        }
    }
}

/// The names of the templates that `source` defines.
pub fn template_headers(source: &str) -> (r: Vec<String>)
    ensures
        string_views(r@) == headers_of(split_lines(source@)),
{
    let ls = crate::studio::settings::source_lines(source);
    let ghost vs = views(ls@);
    let mut r: Vec<String> = Vec::new();
    let mut i: usize = 0;
    while i < ls.len()
        invariant
            i <= ls.len(),
            vs == views(ls@),
            vs == split_lines(source@),
            string_views(r@) == headers_of(vs.take(i as int)),
        decreases ls.len() - i,
    {
        let ghost r0 = string_views(r@);
        proof {
            assert(vs.take(i + 1).drop_last() =~= vs.take(i as int));
            assert(vs.take(i + 1).last() == ls@[i as int]@);
        }
        match template_definition_name(string_of(&ls[i]).as_str()) {
            Some(n) => {
                r.push(n);
                assert(string_views(r@) =~= r0.push(r@[r.len() - 1]@));
            },
            None => {},
        }
        i += 1;
    }
    assert(vs.take(ls.len() as int) =~= vs);
    r
}


// ---------------------------------------------------------------------------
// Ranking
// ---------------------------------------------------------------------------

/// `a` comes before `b` in code-point order (how `String`s compare).
pub open spec fn lex_lt(a: Seq<char>, b: Seq<char>) -> bool
    decreases a.len(),
{
    if a.len() == 0 {
        b.len() > 0
    } else if b.len() == 0 {
        false
    } else if a[0] != b[0] {
        (a[0] as u32) < (b[0] as u32)
    } else {
        lex_lt(a.drop_first(), b.drop_first())
    }
}

pub proof fn lemma_lex_lt_asym(a: Seq<char>, b: Seq<char>)
    ensures
        !(lex_lt(a, b) && lex_lt(b, a)),
        !lex_lt(a, a),
    decreases a.len(),
{
    if a.len() > 0 && b.len() > 0 && a[0] == b[0] {
        lemma_lex_lt_asym(a.drop_first(), b.drop_first());
    }
    if a.len() > 0 {
        lemma_lex_lt_asym(a.drop_first(), a.drop_first());
    }
}

pub proof fn lemma_lex_lt_trans(a: Seq<char>, b: Seq<char>, c: Seq<char>)
    requires
        lex_lt(a, b),
        lex_lt(b, c),
    ensures
        lex_lt(a, c),
    decreases a.len(),
{
    if a.len() > 0 && b.len() > 0 && c.len() > 0 && a[0] == b[0] && b[0] == c[0] {
        lemma_lex_lt_trans(a.drop_first(), b.drop_first(), c.drop_first());
    }
}

fn lex_less(a: &Vec<char>, b: &Vec<char>) -> (r: bool)
    ensures
        r == lex_lt(a@, b@),
{
    let mut i: usize = 0;
    assert(a@.skip(0) =~= a@);
    assert(b@.skip(0) =~= b@);
    while i < a.len() && i < b.len() && a[i] == b[i]
        invariant
            i <= a.len(),
            i <= b.len(),
            lex_lt(a@, b@) == lex_lt(a@.skip(i as int), b@.skip(i as int)),
        decreases a.len() - i,
    {
        assert(a@.skip(i as int).drop_first() =~= a@.skip(i + 1));
        assert(b@.skip(i as int).drop_first() =~= b@.skip(i + 1));
        i += 1;
    }
    if i == a.len() {
        i < b.len()
    } else if i == b.len() {
        false
    } else {
        assert(a@.skip(i as int)[0] == a@[i as int]);
        assert(b@.skip(i as int)[0] == b@[i as int]);
        (a[i] as u32) < (b[i] as u32)
    }
}

/// The ranking key of a candidate for `query`: its score, the rank of where it
/// comes from, and its name.
pub open spec fn rank_key(query: Seq<char>, c: CompletionCandidate) -> (int, int, Seq<char>) {
    (spec_fuzzy_score(query, c.name@)->Some_0, c.source_order.rank(), c.name@)
}

/// Key `a` ranks before key `b`: a higher score, else an earlier source, else an
/// earlier name.
pub open spec fn ranks_before(a: (int, int, Seq<char>), b: (int, int, Seq<char>)) -> bool {
    a.0 > b.0 || (a.0 == b.0 && (a.1 < b.1 || (a.1 == b.1 && lex_lt(a.2, b.2))))
}

proof fn lemma_ranks_before_order(a: (int, int, Seq<char>), b: (int, int, Seq<char>), c: (int, int, Seq<char>))
    ensures
        !(ranks_before(a, b) && ranks_before(b, a)),
        ranks_before(a, b) && ranks_before(b, c) ==> ranks_before(a, c),
{
    lemma_lex_lt_asym(a.2, b.2);
    if lex_lt(a.2, b.2) && lex_lt(b.2, c.2) {
        lemma_lex_lt_trans(a.2, b.2, c.2);
    }
}

/// The candidates that match `query` at all, in their order.
pub open spec fn matching(query: Seq<char>, cs: Seq<CompletionCandidate>) -> Seq<CompletionCandidate>
    decreases cs.len(),
{
    if cs.len() == 0 {
        seq![]
    } else {
        let r = matching(query, cs.drop_last());
        if spec_fuzzy_score(query, cs.last().name@) is Some {
            r.push(cs.last())
        } else {
            r
        }
    }
}

/// `r` is ranked: no candidate ranks before one that comes earlier.
pub open spec fn ranked(query: Seq<char>, r: Seq<CompletionCandidate>) -> bool {
    forall|i: int, j: int| 0 <= i < j < r.len() ==> !ranks_before(rank_key(query, #[trigger] r[j]), rank_key(query, #[trigger] r[i]))
}

/// The positions in `r` of candidates that `c` ranks strictly before.
pub open spec fn ranked_after(query: Seq<char>, r: Seq<CompletionCandidate>, c: CompletionCandidate) -> spec_fn(int) -> bool {
    |i: int| ranks_before(rank_key(query, c), rank_key(query, r[i]))
}

/// `r` with `c` put before the first candidate that it ranks strictly before, so
/// after every candidate that ranks the same as it.
#[verifier::opaque]
pub open spec fn rank_insert(query: Seq<char>, r: Seq<CompletionCandidate>, c: CompletionCandidate) -> Seq<CompletionCandidate> {
    match first_where(r.len() as int, ranked_after(query, r, c)) {
        Some(p) => r.insert(p, c),
        None => r.push(c),
    }
}

/// The candidates in ranked order, candidates that rank the same keeping the
/// order in which they came (a stable sort by rank).
#[verifier::opaque]
pub open spec fn stable_rank(query: Seq<char>, cs: Seq<CompletionCandidate>) -> Seq<CompletionCandidate>
    decreases cs.len(),
{
    if cs.len() == 0 {
        seq![]
    } else {
        rank_insert(query, stable_rank(query, cs.drop_last()), cs.last())
    }
}

proof fn lemma_rank_insert_at(q: Seq<char>, o: Seq<CompletionCandidate>, c: CompletionCandidate, p: int)
    requires
        0 <= p <= o.len(),
        forall|i: int| 0 <= i < p ==> !ranks_before(rank_key(q, c), rank_key(q, #[trigger] o[i])),
        p < o.len() ==> ranks_before(rank_key(q, c), rank_key(q, o[p])),
    ensures
        o.insert(p, c) == rank_insert(q, o, c),
{
    reveal(rank_insert);
    assert forall|i: int| 0 <= i < p implies !#[trigger] ranked_after(q, o, c)(i) by {}
    lemma_first_where(o.len() as int, ranked_after(q, o, c), p);
    if p == o.len() {
        assert(o.insert(p, c) =~= o.push(c));
    }
}

proof fn lemma_stable_rank_push(q: Seq<char>, m: Seq<CompletionCandidate>, c: CompletionCandidate)
    ensures
        stable_rank(q, m.push(c)) == rank_insert(q, stable_rank(q, m), c),
{
    reveal(stable_rank);
    assert(m.push(c).drop_last() =~= m);
}

/// Ranks the candidates that match `query`: by score, then source, then name;
/// candidates that rank the same stay in the order in which they came.
pub fn rank_completion_candidates(query: &str, candidates: Vec<CompletionCandidate>) -> (r: Vec<CompletionCandidate>)
    requires
        query@.len() <= 100_000_000,
        forall|i: int| 0 <= i < candidates@.len() ==> (#[trigger] candidates@[i]).name@.len() <= 0x1000_0000_0000
            && byte_len(candidates@[i].name@) <= 0x7fff_ffff,
    ensures
        r@.to_multiset() == matching(query@, candidates@).to_multiset(),
        ranked(query@, r@),
        r@.len() == matching(query@, candidates@).len(),
        r@ == stable_rank(query@, matching(query@, candidates@)),
{
    let ghost cs = candidates@;
    let mut out: Vec<CompletionCandidate> = Vec::new();
    let mut scores: Vec<i32> = Vec::new();
    let mut rest = candidates;
    let ghost q = query@;
    let mut rev: Vec<CompletionCandidate> = Vec::new();
    while rest.len() > 0
        invariant
            rev@ + rest@.reverse() == cs.reverse(),
        decreases rest.len(),
    {
        let ghost r0 = rest@;
        let c = rest.pop().unwrap();
        rev.push(c);
        proof {
            assert(r0.reverse() =~= seq![r0.last()] + r0.drop_last().reverse());
            assert(rest@ == r0.drop_last());
            assert(rev@ + rest@.reverse() =~= cs.reverse());
        }
    }
    assert(rev@ =~= cs.reverse());
    assert(cs.reverse().take(cs.len() as int) =~= cs.reverse());
    let mut k: usize = 0;
    let n = rev.len();
    proof {
        reveal(stable_rank);
        assert(cs.take(0) =~= Seq::<CompletionCandidate>::empty());
        assert(stable_rank(q, matching(q, cs.take(0))) =~= out@);
    }
    while rev.len() > 0
        invariant
            n == cs.len(),
            k + rev@.len() == n,
            rev@ == cs.reverse().take(n - k),
            q == query@,
            query@.len() <= 100_000_000,
            forall|i: int| 0 <= i < cs.len() ==> (#[trigger] cs[i]).name@.len() <= 0x1000_0000_0000 && byte_len(
                cs[i].name@,
            ) <= 0x7fff_ffff,
            out@.to_multiset() == matching(q, cs.take(k as int)).to_multiset(),
            out@.len() == matching(q, cs.take(k as int)).len(),
            scores@.len() == out@.len(),
            forall|i: int| 0 <= i < out@.len() ==> spec_fuzzy_score(q, (#[trigger] out@[i]).name@) == Some(scores@[i] as int),
            ranked(q, out@),
            out@ == stable_rank(q, matching(q, cs.take(k as int))),
        decreases rev@.len(),
    {
        let ghost rv = rev@;
        let c = rev.pop().unwrap();
        proof {
            assert(rv.last() == cs.reverse()[(n - 1 - k) as int]);
            assert(cs.reverse()[(n - 1 - k) as int] == cs[k as int]);
            assert(c == cs[k as int]);
            assert(rev@ =~= cs.reverse().take(n - k - 1));
            assert(cs.take(k + 1).drop_last() =~= cs.take(k as int));
            assert(cs.take(k + 1).last() == cs[k as int]);
        }
        match fuzzy_score(query, c.name.as_str()) {
            None => {
                assert(matching(q, cs.take(k + 1)) == matching(q, cs.take(k as int)));
                k += 1;
            },
            Some(sc) => {
                assert(matching(q, cs.take(k + 1)) == matching(q, cs.take(k as int)).push(c));
                let name = chars_of(c.name.as_str());
                let rank = c.source_order.rank_exec();
                let ghost ck = rank_key(q, c);
                let mut p: usize = 0;
                while p < out.len() && !before_at(sc, rank, &name, scores[p], out[p].source_order.rank_exec(), &chars_of(out[p].name.as_str()))
                    invariant
                        p <= out@.len(),
                        scores@.len() == out@.len(),
                        forall|i: int| 0 <= i < out@.len() ==> spec_fuzzy_score(q, (#[trigger] out@[i]).name@) == Some(scores@[i] as int),
                        ck == (sc as int, rank as int, name@),
                        forall|i: int| 0 <= i < p ==> !ranks_before(ck, rank_key(q, #[trigger] out@[i])),
                    decreases out@.len() - p,
                {
                    assert(rank_key(q, out@[p as int]) == (scores@[p as int] as int, out@[p as int].source_order.rank(), out@[p as int].name@));
                    p += 1;
                }
                proof {
                    if p < out@.len() {
                        assert(rank_key(q, out@[p as int]) == (scores@[p as int] as int, out@[p as int].source_order.rank(), out@[p as int].name@));
                        assert(ranks_before(ck, rank_key(q, out@[p as int])));
                    }
                    let o = out@;
                    let o2 = o.insert(p as int, c);
                    assert forall|i: int, j: int| 0 <= i < j < o2.len() implies !ranks_before(rank_key(q, #[trigger] o2[j]), rank_key(q, #[trigger] o2[i])) by {
                        if j < p {
                            assert(o2[i] == o[i] && o2[j] == o[j]);
                        } else if j == p {
                            assert(o2[i] == o[i]);
                        } else if i == p {
                            assert(o2[j] == o[j - 1]);
                            lemma_ranks_before_order(rank_key(q, o[j - 1]), ck, rank_key(q, o[p as int]));
                            if j - 1 > p {
                                assert(!ranks_before(rank_key(q, o[j - 1]), rank_key(q, o[p as int])));
                            }
                        } else if i < p {
                            assert(o2[i] == o[i] && o2[j] == o[j - 1]);
                        } else {
                            assert(o2[i] == o[i - 1] && o2[j] == o[j - 1]);
                        }
                    }
                }
                let ghost o_before = out@;
                proof {
                    assert(ck == rank_key(q, c));
                    lemma_rank_insert_at(q, o_before, c, p as int);
                    lemma_stable_rank_push(q, matching(q, cs.take(k as int)), c);
                }
                out.insert(p, c);
                scores.insert(p, sc);
                assert(out@ == o_before.insert(p as int, c));
                proof {
                    vstd::seq_lib::to_multiset_insert(o_before, p as int, c);
                    vstd::seq_lib::to_multiset_build(matching(q, cs.take(k as int)), c);
                }
                assert(out@.to_multiset() == o_before.to_multiset().insert(c));
                assert(matching(q, cs.take(k as int)).push(c).to_multiset() == matching(q, cs.take(k as int)).to_multiset().insert(c));
                proof {
                    assert forall|i: int| 0 <= i < out@.len() implies spec_fuzzy_score(q, (#[trigger] out@[i]).name@) == Some(scores@[i] as int) by {
                        if i < p {
                        } else if i > p {
                        }
                    }
                }
                k += 1;
            },
        }
    }
    assert(cs.take(n as int) =~= cs);
    out
}

fn before_at(s1: i32, r1: u8, n1: &Vec<char>, s2: i32, r2: u8, n2: &Vec<char>) -> (b: bool)
    ensures
        b == ranks_before((s1 as int, r1 as int, n1@), (s2 as int, r2 as int, n2@)),
{
    s1 > s2 || (s1 == s2 && (r1 < r2 || (r1 == r2 && lex_less(n1, n2))))
}

/// What a key press does to the completion popup.
#[derive(Clone, Copy, Debug, PartialEq, Eq, Structural)]
pub enum CompletionKey {
    Accept,
    Close,
    Next,
    Previous,
}

/// The popup action of a key press: `Enter` accepts, `Esc` closes, `Ctrl-n` or
/// `Down` moves to the next candidate, `Ctrl-p` or `Up` to the previous one.
pub fn completion_key(key: &KeyEvent) -> (r: Option<CompletionKey>)
    ensures
        r == (if spec_stroke(*key) == KeyStroke::Code(KeyCode::Enter) {
            Some(CompletionKey::Accept)
        } else if spec_stroke(*key) == KeyStroke::Code(KeyCode::Esc) {
            Some(CompletionKey::Close)
        } else if spec_stroke(*key) == KeyStroke::CtrlChar('n') || spec_stroke(*key) == KeyStroke::Code(
            KeyCode::Down,
        ) {
            Some(CompletionKey::Next)
        } else if spec_stroke(*key) == KeyStroke::CtrlChar('p') || spec_stroke(*key) == KeyStroke::Code(
            KeyCode::Up,
        ) {
            Some(CompletionKey::Previous)
        } else {
            None
        }),
{
    if key_stroke_matches(KeyStroke::Code(KeyCode::Enter), key) {
        Some(CompletionKey::Accept)
    } else if key_stroke_matches(KeyStroke::Code(KeyCode::Esc), key) {
        Some(CompletionKey::Close)
    } else if key_stroke_matches(KeyStroke::CtrlChar('n'), key) || key_stroke_matches(
        KeyStroke::Code(KeyCode::Down),
        key,
    ) {
        Some(CompletionKey::Next)
    } else if key_stroke_matches(KeyStroke::CtrlChar('p'), key) || key_stroke_matches(
        KeyStroke::Code(KeyCode::Up),
        key,
    ) {
        Some(CompletionKey::Previous)
    } else {
        None
    }
}

} // verus!
