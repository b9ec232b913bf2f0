//! Character-level text primitives shared by the score editor and the parser.
//!
//! Text is modelled as a sequence of Unicode scalar values (`Seq<char>`),
//! which is what `str` and `String` view as in Verus.
use vstd::prelude::*;

verus! {

// ---------------------------------------------------------------------------
// Character classes
// ---------------------------------------------------------------------------

/// Unicode `White_Space`, as `char::is_whitespace` defines it.
pub open spec fn is_ws(c: char) -> bool {
    let u = c as u32;
    ||| (9 <= u && u <= 13)
    ||| u == 32
    ||| u == 0x85
    ||| u == 0xA0
    ||| u == 0x1680
    ||| (0x2000 <= u && u <= 0x200A)
    ||| u == 0x2028
    ||| u == 0x2029
    ||| u == 0x202F
    ||| u == 0x205F
    ||| u == 0x3000
}

/// A blank or a tab, the characters that a "space0"-style scanner skips.
pub open spec fn is_space_or_tab(c: char) -> bool {
    c == ' ' || c == '\t'
}

pub open spec fn is_digit(c: char) -> bool {
    '0' <= c && c <= '9'
}

pub open spec fn is_ascii_alpha(c: char) -> bool {
    ('a' <= c && c <= 'z') || ('A' <= c && c <= 'Z')
}

pub open spec fn is_ascii_alnum(c: char) -> bool {
    is_digit(c) || is_ascii_alpha(c)
}

pub open spec fn to_lower(c: char) -> char {
    if 'A' <= c && c <= 'Z' {
        ((c as u32) + 32) as char
    } else {
        c
    }
}

pub open spec fn to_upper(c: char) -> char {
    if 'a' <= c && c <= 'z' {
        ((c as u32) - 32) as char
    } else {
        c
    }
}

pub open spec fn digit_value(c: char) -> nat {
    ((c as u32) - ('0' as u32)) as nat
}

/// `char::is_whitespace`.
pub fn is_whitespace(c: char) -> (b: bool)
    ensures
        b == is_ws(c),
{
    let u = c as u32;
    (9 <= u && u <= 13) || u == 32 || u == 0x85 || u == 0xA0 || u == 0x1680 || (0x2000 <= u && u
        <= 0x200A) || u == 0x2028 || u == 0x2029 || u == 0x202F || u == 0x205F || u == 0x3000
}

pub fn is_ascii_digit(c: char) -> (b: bool)
    ensures
        b == is_digit(c),
{
    '0' <= c && c <= '9'
}

pub fn is_ascii_alphanumeric(c: char) -> (b: bool)
    ensures
        b == is_ascii_alnum(c),
{
    ('0' <= c && c <= '9') || ('a' <= c && c <= 'z') || ('A' <= c && c <= 'Z')
}

pub fn ascii_lowercase(c: char) -> (r: char)
    ensures
        r == to_lower(c),
{
    if 'A' <= c && c <= 'Z' {
        let u = (c as u32) + 32;
        assert(u <= 0x7F);
        char_from_ascii(u)
    } else {
        c
    }
}

pub fn ascii_uppercase(c: char) -> (r: char)
    ensures
        r == to_upper(c),
{
    if 'a' <= c && c <= 'z' {
        let u = (c as u32) - 32;
        char_from_ascii(u)
    } else {
        c
    }
}

/// The character whose code is the ASCII value `u`.
fn char_from_ascii(u: u32) -> (c: char)
    requires
        u < 128,
    ensures
        c == u as char,
        c as u32 == u,
{
    let b = u as u8;
    let c = b as char;
    c
}

// ---------------------------------------------------------------------------
// Whitespace trimming
// ---------------------------------------------------------------------------

/// Number of whitespace characters that open `s`.
pub open spec fn lead_ws(s: Seq<char>) -> nat
    decreases s.len(),
{
    if s.len() > 0 && is_ws(s[0]) {
        1 + lead_ws(s.drop_first())
    } else {
        0
    }
}

/// Number of whitespace characters that close `s`.
pub open spec fn trail_ws(s: Seq<char>) -> nat
    decreases s.len(),
{
    if s.len() > 0 && is_ws(s.last()) {
        1 + trail_ws(s.drop_last())
    } else {
        0
    }
}

/// `str::trim_start`.
pub open spec fn trim_start(s: Seq<char>) -> Seq<char> {
    s.skip(lead_ws(s) as int)
}

/// `str::trim_end`.
pub open spec fn trim_end(s: Seq<char>) -> Seq<char> {
    s.take(s.len() - trail_ws(s))
}

/// `str::trim`.
pub open spec fn trim(s: Seq<char>) -> Seq<char> {
    trim_end(trim_start(s))
}

pub proof fn lemma_lead_ws_bound(s: Seq<char>)
    ensures
        lead_ws(s) <= s.len(),
        forall|j: int| 0 <= j < lead_ws(s) ==> is_ws(#[trigger] s[j]),
        lead_ws(s) < s.len() ==> !is_ws(s[lead_ws(s) as int]),
    decreases s.len(),
{
    if s.len() > 0 && is_ws(s[0]) {
        lemma_lead_ws_bound(s.drop_first());
        assert forall|j: int| 0 <= j < lead_ws(s) implies is_ws(#[trigger] s[j]) by {
            if j > 0 {
                assert(s[j] == s.drop_first()[j - 1]);
            }
        }
        if lead_ws(s) < s.len() {
            assert(s[lead_ws(s) as int] == s.drop_first()[lead_ws(s.drop_first()) as int]);
        }
    }
}

pub proof fn lemma_trail_ws_bound(s: Seq<char>)
    ensures
        trail_ws(s) <= s.len(),
        forall|j: int| s.len() - trail_ws(s) <= j < s.len() ==> is_ws(#[trigger] s[j]),
        trail_ws(s) < s.len() ==> !is_ws(s[s.len() - trail_ws(s) - 1]),
    decreases s.len(),
{
    if s.len() > 0 && is_ws(s.last()) {
        lemma_trail_ws_bound(s.drop_last());
        assert forall|j: int| s.len() - trail_ws(s) <= j < s.len() implies is_ws(
            #[trigger] s[j],
        ) by {
            if j < s.len() - 1 {
                assert(s[j] == s.drop_last()[j]);
            }
        }
        if trail_ws(s) < s.len() {
            assert(s[s.len() - trail_ws(s) - 1] == s.drop_last()[s.len() - trail_ws(s) - 1]);
        }
    }
}

/// Characterizes `lead_ws` by its two properties: all before are blank, the next is not.
pub proof fn lemma_lead_ws_unique(s: Seq<char>, n: int)
    requires
        0 <= n <= s.len(),
        forall|j: int| 0 <= j < n ==> is_ws(#[trigger] s[j]),
        n < s.len() ==> !is_ws(s[n]),
    ensures
        lead_ws(s) == n,
    decreases s.len(),
{
    if n > 0 {
        assert(is_ws(s[0]));
        assert forall|j: int| 0 <= j < n - 1 implies is_ws(#[trigger] s.drop_first()[j]) by {
            assert(s.drop_first()[j] == s[j + 1]);
        }
        if n - 1 < s.drop_first().len() {
            assert(s.drop_first()[n - 1] == s[n]);
        }
        lemma_lead_ws_unique(s.drop_first(), n - 1);
    }
}

/// Characterizes `trail_ws` by its two properties.
pub proof fn lemma_trail_ws_unique(s: Seq<char>, n: int)
    requires
        0 <= n <= s.len(),
        forall|j: int| s.len() - n <= j < s.len() ==> is_ws(#[trigger] s[j]),
        n < s.len() ==> !is_ws(s[s.len() - n - 1]),
    ensures
        trail_ws(s) == n,
    decreases s.len(),
{
    if n > 0 {
        assert(is_ws(s[s.len() - 1]));
        let t = s.drop_last();
        assert forall|j: int| t.len() - (n - 1) <= j < t.len() implies is_ws(#[trigger] t[j]) by {
            assert(t[j] == s[j]);
        }
        if n - 1 < t.len() {
            assert(t[t.len() - (n - 1) - 1] == s[s.len() - n - 1]);
        }
        lemma_trail_ws_unique(t, n - 1);
    }
}

/// Index of the first non-blank character of `v[from..]`, or `v.len()`.
pub fn skip_ws(v: &Vec<char>, from: usize) -> (r: usize)
    requires
        from <= v.len(),
    ensures
        from <= r <= v.len(),
        forall|j: int| from <= j < r ==> is_ws(#[trigger] v@[j]),
        r < v.len() ==> !is_ws(v@[r as int]),
{
    let mut i = from;
    while i < v.len() && is_whitespace(v[i])
        invariant
            from <= i <= v.len(),
            forall|j: int| from <= j < i ==> is_ws(#[trigger] v@[j]),
        decreases v.len() - i,
    {
        i += 1;
    }
    i
}

/// One past the last non-blank character of `v[..to]`, or `0`.
pub fn skip_ws_back(v: &Vec<char>, to: usize) -> (r: usize)
    requires
        to <= v.len(),
    ensures
        r <= to,
        forall|j: int| r <= j < to ==> is_ws(#[trigger] v@[j]),
        r > 0 ==> !is_ws(v@[r - 1]),
{
    let mut i = to;
    while i > 0 && is_whitespace(v[i - 1])
        invariant
            i <= to <= v.len(),
            forall|j: int| i <= j < to ==> is_ws(#[trigger] v@[j]),
        decreases i,
    {
        i -= 1;
    }
    i
}

/// Bounds `(a, b)` of `trim(v)` in `v`.
pub fn trim_bounds(v: &Vec<char>) -> (r: (usize, usize))
    ensures
        r.0 <= r.1 <= v.len(),
        v@.subrange(r.0 as int, r.1 as int) == trim(v@),
        r.0 as int == lead_ws(v@),
{
    let a = skip_ws(v, 0);
    proof {
        lemma_lead_ws_unique(v@, a as int);
    }
    let b = skip_ws_back(v, v.len());
    let b = if b < a { a } else { b };
    proof {
        let t = trim_start(v@);
        assert(t =~= v@.subrange(a as int, v.len() as int));
        let n = v.len() - b;
        assert forall|j: int| t.len() - n <= j < t.len() implies is_ws(#[trigger] t[j]) by {
            assert(t[j] == v@[j + a]);
        }
        if n < t.len() {
            assert(t[t.len() - n - 1] == v@[b - 1]);
        }
        lemma_trail_ws_unique(t, n);
        assert(trim(v@) =~= v@.subrange(a as int, b as int));
    }
    (a, b)
}

/// `trim` of a character vector.
pub fn trimmed(v: &Vec<char>) -> (r: Vec<char>)
    ensures
        r@ == trim(v@),
{
    let (a, b) = trim_bounds(v);
    slice_vec(v, a, b)
}

/// `trim_start` of a character vector.
pub fn trimmed_start(v: &Vec<char>) -> (r: Vec<char>)
    ensures
        r@ == trim_start(v@),
{
    let a = skip_ws(v, 0);
    proof {
        lemma_lead_ws_unique(v@, a as int);
    }
    slice_vec(v, a, v.len())
}

/// `trim_end` of a character vector.
pub fn trimmed_end(v: &Vec<char>) -> (r: Vec<char>)
    ensures
        r@ == trim_end(v@),
{
    let b = skip_ws_back(v, v.len());
    proof {
        lemma_trail_ws_unique(v@, (v.len() - b) as int);
    }
    slice_vec(v, 0, b)
}

// ---------------------------------------------------------------------------
// Slicing, searching and comparing
// ---------------------------------------------------------------------------

/// `v[a..b]` as a new vector.
pub fn slice_vec(v: &Vec<char>, a: usize, b: usize) -> (r: Vec<char>)
    requires
        a <= b <= v.len(),
    ensures
        r@ == v@.subrange(a as int, b as int),
{
    let mut r: Vec<char> = Vec::new();
    let mut i = a;
    while i < b
        invariant
            a <= i <= b <= v.len(),
            r@ == v@.subrange(a as int, i as int),
        decreases b - i,
    {
        r.push(v[i]);
        i += 1;
        assert(r@ =~= v@.subrange(a as int, i as int));
    }
    r
}

/// `a + b` as a new vector.
pub fn concat(a: &Vec<char>, b: &Vec<char>) -> (r: Vec<char>)
    ensures
        r@ == a@ + b@,
{
    let mut r = a.clone();
    append(&mut r, b);
    r
}

/// Appends the characters of `b` to `a`.
pub fn append(a: &mut Vec<char>, b: &Vec<char>)
    ensures
        final(a)@ == old(a)@ + b@,
{
    let ghost a0 = a@;
    let mut i: usize = 0;
    while i < b.len()
        invariant
            i <= b.len(),
            a@ == a0 + b@.take(i as int),
        decreases b.len() - i,
    {
        a.push(b[i]);
        i += 1;
        assert(a@ =~= a0 + b@.take(i as int));
    }
    assert(b@.take(b.len() as int) =~= b@);
}

/// Index of the first `c` in `v`.
pub open spec fn first_index_of(s: Seq<char>, c: char) -> Option<int> {
    if exists|i: int| 0 <= i < s.len() && s[i] == c {
        Some(choose|i: int| 0 <= i < s.len() && s[i] == c && forall|j: int| 0 <= j < i ==> s[j] != c)
    } else {
        None
    }
}

pub proof fn lemma_first_index_of(s: Seq<char>, c: char, i: int)
    requires
        0 <= i <= s.len(),
        forall|j: int| 0 <= j < i ==> s[j] != c,
        i < s.len() ==> s[i] == c,
    ensures
        first_index_of(s, c) == (if i < s.len() { Some(i) } else { None::<int> }),
{
    if i < s.len() {
        assert(0 <= i < s.len() && s[i] == c && forall|j: int| 0 <= j < i ==> s[j] != c);
        let k = choose|k: int| 0 <= k < s.len() && s[k] == c && forall|j: int| 0 <= j < k ==> s[j] != c;
        if k < i {
            assert(s[k] != c);
        }
        if i < k {
            assert(s[i] != c);
        }
    }
}

/// What `first_index_of` gives: a position of `c`, with none before it.
pub proof fn lemma_first_index_of_some(s: Seq<char>, c: char)
    ensures
        first_index_of(s, c) matches Some(i) ==> 0 <= i < s.len() && s[i] == c && forall|j: int| 0 <= j < i ==> s[j] != c,
{
    if exists|i: int| 0 <= i < s.len() && s[i] == c {
        let w = choose|i: int| 0 <= i < s.len() && s[i] == c;
        let p = |i: int| s[i] == c;
        assert(p(w));
        lemma_least_exists(s.len() as int, p, w);
        let k = choose|i: int| 0 <= i < s.len() && #[trigger] p(i) && forall|j: int| 0 <= j < i ==> !#[trigger] p(j);
        assert(0 <= k < s.len() && s[k] == c && forall|j: int| 0 <= j < k ==> s[j] != c) by {
            assert forall|j: int| 0 <= j < k implies s[j] != c by {
                assert(!p(j));
            }
        }
    }
}

/// Position of the first `c` in `v[from..]`.
pub fn find_char(v: &Vec<char>, from: usize, c: char) -> (r: Option<usize>)
    requires
        from <= v.len(),
    ensures
        match r {
            Some(i) => from <= i < v.len() && v@[i as int] == c && forall|j: int|
                from <= j < i ==> v@[j] != c,
            None => forall|j: int| from <= j < v.len() ==> v@[j] != c,
        },
{
    let mut i = from;
    while i < v.len()
        invariant
            from <= i <= v.len(),
            forall|j: int| from <= j < i ==> v@[j] != c,
        decreases v.len() - i,
    {
        if v[i] == c {
            return Some(i);
        }
        i += 1;
    }
    None
}

/// `first_index_of` on a vector.
pub fn position_of(v: &Vec<char>, c: char) -> (r: Option<usize>)
    ensures
        r matches Some(i) ==> first_index_of(v@, c) == Some(i as int),
        r is None ==> first_index_of(v@, c) is None,
        r matches Some(i) ==> i < v.len(),
{
    let r = find_char(v, 0, c);
    proof {
        match r {
            Some(i) => lemma_first_index_of(v@, c, i as int),
            None => lemma_first_index_of(v@, c, v.len() as int),
        }
    }
    r
}

/// Whether `v` equals `s`.
pub fn eq_chars(v: &Vec<char>, s: &Vec<char>) -> (b: bool)
    ensures
        b == (v@ == s@),
{
    if v.len() != s.len() {
        return false;
    }
    let mut i: usize = 0;
    while i < v.len()
        invariant
            v.len() == s.len(),
            i <= v.len(),
            forall|j: int| 0 <= j < i ==> v@[j] == s@[j],
        decreases v.len() - i,
    {
        if v[i] != s[i] {
            return false;
        }
        i += 1;
    }
    assert(v@ =~= s@);
    true
}

/// Whether `v[at..]` starts with `p`.
pub fn has_prefix_at(v: &Vec<char>, at: usize, p: &Vec<char>) -> (b: bool)
    requires
        at <= v.len(),
    ensures
        b == (at + p.len() <= v.len() && v@.subrange(at as int, at + p.len()) == p@),
{
    if p.len() > v.len() - at {
        return false;
    }
    let mut i: usize = 0;
    while i < p.len()
        invariant
            at + p.len() <= v.len(),
            i <= p.len(),
            forall|j: int| 0 <= j < i ==> v@[at + j] == p@[j],
        decreases p.len() - i,
    {
        if v[at + i] != p[i] {
            assert(v@.subrange(at as int, at + p.len())[i as int] != p@[i as int]);
            return false;
        }
        i += 1;
    }
    assert(v@.subrange(at as int, at + p.len()) =~= p@);
    true
}

/// Whether `v` starts with `p` (`str::starts_with`).
pub fn starts_with(v: &Vec<char>, p: &Vec<char>) -> (b: bool)
    ensures
        b == is_prefix(p@, v@),
{
    has_prefix_at(v, 0, p)
}

pub open spec fn is_prefix(p: Seq<char>, s: Seq<char>) -> bool {
    p.len() <= s.len() && s.take(p.len() as int) == p
}

// ---------------------------------------------------------------------------
// Conversion between `str`/`String` and character vectors
// ---------------------------------------------------------------------------

/// The characters of `s`, in order.
pub fn chars_of(s: &str) -> (v: Vec<char>)
    ensures
        v@ == s@,
{
    let mut v: Vec<char> = Vec::new();
    for c in it: s.chars()
        invariant
            v@ == it.seq().take(it.index() as int),
    {
        v.push(c);
    }
    v
}

/// `String::push`.
#[verifier::external_body]
pub fn push_char(s: &mut String, c: char)
    ensures
        final(s)@ == old(s)@.push(c),
{
    s.push(c);
}

/// A string made of the characters of `v`.
pub fn string_of(v: &Vec<char>) -> (s: String)
    ensures
        s@ == v@,
{
    let mut s = String::new();
    let mut i: usize = 0;
    while i < v.len()
        invariant
            i <= v.len(),
            s@ == v@.take(i as int),
        decreases v.len() - i,
    {
        push_char(&mut s, v[i]);
        i += 1;
        assert(s@ =~= v@.take(i as int));
    }
    assert(v@.take(v.len() as int) =~= v@);
    s
}

/// A string made of the characters of the literal or slice `s`.
pub fn owned(s: &str) -> (r: String)
    ensures
        r@ == s@,
{
    let v = chars_of(s);
    string_of(&v)
}

// ---------------------------------------------------------------------------
// Decimal numbers
// ---------------------------------------------------------------------------

/// Whether every character of `s` is an ASCII digit.
pub open spec fn all_digits(s: Seq<char>) -> bool {
    forall|i: int| 0 <= i < s.len() ==> is_digit(#[trigger] s[i])
}

/// The value of the decimal numeral `s` (most significant digit first).
pub open spec fn digits_value(s: Seq<char>) -> nat
    decreases s.len(),
{
    if s.len() == 0 {
        0
    } else {
        digits_value(s.drop_last()) * 10 + digit_value(s.last())
    }
}

/// What `str::parse` gives for an unsigned integer type whose largest value is `max`:
/// an optional `+`, then one or more ASCII digits, no larger than `max`.
pub open spec fn parse_unsigned(s: Seq<char>, max: nat) -> Option<nat> {
    let d = if s.len() > 0 && s[0] == '+' {
        s.drop_first()
    } else {
        s
    };
    if d.len() > 0 && all_digits(d) && digits_value(d) <= max {
        Some(digits_value(d))
    } else {
        None
    }
}

/// What `str::parse::<i32>` gives: an optional sign, then one or more ASCII digits,
/// within the range of `i32`.
pub open spec fn parse_i32_spec(s: Seq<char>) -> Option<int> {
    if s.len() > 0 && s[0] == '-' {
        let d = s.drop_first();
        if d.len() > 0 && all_digits(d) && digits_value(d) <= 0x8000_0000 {
            Some(-(digits_value(d) as int))
        } else {
            None
        }
    } else {
        match parse_unsigned(s, 0x7fff_ffff) {
            Some(n) => Some(n as int),
            None => None,
        }
    }
}

pub proof fn lemma_digits_value_step(s: Seq<char>, i: int)
    requires
        0 <= i < s.len(),
    ensures
        digits_value(s.take(i + 1)) == digits_value(s.take(i)) * 10 + digit_value(s[i]),
{
    assert(s.take(i + 1).drop_last() =~= s.take(i));
}

pub proof fn lemma_digits_value_mono(s: Seq<char>, i: int)
    requires
        0 <= i <= s.len(),
    ensures
        digits_value(s.take(i)) <= digits_value(s),
    decreases s.len() - i,
{
    if i < s.len() {
        lemma_digits_value_step(s, i);
        lemma_digits_value_mono(s, i + 1);
    } else {
        assert(s.take(i) =~= s);
    }
}

/// Reads the decimal numeral `v[a..b]`, or `None` when it is empty, holds a
/// non-digit, or exceeds `max`.
pub fn read_digits(v: &Vec<char>, a: usize, b: usize, max: u64) -> (r: Option<u64>)
    requires
        a <= b <= v.len(),
    ensures
        ({
            let d = v@.subrange(a as int, b as int);
            match r {
                Some(n) => d.len() > 0 && all_digits(d) && digits_value(d) <= max && n
                    == digits_value(d),
                None => !(d.len() > 0 && all_digits(d) && digits_value(d) <= max),
            }
        }),
{
    let ghost d = v@.subrange(a as int, b as int);
    if a == b {
        return None;
    }
    let mut acc: u64 = 0;
    let mut i = a;
    while i < b
        invariant
            a <= i <= b <= v.len(),
            d == v@.subrange(a as int, b as int),
            all_digits(d.take(i - a)),
            acc == digits_value(d.take(i - a)),
            acc <= max,
        decreases b - i,
    {
        let c = v[i];
        if !is_ascii_digit(c) {
            assert(d[i - a] == c);
            return None;
        }
        let dv = (c as u32 - '0' as u32) as u64;
        proof {
            lemma_digits_value_step(d, i - a);
            assert(d[i - a] == c);
        }
        if dv > max || acc > (max - dv) / 10 {
            proof {
                if dv <= max {
                    assert(acc * 10 + dv > max) by (nonlinear_arith)
                        requires
                            acc > (max - dv) / 10,
                            dv <= max,
                    ;
                }
                lemma_digits_value_mono(d, i - a + 1);
            }
            return None;
        }
        proof {
            assert(acc * 10 + dv <= max) by (nonlinear_arith)
                requires
                    acc <= (max - dv) / 10,
                    dv <= max,
            ;
        }
        acc = acc * 10 + dv;
        i += 1;
        assert forall|j: int| 0 <= j < i - a implies is_digit(#[trigger] d.take(i - a)[j]) by {
            if j < i - a - 1 {
                assert(d.take(i - a)[j] == d.take(i - a - 1)[j]);
            }
        }
    }
    assert(d.take(b - a) =~= d);
    Some(acc)
}

/// `str::parse` for an unsigned integer no larger than `max`, on `v[a..b]`.
pub fn parse_unsigned_at(v: &Vec<char>, a: usize, b: usize, max: u64) -> (r: Option<u64>)
    requires
        a <= b <= v.len(),
    ensures
        match parse_unsigned(v@.subrange(a as int, b as int), max as nat) {
            Some(n) => r == Some(n as u64),
            None => r is None,
        },
{
    let ghost s = v@.subrange(a as int, b as int);
    if a < b && v[a] == '+' {
        assert(s.drop_first() =~= v@.subrange(a + 1, b as int));
        read_digits(v, a + 1, b, max)
    } else {
        read_digits(v, a, b, max)
    }
}

/// `str::parse::<i32>` on `v[a..b]`.
pub fn parse_i32_at(v: &Vec<char>, a: usize, b: usize) -> (r: Option<i32>)
    requires
        a <= b <= v.len(),
    ensures
        match parse_i32_spec(v@.subrange(a as int, b as int)) {
            Some(n) => r == Some(n as i32),
            None => r is None,
        },
{
    let ghost s = v@.subrange(a as int, b as int);
    if a < b && v[a] == '-' {
        assert(s.drop_first() =~= v@.subrange(a + 1, b as int));
        match read_digits(v, a + 1, b, 0x8000_0000) {
            Some(n) => {
                let r = (0 - (n as i64)) as i32;
                Some(r)
            },
            None => None,
        }
    } else {
        match parse_unsigned_at(v, a, b, 0x7fff_ffff) {
            Some(n) => Some(n as i32),
            None => None,
        }
    }
}

/// The decimal numeral of `n`, without leading zeros (`"0"` for zero).
pub open spec fn decimal(n: nat) -> Seq<char>
    decreases n,
{
    if n < 10 {
        seq![(('0' as u32) + n) as char]
    } else {
        decimal(n / 10).push((('0' as u32) + (n % 10)) as char)
    }
}

/// The numeral of `n` is a non-empty run of digits whose value is `n`.
pub proof fn lemma_decimal_value(n: nat)
    ensures
        decimal(n).len() > 0,
        all_digits(decimal(n)),
        digits_value(decimal(n)) == n,
    decreases n,
{
    if n >= 10 {
        lemma_decimal_value(n / 10);
        let d = decimal(n / 10);
        let s = d.push((('0' as u32) + (n % 10)) as char);
        assert(s.drop_last() =~= d);
        assert forall|i: int| 0 <= i < s.len() implies is_digit(#[trigger] s[i]) by {
            if i < d.len() {
                assert(s[i] == d[i]);
            }
        }
        assert(n == (n / 10) * 10 + n % 10);
    } else {
        assert(digits_value(decimal(n)) == digits_value(decimal(n).drop_last()) * 10 + digit_value(decimal(n).last()));
        assert(decimal(n).drop_last().len() == 0);
    }
}

/// A numeral below `2^64` has at most 20 digits.
pub proof fn lemma_decimal_len_bound(n: nat)
    requires
        n <= u64::MAX,
    ensures
        decimal(n).len() <= 20,
{
    assert(pow10(20) == 100_000_000_000_000_000_000nat) by {
        reveal_with_fuel(pow10, 21);
    }
    lemma_decimal_len_at_most(n, 20);
}

proof fn lemma_decimal_len_at_most(n: nat, k: nat)
    requires
        1 <= k,
        n < pow10(k),
    ensures
        decimal(n).len() <= k,
    decreases k,
{
    if n >= 10 {
        assert(n / 10 < pow10((k - 1) as nat)) by (nonlinear_arith)
            requires
                n < pow10(k),
                k >= 1,
                pow10(k) == 10 * pow10((k - 1) as nat),
        ;
        if k == 1 {
            assert(pow10(1) == 10 * pow10(0));
        } else {
            lemma_decimal_len_at_most(n / 10, (k - 1) as nat);
        }
    }
}

/// `10^k`.
pub open spec fn pow10(k: nat) -> nat
    decreases k,
{
    if k == 0 { 1 } else { 10 * pow10((k - 1) as nat) }
}

/// Distinct numbers have distinct numerals.
pub proof fn lemma_decimal_injective(a: nat, b: nat)
    requires
        decimal(a) == decimal(b),
    ensures
        a == b,
{
    lemma_decimal_value(a);
    lemma_decimal_value(b);
}

/// `n.to_string()` as characters.
pub fn decimal_chars(n: u64) -> (r: Vec<char>)
    ensures
        r@ == decimal(n as nat),
    decreases n,
{
    if n < 10 {
        let c = char_from_ascii(('0' as u32) + (n as u32));
        let mut r = Vec::new();
        r.push(c);
        assert(r@ =~= seq![c]);
        r
    } else {
        let mut r = decimal_chars(n / 10);
        let c = char_from_ascii(('0' as u32) + ((n % 10) as u32));
        r.push(c);
        r
    }
}

/// `n.to_string()` for a signed value.
pub open spec fn signed_decimal(n: int) -> Seq<char> {
    if n < 0 {
        seq!['-'] + decimal((-n) as nat)
    } else {
        decimal(n as nat)
    }
}

/// `n.to_string()` for an `i64`.
pub fn signed_decimal_chars(n: i64) -> (r: Vec<char>)
    ensures
        r@ == signed_decimal(n as int),
{
    if n < 0 {
        let m: u64 = if n == i64::MIN {
            0x8000_0000_0000_0000u64
        } else {
            (-n) as u64
        };
        let d = decimal_chars(m);
        let mut r = Vec::new();
        r.push('-');
        append(&mut r, &d);
        assert(r@ =~= seq!['-'] + decimal((-n) as nat));
        r
    } else {
        decimal_chars(n as u64)
    }
}


// ---------------------------------------------------------------------------
// Lines
// ---------------------------------------------------------------------------

/// Number of characters before the first newline of `s` (`s.len()` when there is none).
pub open spec fn nl_pos(s: Seq<char>) -> nat
    decreases s.len(),
{
    if s.len() == 0 {
        0
    } else if s[0] == '\n' {
        0
    } else {
        1 + nl_pos(s.drop_first())
    }
}

pub proof fn lemma_nl_pos(s: Seq<char>, i: int)
    requires
        0 <= i <= s.len(),
        forall|j: int| 0 <= j < i ==> s[j] != '\n',
        i < s.len() ==> s[i] == '\n',
    ensures
        nl_pos(s) == i,
    decreases s.len(),
{
    if i > 0 {
        assert forall|j: int| 0 <= j < i - 1 implies s.drop_first()[j] != '\n' by {
            assert(s.drop_first()[j] == s[j + 1]);
        }
        if i - 1 < s.drop_first().len() {
            assert(s.drop_first()[i - 1] == s[i]);
        }
        lemma_nl_pos(s.drop_first(), i - 1);
    }
}

pub proof fn lemma_nl_pos_bound(s: Seq<char>)
    ensures
        nl_pos(s) <= s.len(),
    decreases s.len(),
{
    if s.len() > 0 && s[0] != '\n' {
        lemma_nl_pos_bound(s.drop_first());
    }
}

/// A line without its carriage return, as `str::lines` yields it.
pub open spec fn strip_cr(l: Seq<char>) -> Seq<char> {
    if l.len() > 0 && l.last() == '\r' {
        l.drop_last()
    } else {
        l
    }
}

/// `str::lines`: the text split at each `\n` (a `\r` before it is dropped);
/// a final newline does not open another line.
pub open spec fn split_lines(s: Seq<char>) -> Seq<Seq<char>>
    decreases s.len(),
{
    if s.len() == 0 {
        seq![]
    } else {
        let i = nl_pos(s);
        if i >= s.len() {
            seq![s]
        } else {
            seq![strip_cr(s.take(i as int))] + split_lines(s.skip((i + 1) as int))
        }
    }
}

/// `lines.join("\n")`.
pub open spec fn join_lines(ls: Seq<Seq<char>>) -> Seq<char>
    decreases ls.len(),
{
    if ls.len() == 0 {
        seq![]
    } else if ls.len() == 1 {
        ls[0]
    } else {
        join_lines(ls.drop_last()) + seq!['\n'] + ls.last()
    }
}

/// A line without `\n` that does not end in `\r`, then `\n`, then the rest: the
/// line is the first of the lines.
pub proof fn lemma_split_first_line(l: Seq<char>, rest: Seq<char>)
    requires
        forall|j: int| 0 <= j < l.len() ==> l[j] != '\n',
        l.len() == 0 || l.last() != '\r',
    ensures
        split_lines(l + seq!['\n'] + rest) == seq![l] + split_lines(rest),
{
    let s = l + seq!['\n'] + rest;
    assert forall|j: int| 0 <= j < l.len() implies s[j] != '\n' by {
        assert(s[j] == l[j]);
    }
    lemma_nl_pos(s, l.len() as int);
    assert(s.take(l.len() as int) =~= l);
    assert(s.skip(l.len() as int + 1) =~= rest);
}

proof fn lemma_join_cons(l: Seq<char>, xs: Seq<Seq<char>>)
    requires
        xs.len() > 0,
    ensures
        join_lines(seq![l] + xs) == l + seq!['\n'] + join_lines(xs),
    decreases xs.len(),
{
    let all = seq![l] + xs;
    if xs.len() == 1 {
        assert(all.drop_last() =~= seq![l]);
        assert(join_lines(seq![l]) == l);
        assert(all.last() == xs[0]);
        assert(join_lines(xs) == xs[0]);
        assert(join_lines(all) =~= l + seq!['\n'] + join_lines(xs));
    } else {
        lemma_join_cons(l, xs.drop_last());
        assert(all.drop_last() =~= seq![l] + xs.drop_last());
        assert(join_lines(all) =~= l + seq!['\n'] + join_lines(xs));
    }
}

/// The lines of a text that ends with `\n` and holds no `\r`, joined and ended
/// with `\n`, give the text back.
pub proof fn lemma_split_join(s: Seq<char>)
    requires
        s.len() > 0,
        s.last() == '\n',
        forall|j: int| 0 <= j < s.len() ==> s[j] != '\r',
    ensures
        join_lines(split_lines(s)) + seq!['\n'] == s,
    decreases s.len(),
{
    let i = nl_pos(s);
    lemma_nl_pos_bound(s);
    lemma_nl_pos_first(s);
    let l = s.take(i as int);
    let rest = s.skip(i as int + 1);
    assert(s =~= l + seq!['\n'] + rest);
    if l.len() > 0 {
        assert(l.last() == s[i - 1]);
    }
    lemma_split_first_line(l, rest);
    if rest.len() == 0 {
        assert(split_lines(rest) =~= Seq::<Seq<char>>::empty());
        assert(seq![l] + split_lines(rest) =~= seq![l]);
    } else {
        assert(rest.last() == s.last());
        assert forall|j: int| 0 <= j < rest.len() implies rest[j] != '\r' by {
            assert(rest[j] == s[j + i + 1]);
        }
        lemma_split_join(rest);
        lemma_split_nonempty(rest);
        lemma_join_cons(l, split_lines(rest));
    }
}

proof fn lemma_split_nonempty(s: Seq<char>)
    requires
        s.len() > 0,
    ensures
        split_lines(s).len() > 0,
{
}

proof fn lemma_nl_pos_first(s: Seq<char>)
    requires
        s.len() > 0,
        s.last() == '\n',
    ensures
        nl_pos(s) < s.len(),
        s[nl_pos(s) as int] == '\n',
        forall|j: int| 0 <= j < nl_pos(s) ==> s[j] != '\n',
    decreases s.len(),
{
    if s[0] != '\n' {
        assert(s.drop_first().len() > 0);
        assert(s.drop_first().last() == s.last());
        lemma_nl_pos_first(s.drop_first());
        assert forall|j: int| 0 <= j < nl_pos(s) implies s[j] != '\n' by {
            if j > 0 {
                assert(s[j] == s.drop_first()[j - 1]);
            }
        }
    }
}

/// The character views of a sequence of character vectors.
pub open spec fn views(ls: Seq<Vec<char>>) -> Seq<Seq<char>> {
    ls.map_values(|l: Vec<char>| l@)
}

/// The character views of a sequence of strings.
pub open spec fn string_views(ls: Seq<String>) -> Seq<Seq<char>> {
    ls.map_values(|l: String| l@)
}

/// The lines of `v` (`str::lines`).
pub fn split_lines_vec(v: &Vec<char>) -> (r: Vec<Vec<char>>)
    ensures
        views(r@) == split_lines(v@),
{
    let mut r: Vec<Vec<char>> = Vec::new();
    let mut start: usize = 0;
    proof {
        assert(v@.skip(0) =~= v@);
        assert(views(r@) =~= Seq::<Seq<char>>::empty());
        assert(Seq::<Seq<char>>::empty() + split_lines(v@) =~= split_lines(v@));
    }
    while start < v.len()
        invariant
            start <= v.len(),
            views(r@) + split_lines(v@.skip(start as int)) == split_lines(v@),
        decreases v.len() - start,
    {
        let ghost rest = v@.skip(start as int);
        let ghost r0 = views(r@);
        match find_char(v, start, '\n') {
            Some(i) => {
                proof {
                    assert forall|j: int| 0 <= j < i - start implies rest[j] != '\n' by {
                        assert(rest[j] == v@[j + start]);
                    }
                    lemma_nl_pos(rest, i - start);
                }
                let end = if i > start && v[i - 1] == '\r' {
                    i - 1
                } else {
                    i
                };
                let line = slice_vec(v, start, end);
                proof {
                    assert(line@ =~= strip_cr(rest.take(i - start)));
                    assert(rest.skip(i - start + 1) =~= v@.skip(i + 1));
                }
                r.push(line);
                proof {
                    assert(views(r@) =~= r0.push(line@));
                    assert(views(r@) + split_lines(v@.skip(i + 1)) =~= r0 + split_lines(rest));
                }
                start = i + 1;
            },
            None => {
                proof {
                    assert forall|j: int| 0 <= j < rest.len() implies rest[j] != '\n' by {
                        assert(rest[j] == v@[j + start]);
                    }
                    lemma_nl_pos(rest, rest.len() as int);
                }
                let line = slice_vec(v, start, v.len());
                r.push(line);
                proof {
                    assert(line@ =~= rest);
                    assert(views(r@) =~= r0.push(line@));
                    assert(v@.skip(v.len() as int) =~= Seq::<char>::empty());
                    assert(views(r@) + split_lines(v@.skip(v.len() as int)) =~= r0 + split_lines(
                        rest,
                    ));
                }
                start = v.len();
            },
        }
    }
    proof {
        assert(v@.skip(start as int) =~= Seq::<char>::empty());
        assert(views(r@) + Seq::<Seq<char>>::empty() =~= views(r@));
    }
    r
}

/// `lines.join("\n")` on character vectors.
pub fn join_lines_vec(ls: &Vec<Vec<char>>) -> (r: Vec<char>)
    ensures
        r@ == join_lines(views(ls@)),
{
    let mut r: Vec<char> = Vec::new();
    let mut i: usize = 0;
    while i < ls.len()
        invariant
            i <= ls.len(),
            r@ == join_lines(views(ls@).take(i as int)),
        decreases ls.len() - i,
    {
        let ghost pre = views(ls@).take(i as int);
        if i > 0 {
            r.push('\n');
        }
        append(&mut r, &ls[i]);
        i += 1;
        proof {
            let t = views(ls@).take(i as int);
            assert(t.drop_last() =~= pre);
            assert(t.last() == ls@[i - 1]@);
            if i == 1 {
                assert(r@ =~= t[0]);
            }
        }
    }
    assert(views(ls@).take(ls.len() as int) =~= views(ls@));
    r
}

/// The characters of every string of `ls`.
pub fn strings_chars(ls: &[String]) -> (r: Vec<Vec<char>>)
    ensures
        views(r@) == string_views(ls@),
{
    let mut r: Vec<Vec<char>> = Vec::new();
    let mut i: usize = 0;
    while i < ls.len()
        invariant
            i <= ls.len(),
            views(r@) == string_views(ls@).take(i as int),
        decreases ls.len() - i,
    {
        let ghost r0 = views(r@);
        let c = chars_of(ls[i].as_str());
        r.push(c);
        i += 1;
        assert(views(r@) =~= r0.push(c@));
        assert(views(r@) =~= string_views(ls@).take(i as int));
    }
    assert(string_views(ls@).take(ls.len() as int) =~= string_views(ls@));
    r
}

/// A string for every character vector of `ls`.
pub fn chars_strings(ls: &Vec<Vec<char>>) -> (r: Vec<String>)
    ensures
        string_views(r@) == views(ls@),
{
    let mut r: Vec<String> = Vec::new();
    let mut i: usize = 0;
    while i < ls.len()
        invariant
            i <= ls.len(),
            string_views(r@) == views(ls@).take(i as int),
        decreases ls.len() - i,
    {
        let ghost r0 = string_views(r@);
        let s = string_of(&ls[i]);
        r.push(s);
        i += 1;
        assert(string_views(r@) =~= r0.push(s@));
        assert(string_views(r@) =~= views(ls@).take(i as int));
    }
    assert(views(ls@).take(ls.len() as int) =~= views(ls@));
    r
}


// ---------------------------------------------------------------------------
// First and last positions that satisfy a predicate
// ---------------------------------------------------------------------------

/// The least `i` in `0..n` with `p(i)`.
pub open spec fn first_where(n: int, p: spec_fn(int) -> bool) -> Option<int> {
    if exists|i: int| 0 <= i < n && #[trigger] p(i) {
        Some(choose|i: int| 0 <= i < n && #[trigger] p(i) && forall|j: int| 0 <= j < i ==> !#[trigger] p(j))
    } else {
        None
    }
}

/// The greatest `i` in `0..n` with `p(i)`.
pub open spec fn last_where(n: int, p: spec_fn(int) -> bool) -> Option<int> {
    if exists|i: int| 0 <= i < n && #[trigger] p(i) {
        Some(choose|i: int| 0 <= i < n && #[trigger] p(i) && forall|j: int| i < j < n ==> !#[trigger] p(j))
    } else {
        None
    }
}

/// `i` is the least position in `0..n` with `p`, or `n` when there is none.
pub proof fn lemma_first_where(n: int, p: spec_fn(int) -> bool, i: int)
    requires
        0 <= i <= n,
        forall|j: int| 0 <= j < i ==> !#[trigger] p(j),
        i < n ==> p(i),
    ensures
        first_where(n, p) == (if i < n { Some(i) } else { None::<int> }),
{
    if i < n {
        assert(0 <= i < n && #[trigger] p(i) && forall|j: int| 0 <= j < i ==> !#[trigger] p(j));
        let k = choose|k: int| 0 <= k < n && #[trigger] p(k) && forall|j: int| 0 <= j < k ==> !#[trigger] p(j);
        if k < i {
            assert(!p(k));
        }
        if i < k {
            assert(!p(i));
        }
    } else {
        if exists|k: int| 0 <= k < n && #[trigger] p(k) {
            let k = choose|k: int| 0 <= k < n && #[trigger] p(k);
            assert(!p(k));
        }
    }
}

/// What `first_where` gives: a position with `p`, and none before it.
pub proof fn lemma_first_where_some(n: int, p: spec_fn(int) -> bool)
    ensures
        first_where(n, p) matches Some(i) ==> 0 <= i < n && p(i) && forall|j: int| 0 <= j < i ==> !#[trigger] p(j),
        first_where(n, p) is None ==> forall|j: int| 0 <= j < n ==> !#[trigger] p(j),
{
    if exists|i: int| 0 <= i < n && #[trigger] p(i) {
        let w = choose|i: int| 0 <= i < n && #[trigger] p(i);
        lemma_least_exists(n, p, w);
    }
}

proof fn lemma_least_exists(n: int, p: spec_fn(int) -> bool, w: int)
    requires
        0 <= w < n,
        p(w),
    ensures
        exists|i: int| 0 <= i < n && #[trigger] p(i) && forall|j: int| 0 <= j < i ==> !#[trigger] p(j),
    decreases w,
{
    if exists|j: int| 0 <= j < w && #[trigger] p(j) {
        let j = choose|j: int| 0 <= j < w && #[trigger] p(j);
        lemma_least_exists(n, p, j);
    } else {
        assert(0 <= w < n && p(w) && forall|j: int| 0 <= j < w ==> !#[trigger] p(j));
    }
}

/// What `last_where` gives: a position with `p`, and none after it.
pub proof fn lemma_last_where_some(n: int, p: spec_fn(int) -> bool)
    ensures
        last_where(n, p) matches Some(i) ==> 0 <= i < n && p(i) && forall|j: int| i < j < n ==> !#[trigger] p(j),
        last_where(n, p) is None ==> forall|j: int| 0 <= j < n ==> !#[trigger] p(j),
{
    if exists|i: int| 0 <= i < n && #[trigger] p(i) {
        let w = choose|i: int| 0 <= i < n && #[trigger] p(i);
        lemma_greatest_exists(n, p, w);
    }
}

proof fn lemma_greatest_exists(n: int, p: spec_fn(int) -> bool, w: int)
    requires
        0 <= w < n,
        p(w),
    ensures
        exists|i: int| 0 <= i < n && #[trigger] p(i) && forall|j: int| i < j < n ==> !#[trigger] p(j),
    decreases n - w,
{
    if exists|j: int| w < j < n && #[trigger] p(j) {
        let j = choose|j: int| w < j < n && #[trigger] p(j);
        lemma_greatest_exists(n, p, j);
    } else {
        assert(0 <= w < n && p(w) && forall|j: int| w < j < n ==> !#[trigger] p(j));
    }
}

/// `i` is the greatest position in `0..n` with `p`, or `-1` when there is none.
pub proof fn lemma_last_where(n: int, p: spec_fn(int) -> bool, i: int)
    requires
        -1 <= i < n,
        forall|j: int| i < j < n ==> !#[trigger] p(j),
        i >= 0 ==> p(i),
    ensures
        last_where(n, p) == (if i >= 0 { Some(i) } else { None::<int> }),
{
    if i >= 0 {
        assert(0 <= i < n && #[trigger] p(i) && forall|j: int| i < j < n ==> !#[trigger] p(j));
        let k = choose|k: int| 0 <= k < n && #[trigger] p(k) && forall|j: int| k < j < n ==> !#[trigger] p(j);
        if k < i {
            assert(!p(i));
        }
        if i < k {
            assert(!p(k));
        }
    } else {
        if exists|k: int| 0 <= k < n && #[trigger] p(k) {
            let k = choose|k: int| 0 <= k < n && #[trigger] p(k);
            assert(!p(k));
        }
    }
}

/// The intervals of a list of spans, as integers.
pub open spec fn int_intervals(iv: Seq<(usize, usize)>) -> Seq<(int, int)> {
    iv.map_values(|p: (usize, usize)| (p.0 as int, p.1 as int))
}

/// Span `i` holds column `col`.
pub open spec fn holds_col(iv: Seq<(int, int)>, col: int) -> spec_fn(int) -> bool {
    |i: int| iv[i].0 <= col < iv[i].1
}

/// Span `i` starts at or after column `col`.
pub open spec fn starts_from(iv: Seq<(int, int)>, col: int) -> spec_fn(int) -> bool {
    |i: int| iv[i].0 >= col
}

/// The span "at or near" column `col`: the first span that holds `col`; else the
/// first span that starts at or after `col`; else the last span.
pub open spec fn near_col_index(iv: Seq<(int, int)>, col: int) -> Option<int> {
    match first_where(iv.len() as int, holds_col(iv, col)) {
        Some(i) => Some(i),
        None => match first_where(iv.len() as int, starts_from(iv, col)) {
            Some(i) => Some(i),
            None => if iv.len() > 0 {
                Some(iv.len() - 1)
            } else {
                None
            },
        },
    }
}

/// The span that `near_col_index` picks is one of the spans.
pub proof fn lemma_near_col_index_bound(iv: Seq<(int, int)>, col: int)
    ensures
        near_col_index(iv, col) matches Some(i) ==> 0 <= i < iv.len(),
{
    let n = iv.len() as int;
    lemma_first_where_some(n, holds_col(iv, col));
    lemma_first_where_some(n, starts_from(iv, col));
}

/// `near_col_index` on a vector of spans.
pub fn near_col(iv: &Vec<(usize, usize)>, col: usize) -> (r: Option<usize>)
    ensures
        r matches Some(i) ==> near_col_index(int_intervals(iv@), col as int) == Some(i as int),
        r is None ==> near_col_index(int_intervals(iv@), col as int) is None,
        r matches Some(i) ==> i < iv.len(),
{
    let ghost ii = int_intervals(iv@);
    let ghost p1 = holds_col(ii, col as int);
    let ghost p2 = starts_from(ii, col as int);
    let mut i: usize = 0;
    while i < iv.len()
        invariant
            i <= iv.len(),
            ii == int_intervals(iv@),
            p1 == holds_col(ii, col as int),
            forall|j: int| 0 <= j < i ==> !#[trigger] p1(j),
        decreases iv.len() - i,
    {
        assert(ii[i as int] == (iv@[i as int].0 as int, iv@[i as int].1 as int));
        if iv[i].0 <= col && col < iv[i].1 {
            proof {
                lemma_first_where(ii.len() as int, p1, i as int);
            }
            return Some(i);
        }
        i += 1;
    }
    proof {
        lemma_first_where(ii.len() as int, p1, ii.len() as int);
    }
    let mut k: usize = 0;
    while k < iv.len()
        invariant
            k <= iv.len(),
            ii == int_intervals(iv@),
            p2 == starts_from(ii, col as int),
            first_where(ii.len() as int, holds_col(ii, col as int)) is None,
            forall|j: int| 0 <= j < k ==> !#[trigger] p2(j),
        decreases iv.len() - k,
    {
        assert(ii[k as int] == (iv@[k as int].0 as int, iv@[k as int].1 as int));
        if iv[k].0 >= col {
            proof {
                lemma_first_where(ii.len() as int, p2, k as int);
            }
            return Some(k);
        }
        k += 1;
    }
    proof {
        lemma_first_where(ii.len() as int, p2, ii.len() as int);
    }
    if iv.len() > 0 {
        Some(iv.len() - 1)
    } else {
        None
    }
}


// ---------------------------------------------------------------------------
// Words
// ---------------------------------------------------------------------------

/// Number of non-blank characters that open `s`.
pub open spec fn nonws_len(s: Seq<char>) -> nat
    decreases s.len(),
{
    if s.len() > 0 && !is_ws(s[0]) {
        1 + nonws_len(s.drop_first())
    } else {
        0
    }
}

proof fn lemma_nonws_len_bound(s: Seq<char>)
    ensures
        nonws_len(s) <= s.len(),
    decreases s.len(),
{
    if s.len() > 0 && !is_ws(s[0]) {
        lemma_nonws_len_bound(s.drop_first());
    }
}

proof fn lemma_nonws_prefix(s: Seq<char>)
    ensures
        forall|j: int| 0 <= j < nonws_len(s) ==> !is_ws(#[trigger] s[j]),
    decreases s.len(),
{
    lemma_nonws_len_bound(s);
    if s.len() > 0 && !is_ws(s[0]) {
        lemma_nonws_prefix(s.drop_first());
        assert forall|j: int| 0 <= j < nonws_len(s) implies !is_ws(#[trigger] s[j]) by {
            if j > 0 {
                assert(s[j] == s.drop_first()[j - 1]);
            }
        }
    }
}

/// Every word of `s` is a non-empty run of non-blank characters of `s`: a
/// character that `s` does not hold, no word holds.
pub proof fn lemma_words_avoid(s: Seq<char>, c: char)
    ensures
        forall|k: int| 0 <= k < words(s).len() ==> (#[trigger] words(s)[k]).len() > 0,
        forall|k: int, j: int| 0 <= k < words(s).len() && 0 <= j < words(s)[k].len() ==> !is_ws(#[trigger] words(s)[k][j]),
        (forall|i: int| 0 <= i < s.len() ==> s[i] != c) ==> forall|k: int, j: int|
            0 <= k < words(s).len() && 0 <= j < words(s)[k].len() ==> #[trigger] words(s)[k][j] != c,
    decreases s.len(),
{
    let l = lead_ws(s);
    lemma_lead_ws_bound(s);
    let t = s.skip(l as int);
    let n = nonws_len(t);
    lemma_nonws_len_bound(t);
    lemma_nonws_prefix(t);
    if l >= s.len() || n == 0 || l + n > s.len() {
    } else {
        let w = t.take(n as int);
        let rest = t.skip(n as int);
        lemma_words_avoid(rest, c);
        let ws = words(s);
        assert(ws == seq![w] + words(rest));
        assert forall|k: int| 0 <= k < ws.len() implies (#[trigger] ws[k]).len() > 0 by {
            if k > 0 {
                assert(ws[k] == words(rest)[k - 1]);
            }
        }
        assert forall|k: int, j: int| 0 <= k < ws.len() && 0 <= j < ws[k].len() implies !is_ws(#[trigger] ws[k][j]) by {
            if k > 0 {
                assert(ws[k] == words(rest)[k - 1]);
            } else {
                assert(ws[0][j] == t[j]);
            }
        }
        if forall|i: int| 0 <= i < s.len() ==> s[i] != c {
            assert forall|i: int| 0 <= i < rest.len() implies rest[i] != c by {
                assert(rest[i] == s[i + l + n]);
            }
            assert forall|k: int, j: int| 0 <= k < ws.len() && 0 <= j < ws[k].len() implies #[trigger] ws[k][j] != c by {
                if k > 0 {
                    assert(ws[k] == words(rest)[k - 1]);
                } else {
                    assert(ws[0][j] == s[j + l]);
                }
            }
        }
    }
}

/// `str::split_whitespace`: the maximal runs of non-blank characters.
pub open spec fn words(s: Seq<char>) -> Seq<Seq<char>>
    decreases s.len(),
{
    let t = s.skip(lead_ws(s) as int);
    let n = nonws_len(t);
    if lead_ws(s) >= s.len() || n == 0 || lead_ws(s) + n > s.len() {
        seq![]
    } else {
        seq![t.take(n as int)] + words(t.skip(n as int))
    }
}

proof fn lemma_nonws_len_unique(s: Seq<char>, n: int)
    requires
        0 <= n <= s.len(),
        forall|j: int| 0 <= j < n ==> !is_ws(#[trigger] s[j]),
        n < s.len() ==> is_ws(s[n]),
    ensures
        nonws_len(s) == n,
    decreases s.len(),
{
    if n > 0 {
        assert forall|j: int| 0 <= j < n - 1 implies !is_ws(#[trigger] s.drop_first()[j]) by {
            assert(s.drop_first()[j] == s[j + 1]);
        }
        if n - 1 < s.drop_first().len() {
            assert(s.drop_first()[n - 1] == s[n]);
        }
        lemma_nonws_len_unique(s.drop_first(), n - 1);
    } else {
        assert(!(s.len() > 0 && !is_ws(s[0])));
    }
}

/// After blanks, a word ends at the next blank: the words of `pre + w + rest`
/// are `w` and then the words of `rest`.
pub proof fn lemma_words_first(pre: Seq<char>, w: Seq<char>, rest: Seq<char>)
    requires
        forall|i: int| 0 <= i < pre.len() ==> is_ws(#[trigger] pre[i]),
        w.len() > 0,
        forall|i: int| 0 <= i < w.len() ==> !is_ws(#[trigger] w[i]),
        rest.len() == 0 || is_ws(rest[0]),
    ensures
        words(pre + w + rest) == seq![w] + words(rest),
{
    let s = pre + w + rest;
    assert forall|j: int| 0 <= j < pre.len() implies is_ws(#[trigger] s[j]) by {
        assert(s[j] == pre[j]);
    }
    assert(s[pre.len() as int] == w[0]);
    lemma_lead_ws_unique(s, pre.len() as int);
    let t = s.skip(pre.len() as int);
    assert(t =~= w + rest);
    assert forall|j: int| 0 <= j < w.len() implies !is_ws(#[trigger] t[j]) by {
        assert(t[j] == w[j]);
    }
    if rest.len() > 0 {
        assert(t[w.len() as int] == rest[0]);
    }
    lemma_nonws_len_unique(t, w.len() as int);
    assert(t.take(w.len() as int) =~= w);
    assert(t.skip(w.len() as int) =~= rest);
}

/// The words of `v[from..]`.
pub fn words_from(v: &Vec<char>, from: usize) -> (r: Vec<Vec<char>>)
    requires
        from <= v.len(),
    ensures
        views(r@) == words(v@.skip(from as int)),
    decreases v.len() - from,
{
    let ghost s = v@.skip(from as int);
    let a = skip_ws(v, from);
    proof {
        assert forall|j: int| 0 <= j < a - from implies is_ws(#[trigger] s[j]) by {
            assert(s[j] == v@[j + from]);
        }
        if a - from < s.len() {
            assert(s[a - from] == v@[a as int]);
        }
        lemma_lead_ws_unique(s, a - from);
    }
    if a == v.len() {
        let r: Vec<Vec<char>> = Vec::new();
        assert(views(r@) =~= Seq::<Seq<char>>::empty());
        return r;
    }
    let mut b = a;
    while b < v.len() && !is_whitespace(v[b])
        invariant
            a <= b <= v.len(),
            forall|j: int| a <= j < b ==> !is_ws(#[trigger] v@[j]),
        decreases v.len() - b,
    {
        b += 1;
    }
    let ghost t = s.skip(a - from);
    proof {
        assert(t =~= v@.skip(a as int));
        assert forall|j: int| 0 <= j < b - a implies !is_ws(#[trigger] t[j]) by {
            assert(t[j] == v@[j + a]);
        }
        if b - a < t.len() {
            assert(t[b - a] == v@[b as int]);
        }
        lemma_nonws_len_unique(t, b - a);
    }
    let w = slice_vec(v, a, b);
    let rest = words_from(v, b);
    let mut r: Vec<Vec<char>> = Vec::new();
    r.push(w);
    let mut i: usize = 0;
    while i < rest.len()
        invariant
            i <= rest.len(),
            r.len() == i + 1,
            r@[0]@ == w@,
            forall|j: int| 0 < j <= i ==> (#[trigger] r@[j])@ == rest@[j - 1]@,
        decreases rest.len() - i,
    {
        r.push(rest[i].clone());
        i += 1;
    }
    proof {
        assert(w@ =~= t.take(b - a));
        assert(t.skip(b - a) =~= v@.skip(b as int));
        assert(views(r@) =~= seq![w@] + views(rest@));
    }
    r
}

} // verus!
