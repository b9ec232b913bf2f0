//! The parameters of a template call `[@name +3 x2 /2 ...]suffix`: its transpose
//! (`+N` / `-N` semitones), its repeat count (`xN`) and its time scale (`/N`).
//! Editing one of them rewrites the call with the parameters in that order,
//! leaving out those at their defaults (0, 1 and 1), then the other parameters.
use vstd::prelude::*;
use crate::text::{
    is_ws, lemma_first_index_of, lemma_words_avoid, lemma_words_first,
    append, chars_of, decimal, decimal_chars, first_index_of, is_digit, lemma_decimal_value, parse_i32_at, parse_i32_spec,
    parse_unsigned, parse_unsigned_at, position_of, signed_decimal, signed_decimal_chars, slice_vec,
    string_of, string_views, views, words, words_from,
};

verus! {

pub open spec fn is_ascii_char(c: char) -> bool {
    (c as u32) < 128
}

/// `+N` or `-N`, with `N` read as `str::parse::<i32>` reads it.
pub open spec fn transpose_value(s: Seq<char>) -> Option<int> {
    if s.len() == 0 {
        None
    } else {
        match parse_i32_spec(s.drop_first()) {
            None => None,
            Some(v) => if s[0] == '+' {
                Some(v)
            } else if s[0] == '-' {
                Some(-v)
            } else {
                None
            },
        }
    }
}

/// A parameter on which reading a transpose neither fails nor overflows: it is not
/// empty, its first character is ASCII (it is split after one byte), and it is not
/// `-` before a numeral of `i32::MIN`, whose negation leaves `i32`.
pub open spec fn transpose_param_ok(s: Seq<char>) -> bool {
    &&& s.len() > 0
    &&& is_ascii_char(s[0])
    &&& !(s[0] == '-' && parse_i32_spec(s.drop_first()) == Some(-0x8000_0000int))
}

/// `<mark>N` with `N` a `u32` of at least 1.
pub open spec fn count_value(s: Seq<char>, mark: char) -> Option<nat> {
    if s.len() > 0 && s[0] == mark {
        match parse_unsigned(s.drop_first(), 0xffff_ffff) {
            Some(n) => if n >= 1 {
                Some(n)
            } else {
                None
            },
            None => None,
        }
    } else {
        None
    }
}

/// `+N` for a non-negative transpose, `-N` for a negative one.
pub open spec fn transpose_text(v: int) -> Seq<char> {
    if v >= 0 {
        seq!['+'] + decimal(v as nat)
    } else {
        signed_decimal(v)
    }
}

/// Reads a transpose parameter.
pub fn parse_template_call_transpose(input: &str) -> (r: Option<i32>)
    requires
        transpose_param_ok(input@),
    ensures
        match transpose_value(input@) {
            Some(v) => r == Some(v as i32) && i32::MIN <= v <= i32::MAX,
            None => r is None,
        },
{
    let v = chars_of(input);
    parse_transpose_chars(&v)
}

fn parse_transpose_chars(v: &Vec<char>) -> (r: Option<i32>)
    requires
        transpose_param_ok(v@),
    ensures
        match transpose_value(v@) {
            Some(x) => r == Some(x as i32) && i32::MIN <= x <= i32::MAX,
            None => r is None,
        },
{
    assert(v@.subrange(1, v.len() as int) =~= v@.drop_first());
    let value = match parse_i32_at(v, 1, v.len()) {
        Some(x) => x,
        None => {
            return None;
        },
    };
    if v[0] == '+' {
        Some(value)
    } else if v[0] == '-' {
        Some(-value)
    } else {
        None
    }
}

/// Reads a repeat parameter `xN`.
pub fn parse_template_call_repeat(input: &str) -> (r: Option<u32>)
    ensures
        match count_value(input@, 'x') {
            Some(n) => r == Some(n as u32),
            None => r is None,
        },
{
    let v = chars_of(input);
    parse_count_chars(&v, 'x')
}

/// Reads a time-scale parameter `/N`.
pub fn parse_template_call_time_scale(input: &str) -> (r: Option<u32>)
    ensures
        match count_value(input@, '/') {
            Some(n) => r == Some(n as u32),
            None => r is None,
        },
{
    let v = chars_of(input);
    parse_count_chars(&v, '/')
}

fn parse_count_chars(v: &Vec<char>, mark: char) -> (r: Option<u32>)
    ensures
        match count_value(v@, mark) {
            Some(n) => r == Some(n as u32) && n <= u32::MAX,
            None => r is None,
        },
{
    if v.len() == 0 || v[0] != mark {
        return None;
    }
    assert(v@.subrange(1, v.len() as int) =~= v@.drop_first());
    match parse_unsigned_at(v, 1, v.len(), 0xffff_ffff) {
        Some(n) => if n >= 1 {
            Some(n as u32)
        } else {
            None
        },
        None => None,
    }
}

/// Writing a transpose and reading it back gives the same transpose, for every
/// `i32` but `i32::MIN` (whose magnitude is not an `i32`); the written text is
/// one that the reader accepts.
pub proof fn transpose_text_round_trip(v: i32)
    requires
        v > i32::MIN,
    ensures
        transpose_param_ok(transpose_text(v as int)),
        transpose_value(transpose_text(v as int)) == Some(v as int),
{
    let m: nat = if v >= 0 { v as nat } else { (-v) as nat };
    lemma_decimal_value(m);
    let d = decimal(m);
    let t = transpose_text(v as int);
    assert(t.drop_first() =~= d);
    assert(is_digit(d[0]));
    assert(parse_unsigned(d, 0x7fff_ffff) == Some(m));
    assert(parse_i32_spec(d) == Some(m as int));
}

/// Writing a repeat (`xN`) or time scale (`/N`) of at least 1 and reading it back
/// gives the same count.
pub proof fn count_text_round_trip(n: u32, mark: char)
    requires
        n >= 1,
    ensures
        count_value(seq![mark] + decimal(n as nat), mark) == Some(n as nat),
{
    lemma_decimal_value(n as nat);
    let t = seq![mark] + decimal(n as nat);
    assert(t.drop_first() =~= decimal(n as nat));
    assert(is_digit(decimal(n as nat)[0]));
}

/// Writes a transpose parameter.
pub fn format_template_call_transpose(value: i32) -> (r: String)
    ensures
        r@ == transpose_text(value as int),
{
    string_of(&transpose_chars(value))
}

fn transpose_chars(value: i32) -> (r: Vec<char>)
    ensures
        r@ == transpose_text(value as int),
{
    if value >= 0 {
        let mut r: Vec<char> = Vec::new();
        r.push('+');
        append(&mut r, &decimal_chars(value as u64));
        assert(r@ =~= seq!['+'] + decimal(value as nat));
        r
    } else {
        signed_decimal_chars(value as i64)
    }
}

/// Writes a repeat parameter.
pub fn format_template_call_repeat(value: u32) -> (r: String)
    ensures
        r@ == seq!['x'] + decimal(value as nat),
{
    string_of(&marked_count(value, 'x'))
}

/// Writes a time-scale parameter.
pub fn format_template_call_time_scale(value: u32) -> (r: String)
    ensures
        r@ == seq!['/'] + decimal(value as nat),
{
    string_of(&marked_count(value, '/'))
}

fn marked_count(value: u32, mark: char) -> (r: Vec<char>)
    ensures
        r@ == seq![mark] + decimal(value as nat),
{
    let mut r: Vec<char> = Vec::new();
    r.push(mark);
    append(&mut r, &decimal_chars(value as u64));
    assert(r@ =~= seq![mark] + decimal(value as nat));
    r
}

/// A `u32` read as an `i32` (`as i32`: values from `2^31` on wrap to negatives).
pub open spec fn wrapped_i32(n: u32) -> int {
    if n < 0x8000_0000 {
        n as int
    } else {
        n - 0x1_0000_0000
    }
}

/// A repeat or time-scale count moved by `delta`, and kept at 1 or more.
pub open spec fn adjusted_count(current: u32, delta: i32) -> nat {
    let u = wrapped_i32(current) + delta;
    if u < 1 {
        1
    } else {
        u as nat
    }
}

/// Moves a count by `delta`, keeping it at 1 or more.
pub fn adjust_template_call_count(current: u32, delta: i32) -> (r: u32)
    requires
        i32::MIN <= wrapped_i32(current) + delta <= i32::MAX,
    ensures
        r == adjusted_count(current, delta),
{
    let c: i32 = if current < 0x8000_0000 {
        current as i32
    } else {
        (current as i64 - 0x1_0000_0000i64) as i32
    };
    let updated = c + delta;
    if updated < 1 {
        1
    } else {
        updated as u32
    }
}

/// The name, parameters and suffix of a call `[@name params...]suffix`: the text
/// up to the first `]`, split at blanks.
pub open spec fn call_parts(raw: Seq<char>) -> Option<(Seq<char>, Seq<Seq<char>>, Seq<char>)> {
    if raw.len() >= 2 && raw[0] == '[' && raw[1] == '@' {
        let body = raw.skip(2);
        match first_index_of(body, ']') {
            None => None,
            Some(c) => {
                let ws = words(body.take(c));
                if ws.len() == 0 {
                    None
                } else {
                    Some((ws[0], ws.skip(1), body.skip(c + 1)))
                }
            },
        }
    } else {
        None
    }
}

/// Reads the parameters in order: the last transpose, repeat and time scale win;
/// the others are kept in order. From (0, 1, 1, none).
pub open spec fn fold_params(ps: Seq<Seq<char>>) -> (int, nat, nat, Seq<Seq<char>>)
    decreases ps.len(),
{
    if ps.len() == 0 {
        (0, 1, 1, seq![])
    } else {
        let (t, r, s, o) = fold_params(ps.drop_last());
        let p = ps.last();
        match transpose_value(p) {
            Some(v) => (v, r, s, o),
            None => match count_value(p, 'x') {
                Some(n) => (t, n, s, o),
                None => match count_value(p, '/') {
                    Some(n) => (t, r, n, o),
                    None => (t, r, s, o.push(p)),
                },
            },
        }
    }
}

/// Every parameter of the call can be read as a transpose without failing.
pub open spec fn call_params_ok(raw: Seq<char>) -> bool {
    match call_parts(raw) {
        Some((_, ps, _)) => forall|i: int| 0 <= i < ps.len() ==> transpose_param_ok(#[trigger] ps[i]),
        None => true,
    }
}

/// The editable parts of a call: name, transpose, repeat, time scale, other
/// parameters and suffix.
pub open spec fn editable_model(raw: Seq<char>) -> Option<(Seq<char>, int, nat, nat, Seq<Seq<char>>, Seq<char>)> {
    match call_parts(raw) {
        None => None,
        Some((name, ps, suffix)) => {
            let (t, r, s, o) = fold_params(ps);
            Some((name, t, r, s, o, suffix))
        },
    }
}

/// `" p"` for each parameter `p`, in order.
pub open spec fn spaced(ps: Seq<Seq<char>>) -> Seq<char>
    decreases ps.len(),
{
    if ps.len() == 0 {
        seq![]
    } else {
        spaced(ps.drop_last()) + seq![' '] + ps.last()
    }
}

/// The text of a call with the given parts.
pub open spec fn call_text(name: Seq<char>, t: int, r: nat, s: nat, others: Seq<Seq<char>>, suffix: Seq<char>) -> Seq<char> {
    let tp = if t != 0 {
        seq![' '] + transpose_text(t)
    } else {
        seq![]
    };
    let rp = if r != 1 {
        seq![' ', 'x'] + decimal(r)
    } else {
        seq![]
    };
    let sp = if s != 1 {
        seq![' ', '/'] + decimal(s)
    } else {
        seq![]
    };
    seq!['[', '@'] + name + tp + rp + sp + spaced(others) + seq![']'] + suffix
}

// ---------------------------------------------------------------------------
// Writing a call and reading it back
// ---------------------------------------------------------------------------

/// A word of a call: not empty, with no blank and no `]`.
pub open spec fn plain_word(w: Seq<char>) -> bool {
    w.len() > 0 && forall|j: int| 0 <= j < w.len() ==> !is_ws(#[trigger] w[j]) && w[j] != ']'
}

/// A parameter that is no transpose, repeat or time scale.
pub open spec fn other_param(p: Seq<char>) -> bool {
    transpose_value(p) is None && count_value(p, 'x') is None && count_value(p, '/') is None
}

proof fn lemma_spaced_cons(ws: Seq<Seq<char>>)
    requires
        ws.len() > 0,
    ensures
        spaced(ws) == seq![' '] + ws[0] + spaced(ws.skip(1)),
    decreases ws.len(),
{
    if ws.len() == 1 {
        assert(ws.drop_last() =~= Seq::<Seq<char>>::empty());
        assert(ws.skip(1) =~= Seq::<Seq<char>>::empty());
        assert(spaced(ws) =~= seq![' '] + ws[0] + spaced(ws.skip(1)));
    } else {
        let d = ws.drop_last();
        lemma_spaced_cons(d);
        assert(d.skip(1) =~= ws.skip(1).drop_last());
        assert(ws.skip(1).last() == ws.last());
        assert(spaced(ws) =~= seq![' '] + ws[0] + spaced(ws.skip(1)));
    }
}

proof fn lemma_spaced_append(a: Seq<Seq<char>>, b: Seq<Seq<char>>)
    ensures
        spaced(a + b) == spaced(a) + spaced(b),
    decreases b.len(),
{
    if b.len() == 0 {
        assert(a + b =~= a);
        assert(spaced(a) + spaced(b) =~= spaced(a));
    } else {
        lemma_spaced_append(a, b.drop_last());
        assert((a + b).drop_last() =~= a + b.drop_last());
        assert((a + b).last() == b.last());
        assert(spaced(a + b) =~= spaced(a) + spaced(b));
    }
}

proof fn lemma_spaced_plain(ws: Seq<Seq<char>>)
    requires
        forall|k: int| 0 <= k < ws.len() ==> plain_word(#[trigger] ws[k]),
    ensures
        words(spaced(ws)) == ws,
        forall|i: int| 0 <= i < spaced(ws).len() ==> #[trigger] spaced(ws)[i] != ']',
        spaced(ws).len() == 0 || spaced(ws)[0] == ' ',
    decreases ws.len(),
{
    if ws.len() == 0 {
        assert(words(Seq::<char>::empty()) =~= Seq::<Seq<char>>::empty());
    } else {
        let rest = ws.skip(1);
        assert forall|k: int| 0 <= k < rest.len() implies plain_word(#[trigger] rest[k]) by {
            assert(rest[k] == ws[k + 1]);
        }
        lemma_spaced_plain(rest);
        lemma_spaced_cons(ws);
        assert(plain_word(ws[0]));
        assert(is_ws(' '));
        lemma_words_first(seq![' '], ws[0], spaced(rest));
        assert(seq![ws[0]] + rest =~= ws);
        let sp = spaced(ws);
        assert forall|i: int| 0 <= i < sp.len() implies #[trigger] sp[i] != ']' by {
            if i == 0 {
            } else if i <= ws[0].len() {
                assert(sp[i] == ws[0][i - 1]);
            } else {
                assert(sp[i] == spaced(rest)[i - 1 - ws[0].len()]);
            }
        }
    }
}

proof fn lemma_fold_others(pre: Seq<Seq<char>>, o: Seq<Seq<char>>)
    requires
        forall|k: int| 0 <= k < o.len() ==> other_param(#[trigger] o[k]),
    ensures
        ({
            let f = fold_params(pre);
            fold_params(pre + o) == (f.0, f.1, f.2, f.3 + o)
        }),
    decreases o.len(),
{
    if o.len() == 0 {
        assert(pre + o =~= pre);
        assert(fold_params(pre).3 + o =~= fold_params(pre).3);
    } else {
        lemma_fold_others(pre, o.drop_last());
        assert((pre + o).drop_last() =~= pre + o.drop_last());
        assert((pre + o).last() == o.last());
        assert(other_param(o[o.len() - 1]));
        assert(fold_params(pre).3 + o.drop_last() + seq![o.last()] =~= fold_params(pre).3 + o);
    }
}

proof fn lemma_fold_props(ps: Seq<Seq<char>>)
    requires
        forall|k: int| 0 <= k < ps.len() ==> plain_word(#[trigger] ps[k]),
    ensures
        ({
            let f = fold_params(ps);
            &&& 1 <= f.1 <= u32::MAX
            &&& 1 <= f.2 <= u32::MAX
            &&& forall|k: int| 0 <= k < f.3.len() ==> plain_word(#[trigger] f.3[k]) && other_param(f.3[k])
        }),
    decreases ps.len(),
{
    if ps.len() > 0 {
        let d = ps.drop_last();
        assert forall|k: int| 0 <= k < d.len() implies plain_word(#[trigger] d[k]) by {
            assert(d[k] == ps[k]);
        }
        lemma_fold_props(d);
        let p = ps.last();
        assert(plain_word(ps[ps.len() - 1]));
        let f0 = fold_params(d);
        if transpose_value(p) is None && count_value(p, 'x') is None && count_value(p, '/') is None {
            let o2 = f0.3.push(p);
            assert forall|k: int| 0 <= k < o2.len() implies plain_word(#[trigger] o2[k]) && other_param(o2[k]) by {
                if k < f0.3.len() {
                    assert(o2[k] == f0.3[k]);
                }
            }
        }
    }
}

proof fn lemma_digits_plain(d: Seq<char>)
    requires
        all_digits_seq(d),
    ensures
        forall|j: int| 0 <= j < d.len() ==> !is_ws(#[trigger] d[j]) && d[j] != ']',
{
    assert forall|j: int| 0 <= j < d.len() implies !is_ws(#[trigger] d[j]) && d[j] != ']' by {
        assert(is_digit(d[j]));
    }
}

pub open spec fn all_digits_seq(d: Seq<char>) -> bool {
    forall|i: int| 0 <= i < d.len() ==> is_digit(#[trigger] d[i])
}

proof fn lemma_marked_plain(mark: char, n: nat)
    requires
        !is_ws(mark),
        mark != ']',
    ensures
        plain_word(seq![mark] + decimal(n)),
{
    lemma_decimal_value(n);
    let w = seq![mark] + decimal(n);
    assert forall|j: int| 0 <= j < w.len() implies !is_ws(#[trigger] w[j]) && w[j] != ']' by {
        if j > 0 {
            assert(w[j] == decimal(n)[j - 1]);
            assert(is_digit(decimal(n)[j - 1]));
        }
    }
}

/// The parameters that writing a call's transpose, repeat and time scale gives.
pub open spec fn written_params(t: int, r: nat, s: nat) -> Seq<Seq<char>> {
    (if t != 0 { seq![transpose_text(t)] } else { seq![] }) + (if r != 1 { seq![seq!['x'] + decimal(r)] } else {
        seq![]
    }) + (if s != 1 { seq![seq!['/'] + decimal(s)] } else { seq![] })
}

proof fn lemma_written_params(t: int, r: nat, s: nat)
    requires
        i32::MIN < t <= i32::MAX,
        1 <= r <= u32::MAX,
        1 <= s <= u32::MAX,
    ensures
        forall|k: int| 0 <= k < written_params(t, r, s).len() ==> plain_word(#[trigger] written_params(t, r, s)[k]),
        fold_params(written_params(t, r, s)) == (t, r, s, Seq::<Seq<char>>::empty()),
{
    let tp: Seq<Seq<char>> = if t != 0 { seq![transpose_text(t)] } else { seq![] };
    let rp: Seq<Seq<char>> = if r != 1 { seq![seq!['x'] + decimal(r)] } else { seq![] };
    let sp: Seq<Seq<char>> = if s != 1 { seq![seq!['/'] + decimal(s)] } else { seq![] };
    assert(is_ws('+') == false);
    lemma_marked_plain('x', r);
    lemma_marked_plain('/', s);
    if t != 0 {
        transpose_text_round_trip(t as i32);
        if t > 0 {
            lemma_marked_plain('+', t as nat);
        } else {
            lemma_marked_plain('-', (-t) as nat);
            assert(transpose_text(t) =~= seq!['-'] + decimal((-t) as nat));
        }
    }
    if r != 1 {
        count_text_round_trip(r as u32, 'x');
    }
    if s != 1 {
        count_text_round_trip(s as u32, '/');
    }
    let w = written_params(t, r, s);
    assert(w =~= tp + rp + sp);
    assert forall|k: int| 0 <= k < w.len() implies plain_word(#[trigger] w[k]) by {
        if k < tp.len() {
            assert(w[k] == tp[k]);
        } else if k < tp.len() + rp.len() {
            assert(w[k] == rp[k - tp.len()]);
        } else {
            assert(w[k] == sp[k - tp.len() - rp.len()]);
        }
    }
    // The fold, parameter by parameter.
    let e = Seq::<Seq<char>>::empty();
    assert(fold_params(e) == (0int, 1nat, 1nat, e));
    assert(fold_params(tp) == (t, 1nat, 1nat, e)) by {
        if t != 0 {
            assert(tp.drop_last() =~= e);
        }
    }
    assert(fold_params(tp + rp) == (t, r, 1nat, e)) by {
        if r != 1 {
            assert((tp + rp).drop_last() =~= tp);
            assert((tp + rp).last() == seq!['x'] + decimal(r));
        } else {
            assert(tp + rp =~= tp);
        }
    }
    assert(fold_params(tp + rp + sp) == (t, r, s, e)) by {
        if s != 1 {
            assert((tp + rp + sp).drop_last() =~= tp + rp);
            assert((tp + rp + sp).last() == seq!['/'] + decimal(s));
        } else {
            assert(tp + rp + sp =~= tp + rp);
        }
    }
}

proof fn lemma_spaced_one(w: Seq<char>)
    ensures
        spaced(seq![w]) == seq![' '] + w,
{
    let ws = seq![w];
    assert(ws.drop_last() =~= Seq::<Seq<char>>::empty());
    assert(spaced(Seq::<Seq<char>>::empty()) =~= Seq::<char>::empty());
    assert(spaced(ws) =~= seq![' '] + w);
}

proof fn lemma_spaced_written(t: int, r: nat, s: nat)
    ensures
        spaced(written_params(t, r, s)) == (if t != 0 { seq![' '] + transpose_text(t) } else { seq![] }) + (if r != 1 {
            seq![' ', 'x'] + decimal(r)
        } else {
            seq![]
        }) + (if s != 1 { seq![' ', '/'] + decimal(s) } else { seq![] }),
{
    let tw: Seq<Seq<char>> = if t != 0 { seq![transpose_text(t)] } else { seq![] };
    let rw: Seq<Seq<char>> = if r != 1 { seq![seq!['x'] + decimal(r)] } else { seq![] };
    let sw: Seq<Seq<char>> = if s != 1 { seq![seq!['/'] + decimal(s)] } else { seq![] };
    assert(written_params(t, r, s) =~= tw + rw + sw);
    lemma_spaced_append(tw, rw);
    lemma_spaced_append(tw + rw, sw);
    assert(spaced(Seq::<Seq<char>>::empty()) =~= Seq::<char>::empty());
    lemma_spaced_one(transpose_text(t));
    lemma_spaced_one(seq!['x'] + decimal(r));
    lemma_spaced_one(seq!['/'] + decimal(s));
    assert(seq![' '] + (seq!['x'] + decimal(r)) =~= seq![' ', 'x'] + decimal(r));
    assert(seq![' '] + (seq!['/'] + decimal(s)) =~= seq![' ', '/'] + decimal(s));
}

proof fn lemma_head_words(n: Seq<char>, params: Seq<Seq<char>>)
    requires
        plain_word(n),
        forall|k: int| 0 <= k < params.len() ==> plain_word(#[trigger] params[k]),
    ensures
        words(n + spaced(params)) == seq![n] + params,
        forall|j: int| 0 <= j < (n + spaced(params)).len() ==> #[trigger] (n + spaced(params))[j] != ']',
{
    lemma_spaced_plain(params);
    let head = n + spaced(params);
    assert forall|i: int| 0 <= i < n.len() implies !is_ws(#[trigger] n[i]) by {}
    lemma_words_first(Seq::<char>::empty(), n, spaced(params));
    assert(Seq::<char>::empty() + n + spaced(params) =~= head);
    assert forall|j: int| 0 <= j < head.len() implies #[trigger] head[j] != ']' by {
        if j < n.len() {
            assert(head[j] == n[j]);
        } else {
            assert(head[j] == spaced(params)[j - n.len()]);
        }
    }
}

proof fn lemma_call_parts_shape(head: Seq<char>, x: Seq<char>, n: Seq<char>, params: Seq<Seq<char>>)
    requires
        words(head) == seq![n] + params,
        forall|j: int| 0 <= j < head.len() ==> #[trigger] head[j] != ']',
    ensures
        call_parts(seq!['[', '@'] + head + seq![']'] + x) == Some((n, params, x)),
{
    let raw = seq!['[', '@'] + head + seq![']'] + x;
    let body = raw.skip(2);
    assert(body =~= head + seq![']'] + x);
    let c = head.len() as int;
    assert forall|j: int| 0 <= j < c implies body[j] != ']' by {
        assert(body[j] == head[j]);
    }
    lemma_first_index_of(body, ']', c);
    assert(body.take(c) =~= head);
    let ws = words(head);
    assert(ws[0] == n);
    assert(ws.skip(1) =~= params);
    assert(body.skip(c + 1) =~= x);
}

proof fn lemma_call_text_shape(n: Seq<char>, t: int, r: nat, s: nat, o: Seq<Seq<char>>, x: Seq<char>)
    ensures
        call_text(n, t, r, s, o, x) == seq!['[', '@'] + (n + spaced(written_params(t, r, s) + o)) + seq![']'] + x,
{
    lemma_spaced_written(t, r, s);
    lemma_spaced_append(written_params(t, r, s), o);
    assert(call_text(n, t, r, s, o, x) =~= seq!['[', '@'] + (n + spaced(written_params(t, r, s) + o)) + seq![']'] + x);
}

proof fn lemma_call_parts_of_text(n: Seq<char>, t: int, r: nat, s: nat, o: Seq<Seq<char>>, x: Seq<char>)
    requires
        plain_word(n),
        forall|k: int| 0 <= k < (written_params(t, r, s) + o).len() ==> plain_word(#[trigger] (written_params(t, r, s) + o)[k]),
    ensures
        call_parts(call_text(n, t, r, s, o, x)) == Some((n, written_params(t, r, s) + o, x)),
{
    let params = written_params(t, r, s) + o;
    lemma_call_text_shape(n, t, r, s, o, x);
    lemma_head_words(n, params);
    lemma_call_parts_shape(n + spaced(params), x, n, params);
}

/// Writing a call whose parts are well formed and reading it back gives the same
/// parts.
proof fn lemma_call_text_reads_back(n: Seq<char>, t: int, r: nat, s: nat, o: Seq<Seq<char>>, x: Seq<char>)
    requires
        plain_word(n),
        i32::MIN < t <= i32::MAX,
        1 <= r <= u32::MAX,
        1 <= s <= u32::MAX,
        forall|k: int| 0 <= k < o.len() ==> plain_word(#[trigger] o[k]) && other_param(o[k]),
    ensures
        editable_model(call_text(n, t, r, s, o, x)) == Some((n, t, r, s, o, x)),
{
    let w = written_params(t, r, s);
    lemma_written_params(t, r, s);
    let params = w + o;
    assert forall|k: int| 0 <= k < params.len() implies plain_word(#[trigger] params[k]) by {
        if k < w.len() {
            assert(params[k] == w[k]);
        } else {
            assert(params[k] == o[k - w.len()]);
        }
    }
    lemma_call_parts_of_text(n, t, r, s, o, x);
    lemma_fold_others(w, o);
    assert(Seq::<Seq<char>>::empty() + o =~= o);
}

/// The parts that reading a call gives are well formed: the name and parameters
/// are words with no `]`, the counts are at least 1, and the other parameters are
/// none of transpose, repeat or time scale.
proof fn lemma_model_well_formed(raw: Seq<char>)
    requires
        editable_model(raw) is Some,
    ensures
        ({
            let m = editable_model(raw)->0;
            &&& plain_word(m.0)
            &&& 1 <= m.2 <= u32::MAX
            &&& 1 <= m.3 <= u32::MAX
            &&& forall|k: int| 0 <= k < m.4.len() ==> plain_word(#[trigger] m.4[k]) && other_param(m.4[k])
        }),
{
    let body = raw.skip(2);
    let c = first_index_of(body, ']')->0;
    crate::text::lemma_first_index_of_some(body, ']');
    let h = body.take(c);
    assert forall|i: int| 0 <= i < h.len() implies h[i] != ']' by {
        assert(h[i] == body[i]);
    }
    lemma_words_avoid(h, ']');
    let ws = words(h);
    assert(plain_word(ws[0]));
    let ps = ws.skip(1);
    assert forall|k: int| 0 <= k < ps.len() implies plain_word(#[trigger] ps[k]) by {
        assert(ps[k] == ws[k + 1]);
    }
    lemma_fold_props(ps);
}

/// Transposing a call by `a` and then by `b` is the same as transposing it once
/// by `a + b`, as long as the first transpose can be written and read back (it
/// stays inside `i32` and is not `i32::MIN`).
pub proof fn transposes_add_up(raw: Seq<char>, a: int, b: int)
    requires
        editable_model(raw) matches Some(m) && i32::MIN < m.1 + a <= i32::MAX,
    ensures
        transposed_call(raw, a) is Some,
        transposed_call(transposed_call(raw, a)->0, b) == transposed_call(raw, a + b),
{
    let m = editable_model(raw)->0;
    lemma_model_well_formed(raw);
    lemma_call_text_reads_back(m.0, m.1 + a, m.2, m.3, m.4, m.5);
    assert(m.1 + a + b == m.1 + (a + b));
}

/// The editable parts of a template call.
pub struct ParsedTemplateCallEditable {
    pub name: String,
    pub transpose: i32,
    pub repeat: u32,
    pub time_scale: u32,
    pub other_params: Vec<String>,
    pub suffix: String,
}

impl ParsedTemplateCallEditable {
    pub open spec fn model(&self) -> (Seq<char>, int, nat, nat, Seq<Seq<char>>, Seq<char>) {
        (
            self.name@,
            self.transpose as int,
            self.repeat as nat,
            self.time_scale as nat,
            string_views(self.other_params@),
            self.suffix@,
        )
    }

    /// The call's text: `call_text` of its parts.
    pub fn to_text(&self) -> (r: String)
        ensures
            r@ == call_text(self.name@, self.transpose as int, self.repeat as nat, self.time_scale as nat,
                string_views(self.other_params@), self.suffix@),
    {
        let mut out: Vec<char> = Vec::new();
        out.push('[');
        out.push('@');
        append(&mut out, &chars_of(self.name.as_str()));
        let ghost head = out@;
        if self.transpose != 0 {
            out.push(' ');
            append(&mut out, &transpose_chars(self.transpose));
        }
        let ghost h1 = out@;
        if self.repeat != 1 {
            out.push(' ');
            append(&mut out, &marked_count(self.repeat, 'x'));
        }
        let ghost h2 = out@;
        if self.time_scale != 1 {
            out.push(' ');
            append(&mut out, &marked_count(self.time_scale, '/'));
        }
        let ghost h3 = out@;
        proof {
            let t = self.transpose as int;
            let tp = if t != 0 { seq![' '] + transpose_text(t) } else { seq![] };
            let rp = if self.repeat != 1 { seq![' ', 'x'] + decimal(self.repeat as nat) } else { seq![] };
            let sp = if self.time_scale != 1 { seq![' ', '/'] + decimal(self.time_scale as nat) } else { seq![] };
            assert(head =~= seq!['[', '@'] + self.name@);
            assert(h1 =~= head + tp);
            assert(h2 =~= h1 + rp);
            assert(h3 =~= h2 + sp);
            assert(h3 =~= seq!['[', '@'] + self.name@ + tp + rp + sp);
        }
        let ghost ov = string_views(self.other_params@);
        let mut i: usize = 0;
        while i < self.other_params.len()
            invariant
                i <= self.other_params.len(),
                ov == string_views(self.other_params@),
                out@ == h3 + spaced(ov.take(i as int)),
            decreases self.other_params.len() - i,
        {
            let ghost before = out@;
            out.push(' ');
            append(&mut out, &chars_of(self.other_params[i].as_str()));
            proof {
                assert(ov.take(i + 1).drop_last() =~= ov.take(i as int));
                assert(ov[i as int] == self.other_params@[i as int]@);
                assert(out@ =~= before + seq![' '] + ov[i as int]);
            }
            i += 1;
        }
        assert(ov.take(ov.len() as int) =~= ov);
        out.push(']');
        append(&mut out, &chars_of(self.suffix.as_str()));
        proof {
            assert(out@ =~= call_text(self.name@, self.transpose as int, self.repeat as nat,
                self.time_scale as nat, ov, self.suffix@));
        }
        string_of(&out)
    }
}

/// Reads the editable parts of a template call.
pub fn parse_template_call_editable(raw_text: &str) -> (r: Option<ParsedTemplateCallEditable>)
    requires
        call_params_ok(raw_text@),
    ensures
        match editable_model(raw_text@) {
            Some(m) => r matches Some(p) && p.model() == m,
            None => r is None,
        },
{
    let v = chars_of(raw_text);
    if v.len() < 2 || v[0] != '[' || v[1] != '@' {
        return None;
    }
    let body = slice_vec(&v, 2, v.len());
    assert(body@ =~= v@.skip(2));
    let closing = match position_of(&body, ']') {
        Some(c) => c,
        None => {
            return None;
        },
    };
    let inside = slice_vec(&body, 0, closing);
    let suffix = slice_vec(&body, closing + 1, body.len());
    assert(inside@ =~= body@.take(closing as int));
    assert(suffix@ =~= body@.skip(closing + 1));
    let ws = words_from(&inside, 0);
    assert(inside@.skip(0) =~= inside@);
    if ws.len() == 0 {
        return None;
    }
    let ghost wv = views(ws@);
    let ghost ps = wv.skip(1);
    let mut transpose: i32 = 0;
    let mut repeat: u32 = 1;
    let mut time_scale: u32 = 1;
    let mut others: Vec<String> = Vec::new();
    let mut i: usize = 1;
    proof {
        assert(ps.take(0) =~= Seq::<Seq<char>>::empty());
        assert(string_views(others@) =~= Seq::<Seq<char>>::empty());
    }
    while i < ws.len()
        invariant
            1 <= i <= ws.len(),
            wv == views(ws@),
            ps == wv.skip(1),
            forall|k: int| 0 <= k < ps.len() ==> transpose_param_ok(#[trigger] ps[k]),
            fold_params(ps.take(i - 1)) == (transpose as int, repeat as nat, time_scale as nat, string_views(others@)),
        decreases ws.len() - i,
    {
        let p = &ws[i];
        proof {
            assert(ps.take(i as int).drop_last() =~= ps.take(i - 1));
            assert(ps.take(i as int).last() == ps[i - 1]);
            assert(ps[i - 1] == p@);
        }
        match parse_transpose_chars(p) {
            Some(t) => {
                transpose = t;
            },
            None => match parse_count_chars(p, 'x') {
                Some(n) => {
                    repeat = n;
                },
                None => match parse_count_chars(p, '/') {
                    Some(n) => {
                        time_scale = n;
                    },
                    None => {
                        let ghost o0 = string_views(others@);
                        others.push(string_of(p));
                        proof {
                            assert(string_views(others@) =~= o0.push(p@));
                        }
                    },
                },
            },
        }
        i += 1;
    }
    assert(ps.take(ws.len() - 1) =~= ps);
    Some(ParsedTemplateCallEditable {
        name: string_of(&ws[0]),
        transpose,
        repeat,
        time_scale,
        other_params: others,
        suffix: string_of(&suffix),
    })
}

/// The call's text after moving its transpose by `semitones`.
pub open spec fn transposed_call(raw: Seq<char>, semitones: int) -> Option<Seq<char>> {
    match editable_model(raw) {
        Some((n, t, r, s, o, x)) => Some(call_text(n, t + semitones, r, s, o, x)),
        None => None,
    }
}

/// Moves the transpose of a template call by `semitones`.
pub fn transposed_template_call_text(raw_text: &str, semitones: i32) -> (r: Option<String>)
    requires
        call_params_ok(raw_text@),
        editable_model(raw_text@) matches Some(m) ==> i32::MIN <= m.1 + semitones <= i32::MAX,
    ensures
        match transposed_call(raw_text@, semitones as int) {
            Some(t) => r matches Some(x) && x@ == t,
            None => r is None,
        },
{
    let mut parsed = match parse_template_call_editable(raw_text) {
        Some(p) => p,
        None => {
            return None;
        },
    };
    parsed.transpose = parsed.transpose + semitones;
    Some(parsed.to_text())
}

/// The call's text after moving its repeat count by `delta` (to at least 1).
pub open spec fn repeated_call(raw: Seq<char>, delta: i32) -> Option<Seq<char>> {
    match editable_model(raw) {
        Some((n, t, r, s, o, x)) => Some(call_text(n, t, adjusted_count(r as u32, delta), s, o, x)),
        None => None,
    }
}

/// The call's text after moving its time scale by `delta` (to at least 1).
pub open spec fn time_scaled_call(raw: Seq<char>, delta: i32) -> Option<Seq<char>> {
    match editable_model(raw) {
        Some((n, t, r, s, o, x)) => Some(call_text(n, t, r, adjusted_count(s as u32, delta), o, x)),
        None => None,
    }
}

/// Moves the repeat count of a template call by `delta`.
pub fn template_call_text_with_repeat_delta(raw_text: &str, delta: i32) -> (r: Option<String>)
    requires
        call_params_ok(raw_text@),
        editable_model(raw_text@) matches Some(m) ==> i32::MIN <= wrapped_i32(m.2 as u32) + delta
            <= i32::MAX,
    ensures
        match repeated_call(raw_text@, delta) {
            Some(t) => r matches Some(x) && x@ == t,
            None => r is None,
        },
{
    let mut parsed = match parse_template_call_editable(raw_text) {
        Some(p) => p,
        None => {
            return None;
        },
    };
    parsed.repeat = adjust_template_call_count(parsed.repeat, delta);
    Some(parsed.to_text())
}

/// Moves the time scale of a template call by `delta`.
pub fn template_call_text_with_time_scale_delta(raw_text: &str, delta: i32) -> (r: Option<String>)
    requires
        call_params_ok(raw_text@),
        editable_model(raw_text@) matches Some(m) ==> i32::MIN <= wrapped_i32(m.3 as u32) + delta
            <= i32::MAX,
    ensures
        match time_scaled_call(raw_text@, delta) {
            Some(t) => r matches Some(x) && x@ == t,
            None => r is None,
        },
{
    let mut parsed = match parse_template_call_editable(raw_text) {
        Some(p) => p,
        None => {
            return None;
        },
    };
    parsed.time_scale = adjust_template_call_count(parsed.time_scale, delta);
    Some(parsed.to_text())
}


/// The name, parameters and suffix of a call given as characters.
pub fn call_parts_chars(v: &Vec<char>) -> (r: Option<(Vec<char>, Vec<Vec<char>>, Vec<char>)>)
    ensures
        match call_parts(v@) {
            Some((n, ps, x)) => r matches Some(t) && t.0@ == n && views(t.1@) == ps && t.2@ == x,
            None => r is None,
        },
{
    if v.len() < 2 || v[0] != '[' || v[1] != '@' {
        return None;
    }
    let body = slice_vec(v, 2, v.len());
    assert(body@ =~= v@.skip(2));
    let closing = match position_of(&body, ']') {
        Some(c) => c,
        None => {
            return None;
        },
    };
    let inside = slice_vec(&body, 0, closing);
    let suffix = slice_vec(&body, closing + 1, body.len());
    assert(inside@ =~= body@.take(closing as int));
    assert(suffix@ =~= body@.skip(closing + 1));
    let ws = words_from(&inside, 0);
    assert(inside@.skip(0) =~= inside@);
    if ws.len() == 0 {
        return None;
    }
    let name = slice_vec(&ws[0], 0, ws[0].len());
    assert(name@ =~= ws@[0]@);
    let mut params: Vec<Vec<char>> = Vec::new();
    let mut i: usize = 1;
    while i < ws.len()
        invariant
            1 <= i <= ws.len(),
            params.len() == i - 1,
            views(params@) == views(ws@).subrange(1, i as int),
        decreases ws.len() - i,
    {
        let ghost p0 = views(params@);
        params.push(slice_vec(&ws[i], 0, ws[i].len()));
        proof {
            assert(params@[i - 1]@ =~= ws@[i as int]@);
            assert(views(params@) =~= p0.push(ws@[i as int]@));
            assert(views(ws@).subrange(1, i + 1) =~= views(ws@).subrange(1, i as int).push(ws@[i as int]@));
        }
        i += 1;
    }
    assert(views(ws@).subrange(1, ws.len() as int) =~= views(ws@).skip(1));
    Some((name, params, suffix))
}

} // verus!
