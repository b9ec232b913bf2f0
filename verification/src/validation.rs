//! Validation of the small numeric settings of a score: 7-bit MIDI values,
//! MIDI channels, time signatures and the playback unit.
use vstd::prelude::*;
use vstd::arithmetic::power2::{lemma2_to64, lemma_pow2_pos, lemma_pow2_unfold, pow2};
use crate::text::{
    all_digits, is_digit, lead_ws, lemma_decimal_value, lemma_first_index_of, trail_ws, ascii_lowercase, chars_of, concat, decimal, decimal_chars, eq_chars, first_index_of, owned,
    parse_unsigned, parse_unsigned_at, position_of, signed_decimal, signed_decimal_chars,
    slice_vec, string_of, to_lower, trim, trimmed,
};

verus! {

/// `"Invalid number '<raw>'"`.
pub open spec fn invalid_number_msg(raw: Seq<char>) -> Seq<char> {
    "Invalid number '"@ + raw + "'"@
}

/// `"Out of range '<raw>': expected 0..127"`.
pub open spec fn out_of_range_msg(raw: Seq<char>) -> Seq<char> {
    "Out of range '"@ + raw + "': expected 0..127"@
}

/// Parses a 7-bit MIDI value: a `u16` numeral (optional `+`, digits) no larger than 127.
pub fn parse_u7(raw: &str) -> (r: Result<u8, String>)
    ensures
        match parse_unsigned(raw@, 65535) {
            None => r matches Err(m) && m@ == invalid_number_msg(raw@),
            Some(n) => if n <= 127 {
                r == Ok::<u8, String>(n as u8)
            } else {
                r matches Err(m) && m@ == out_of_range_msg(raw@)
            },
        },
{
    let v = chars_of(raw);
    match parse_unsigned_at(&v, 0, v.len(), 65535) {
        None => {
            assert(v@.subrange(0, v.len() as int) =~= raw@);
            let m = concat(&concat(&chars_of("Invalid number '"), &v), &chars_of("'"));
            Err(string_of(&m))
        },
        Some(n) => {
            assert(v@.subrange(0, v.len() as int) =~= raw@);
            if n > 127 {
                let m = concat(
                    &concat(&chars_of("Out of range '"), &v),
                    &chars_of("': expected 0..127"),
                );
                Err(string_of(&m))
            } else {
                Ok(n as u8)
            }
        },
    }
}

/// `"<label> out of range: <value> (expected 0..127)"`.
pub open spec fn u7_range_msg(label: Seq<char>, value: int) -> Seq<char> {
    label + " out of range: "@ + signed_decimal(value) + " (expected 0..127)"@
}

/// Accepts a value in `0..=127` as a 7-bit MIDI value.
pub fn ensure_u7_i32(value: i32, label: &str) -> (r: Result<u8, String>)
    ensures
        0 <= value <= 127 ==> r == Ok::<u8, String>(value as u8),
        !(0 <= value <= 127) ==> (r matches Err(m) && m@ == u7_range_msg(label@, value as int)),
{
    if !(0 <= value && value <= 127) {
        let m = concat(
            &concat(
                &concat(&chars_of(label), &chars_of(" out of range: ")),
                &signed_decimal_chars(value as i64),
            ),
            &chars_of(" (expected 0..127)"),
        );
        return Err(string_of(&m));
    }
    Ok(value as u8)
}

/// `"Invalid MIDI channel: <channel> (expected 1..16)"`.
pub open spec fn channel_msg(channel: u8) -> Seq<char> {
    "Invalid MIDI channel: "@ + decimal(channel as nat) + " (expected 1..16)"@
}

/// Accepts a 1-based MIDI channel number (`1..=16`).
pub fn ensure_channel_1_based(channel: u8) -> (r: Result<u8, String>)
    ensures
        1 <= channel <= 16 ==> r == Ok::<u8, String>(channel),
        !(1 <= channel <= 16) ==> (r matches Err(m) && m@ == channel_msg(channel)),
{
    if !(1 <= channel && channel <= 16) {
        let m = concat(
            &concat(&chars_of("Invalid MIDI channel: "), &decimal_chars(channel as u64)),
            &chars_of(" (expected 1..16)"),
        );
        return Err(string_of(&m));
    }
    Ok(channel)
}

/// Converts a 1-based MIDI channel into the 0-based number that MIDI messages carry.
pub fn to_zero_based_channel(channel: u8) -> (r: Result<u8, String>)
    ensures
        1 <= channel <= 16 ==> r == Ok::<u8, String>((channel - 1) as u8),
        !(1 <= channel <= 16) ==> (r matches Err(m) && m@ == channel_msg(channel)),
{
    let ch = ensure_channel_1_based(channel)?;
    Ok(ch - 1)
}

/// Whether `n` is a power of two (`u16::is_power_of_two`).
pub open spec fn is_pow2(n: nat) -> bool
    decreases n,
{
    if n == 0 {
        false
    } else if n == 1 {
        true
    } else {
        n % 2 == 0 && is_pow2(n / 2)
    }
}

fn power_of_two(n: u16) -> (b: bool)
    ensures
        b == is_pow2(n as nat),
{
    let mut m = n;
    while m > 1 && m % 2 == 0
        invariant
            is_pow2(n as nat) == is_pow2(m as nat),
            m <= n,
        decreases m,
    {
        m = m / 2;
    }
    m == 1
}

/// What `parse_signature` gives for the text `s`: the numerator and denominator of
/// `<numerator>/<denominator>` (each trimmed and parsed as a `u16`), or the message
/// of the first check that fails.
pub open spec fn signature_outcome(s: Seq<char>) -> Result<(u16, u16), Seq<char>> {
    match first_index_of(s, '/') {
        None => Err("Invalid signature '"@ + s + "': expected <numerator>/<denominator>"@),
        Some(i) => {
            let num = trim(s.take(i));
            let den = trim(s.skip(i + 1));
            match parse_unsigned(num, 65535) {
                None => Err("Invalid signature numerator '"@ + num + "'"@),
                Some(n) => match parse_unsigned(den, 65535) {
                    None => Err("Invalid signature denominator '"@ + den + "'"@),
                    Some(d) => if n == 0 {
                        Err("Signature numerator must be >= 1"@)
                    } else if d == 0 {
                        Err("Signature denominator must be >= 1"@)
                    } else if !is_pow2(d) {
                        Err("Signature denominator must be a power of two, got "@ + decimal(d))
                    } else {
                        Ok((n as u16, d as u16))
                    },
                },
            }
        },
    }
}

/// Parses a time signature such as `3/4`.
pub fn parse_signature(signature: &str) -> (r: Result<(u16, u16), String>)
    ensures
        match signature_outcome(signature@) {
            Ok(p) => r == Ok::<(u16, u16), String>(p),
            Err(m) => r matches Err(e) && e@ == m,
        },
{
    let v = chars_of(signature);
    let slash = match position_of(&v, '/') {
        None => {
            let m = concat(
                &concat(&chars_of("Invalid signature '"), &v),
                &chars_of("': expected <numerator>/<denominator>"),
            );
            return Err(string_of(&m));
        },
        Some(i) => i,
    };
    let num_raw = slice_vec(&v, 0, slash);
    let den_raw = slice_vec(&v, slash + 1, v.len());
    assert(num_raw@ =~= v@.take(slash as int));
    assert(den_raw@ =~= v@.skip(slash + 1));
    let num = trimmed(&num_raw);
    let den = trimmed(&den_raw);
    let numerator = match parse_unsigned_at(&num, 0, num.len(), 65535) {
        None => {
            assert(num@.subrange(0, num.len() as int) =~= num@);
            let m = concat(
                &concat(&chars_of("Invalid signature numerator '"), &num),
                &chars_of("'"),
            );
            return Err(string_of(&m));
        },
        Some(n) => n,
    };
    assert(num@.subrange(0, num.len() as int) =~= num@);
    let denominator = match parse_unsigned_at(&den, 0, den.len(), 65535) {
        None => {
            assert(den@.subrange(0, den.len() as int) =~= den@);
            let m = concat(
                &concat(&chars_of("Invalid signature denominator '"), &den),
                &chars_of("'"),
            );
            return Err(string_of(&m));
        },
        Some(d) => d,
    };
    assert(den@.subrange(0, den.len() as int) =~= den@);
    let numerator = numerator as u16;
    let denominator = denominator as u16;
    if numerator == 0 {
        return Err(owned("Signature numerator must be >= 1"));
    }
    if denominator == 0 {
        return Err(owned("Signature denominator must be >= 1"));
    }
    if !power_of_two(denominator) {
        let m = concat(
            &chars_of("Signature denominator must be a power of two, got "),
            &decimal_chars(denominator as u64),
        );
        return Err(string_of(&m));
    }
    Ok((numerator, denominator))
}

/// Whether `s`, lower-cased in ASCII, is `bar` or `beat`.
pub open spec fn is_unit_name(s: Seq<char>) -> bool {
    let l = s.map_values(|c: char| to_lower(c));
    l == "bar"@ || l == "beat"@
}

/// Lower-cases the ASCII letters of `v`.
pub fn ascii_lowercase_chars(v: &Vec<char>) -> (r: Vec<char>)
    ensures
        r@ == v@.map_values(|c: char| to_lower(c)),
{
    let mut r: Vec<char> = Vec::new();
    let mut i: usize = 0;
    while i < v.len()
        invariant
            i <= v.len(),
            r@ == v@.take(i as int).map_values(|c: char| to_lower(c)),
        decreases v.len() - i,
    {
        r.push(ascii_lowercase(v[i]));
        i += 1;
        assert(r@ =~= v@.take(i as int).map_values(|c: char| to_lower(c)));
    }
    assert(v@.take(v.len() as int) =~= v@);
    r
}

/// Accepts the playback unit names `bar` and `beat`, in any ASCII case.
pub fn validate_unit(unit: &str) -> (r: Result<(), String>)
    ensures
        is_unit_name(unit@) ==> r is Ok,
        !is_unit_name(unit@) ==> (r matches Err(m) && m@ == "Invalid unit '"@ + unit@
            + "': expected 'bar' or 'beat'"@),
{
    let v = chars_of(unit);
    let l = ascii_lowercase_chars(&v);
    if eq_chars(&l, &chars_of("bar")) || eq_chars(&l, &chars_of("beat")) {
        Ok(())
    } else {
        let m = concat(
            &concat(&chars_of("Invalid unit '"), &v),
            &chars_of("': expected 'bar' or 'beat'"),
        );
        Err(string_of(&m))
    }
}

/// Every power of two passes `is_pow2`.
proof fn lemma_pow2_is_pow2(k: nat)
    ensures
        is_pow2(pow2(k)),
    decreases k,
{
    lemma2_to64();
    if k > 0 {
        lemma_pow2_unfold(k);
        lemma_pow2_pos((k - 1) as nat);
        lemma_pow2_is_pow2((k - 1) as nat);
        let m = pow2((k - 1) as nat);
        assert((2 * m) % 2 == 0 && (2 * m) / 2 == m);
    }
}

/// Only powers of two pass `is_pow2`.
proof fn lemma_is_pow2_is_pow2(n: nat)
    requires
        is_pow2(n),
    ensures
        exists|k: nat| pow2(k) == n,
    decreases n,
{
    lemma2_to64();
    if n == 1 {
        assert(pow2(0) == n);
    } else {
        lemma_is_pow2_is_pow2(n / 2);
        let k = choose|k: nat| pow2(k) == n / 2;
        lemma_pow2_unfold(k + 1);
        assert(pow2(k + 1) == n);
    }
}

/// A numeral is its own trimmed text, and reads back as its value.
pub proof fn lemma_numeral_reads_back(n: nat, max: nat)
    requires
        n <= max,
    ensures
        trim(decimal(n)) == decimal(n),
        parse_unsigned(decimal(n), max) == Some(n),
        forall|j: int| 0 <= j < decimal(n).len() ==> decimal(n)[j] != '/',
{
    lemma_decimal_value(n);
    let s = decimal(n);
    assert(is_digit(s[0]));
    assert(is_digit(s.last())) by {
        assert(s.last() == s[s.len() - 1]);
    }
    assert(lead_ws(s) == 0);
    assert(trail_ws(s) == 0);
    assert(trim(s) =~= s);
    assert forall|j: int| 0 <= j < s.len() implies s[j] != '/' by {
        assert(is_digit(s[j]));
    }
}

/// A time signature `n/d` with a numerator of at least one reads as `(n, d)`
/// exactly when the denominator is a power of two; any other denominator is
/// refused with the message that names it.
pub proof fn signature_reads_power_of_two_denominators(n: nat, d: nat)
    requires
        1 <= n <= 65535,
        1 <= d <= 65535,
    ensures
        (exists|k: nat| pow2(k) == d) ==> signature_outcome(decimal(n) + "/"@ + decimal(d)) == Ok::<
            (u16, u16),
            Seq<char>,
        >((n as u16, d as u16)),
        !(exists|k: nat| pow2(k) == d) ==> signature_outcome(decimal(n) + "/"@ + decimal(d)) == Err::<
            (u16, u16),
            Seq<char>,
        >("Signature denominator must be a power of two, got "@ + decimal(d)),
{
    reveal_strlit("/");
    lemma_numeral_reads_back(n, 65535);
    lemma_numeral_reads_back(d, 65535);
    let a = decimal(n);
    let s = a + "/"@ + decimal(d);
    assert forall|j: int| 0 <= j < a.len() implies s[j] != '/' by {
        assert(s[j] == a[j]);
    }
    assert(s[a.len() as int] == '/');
    lemma_first_index_of(s, '/', a.len() as int);
    assert(s.take(a.len() as int) =~= a);
    assert(s.skip(a.len() as int + 1) =~= decimal(d));
    if exists|k: nat| pow2(k) == d {
        let k = choose|k: nat| pow2(k) == d;
        lemma_pow2_is_pow2(k);
    } else {
        if is_pow2(d) {
            lemma_is_pow2_is_pow2(d);
        }
    }
}

/// The unit names `bar` and `beat` are taken with each letter in either case,
/// and nothing else is.
pub proof fn unit_names_in_any_case(u: Seq<char>)
    ensures
        is_unit_name(u) <==> (u.len() == 3 && forall|i: int| 0 <= i < 3 ==> #[trigger] u[i] == "bar"@[i]
            || u[i] == "BAR"@[i]) || (u.len() == 4 && forall|i: int| 0 <= i < 4 ==> #[trigger] u[i]
            == "beat"@[i] || u[i] == "BEAT"@[i]),
{
    reveal_strlit("bar");
    reveal_strlit("BAR");
    reveal_strlit("beat");
    reveal_strlit("BEAT");
    let l = u.map_values(|c: char| to_lower(c));
    if u.len() == 3 && forall|i: int| 0 <= i < 3 ==> #[trigger] u[i] == "bar"@[i] || u[i] == "BAR"@[i] {
        assert(l =~= "bar"@);
    }
    if u.len() == 4 && forall|i: int| 0 <= i < 4 ==> #[trigger] u[i] == "beat"@[i] || u[i] == "BEAT"@[i] {
        assert(l =~= "beat"@);
    }
    assert(l.len() == u.len());
    if l == "bar"@ {
        assert(u.len() == 3);
        assert forall|i: int| 0 <= i < 3 implies #[trigger] u[i] == "bar"@[i] || u[i] == "BAR"@[i] by {
            assert(l[i] == to_lower(u[i]));
        }
    }
    if l == "beat"@ {
        assert(u.len() == 4);
        assert forall|i: int| 0 <= i < 4 implies #[trigger] u[i] == "beat"@[i] || u[i] == "BEAT"@[i] by {
            assert(l[i] == to_lower(u[i]));
        }
    }
}

} // verus!
