//! Renaming a template: its definition header and the calls to it.
use vstd::prelude::*;
use crate::studio::selection::{clamp_col, replace_char_range, replaced};
use crate::studio::template_ops::{call_name, scan_calls, template_call_spans_in_line, calls_are};
use crate::text::{
    chars_of, eq_chars, has_prefix_at, is_ascii_alnum, is_ascii_alphanumeric, is_prefix, slice_vec,
    starts_with, string_of, string_views, trim, trimmed,
};

verus! {

/// The name a line defines: the trimmed text after `# @` of the trimmed line,
/// when not empty.
pub open spec fn definition_name(l: Seq<char>) -> Option<Seq<char>> {
    let t = trim(l);
    if is_prefix("# @"@, t) && trim(t.skip(3)).len() > 0 {
        Some(trim(t.skip(3)))
    } else {
        None
    }
}

/// The name that line `l` defines.
pub fn template_definition_name(line: &str) -> (r: Option<String>)
    ensures
        match definition_name(line@) {
            Some(n) => r matches Some(x) && x@ == n,
            None => r is None,
        },
{
    let t = trimmed(&chars_of(line));
    if !starts_with(&t, &chars_of("# @")) {
        return None;
    }
    proof {
        reveal_strlit("# @");
    }
    let rest = slice_vec(&t, 3, t.len());
    assert(rest@ =~= t@.skip(3));
    let n = trimmed(&rest);
    if n.len() > 0 {
        Some(string_of(&n))
    } else {
        None
    }
}

/// A template name: not empty, made of ASCII letters, digits, `-` and `_`.
pub open spec fn valid_template_name(s: Seq<char>) -> bool {
    s.len() > 0 && forall|i: int| 0 <= i < s.len() ==> is_ascii_alnum(#[trigger] s[i]) || s[i] == '-' || s[i] == '_'
}

/// Checks the shape of a template name.
pub fn validate_template_name(name: &str) -> (r: Result<(), String>)
    ensures
        valid_template_name(name@) ==> r is Ok,
        !valid_template_name(name@) ==> (r matches Err(m) && m@
            == "Template name must use ASCII letters, digits, `_`, and `-`"@),
{
    let v = chars_of(name);
    let mut ok = v.len() > 0;
    let mut i: usize = 0;
    while i < v.len()
        invariant
            i <= v.len(),
            v@ == name@,
            ok == (v.len() > 0 && forall|j: int| 0 <= j < i ==> is_ascii_alnum(#[trigger] v@[j]) || v@[j] == '-'
                || v@[j] == '_'),
        decreases v.len() - i,
    {
        let c = v[i];
        if !(is_ascii_alphanumeric(c) || c == '-' || c == '_') {
            ok = false;
        }
        i += 1;
    }
    if ok {
        Ok(())
    } else {
        Err(crate::text::owned("Template name must use ASCII letters, digits, `_`, and `-`"))
    }
}

/// The first column from `i` on where `pat` occurs in `s`.
pub open spec fn find_from(s: Seq<char>, pat: Seq<char>, i: int) -> Option<int>
    decreases s.len() + 1 - i,
{
    if i < 0 || i + pat.len() > s.len() {
        None
    } else if s.subrange(i, i + pat.len()) == pat {
        Some(i)
    } else {
        find_from(s, pat, i + 1)
    }
}

proof fn lemma_find_from_bound(s: Seq<char>, pat: Seq<char>, i: int)
    ensures
        find_from(s, pat, i) matches Some(p) ==> i <= p && p + pat.len() <= s.len(),
    decreases s.len() + 1 - i,
{
    if !(i < 0 || i + pat.len() > s.len()) && s.subrange(i, i + pat.len()) != pat {
        lemma_find_from_bound(s, pat, i + 1);
    }
}

/// A definition line after renaming `old` to `new` in it: the `old.len()`
/// characters after the first `# @` become `new`.
pub open spec fn definition_renamed(l: Seq<char>, old: Seq<char>, new: Seq<char>) -> Seq<char> {
    match find_from(l, "# @"@, 0) {
        None => l,
        Some(p) => replaced(l, p + 3, p + 3 + old.len(), new),
    }
}

/// Renames the calls among `cs[..n]` of line `orig` to `old`, last first: in
/// each, the `old.len()` characters after `[@` become `new`.
pub open spec fn calls_renamed(l: Seq<char>, orig: Seq<char>, cs: Seq<(int, int, int)>, n: int, old: Seq<char>, new: Seq<char>) -> Seq<char>
    decreases n,
{
    if n <= 0 {
        l
    } else {
        let c = cs[n - 1];
        let l2 = if call_name(orig, c.0, c.2) == old {
            replaced(l, c.0 + 2, c.0 + 2 + old.len(), new)
        } else {
            l
        };
        calls_renamed(l2, orig, cs, n - 1, old, new)
    }
}

/// A line after renaming template `old` to `new`: its definition, if it defines
/// `old`, then its calls to `old`.
pub open spec fn line_renamed(l: Seq<char>, old: Seq<char>, new: Seq<char>) -> Seq<char> {
    let d = if definition_name(l) == Some(old) {
        definition_renamed(l, old, new)
    } else {
        l
    };
    let cs = scan_calls(d, 0);
    calls_renamed(d, d, cs, cs.len() as int, old, new)
}

/// The number of lines that define `name`.
pub open spec fn definition_count(ls: Seq<Seq<char>>, name: Seq<char>) -> nat
    decreases ls.len(),
{
    if ls.len() == 0 {
        0
    } else {
        definition_count(ls.drop_last(), name) + if definition_name(ls.last()) == Some(name) {
            1nat
        } else {
            0nat
        }
    }
}

/// What renaming template `old` to `new` in `ls` gives: the renamed lines, or
/// why it is refused.
pub open spec fn spec_rename(ls: Seq<Seq<char>>, old: Seq<char>, new: Seq<char>) -> Result<Seq<Seq<char>>, Seq<char>> {
    if !valid_template_name(new) {
        Err("Template name must use ASCII letters, digits, `_`, and `-`"@)
    } else if old == new {
        Err("Template name unchanged"@)
    } else if definition_count(ls, old) == 0 {
        Err("Template @"@ + old + " definition not found"@)
    } else if definition_count(ls, old) > 1 {
        Err("Template @"@ + old + " has multiple definitions"@)
    } else if definition_count(ls, new) > 0 {
        Err("Template @"@ + new + " already exists"@)
    } else {
        Ok(renamed_lines(ls, old, new))
    }
}

/// Every line of `ls` with template `old` renamed to `new`.
pub open spec fn renamed_lines(ls: Seq<Seq<char>>, old: Seq<char>, new: Seq<char>) -> Seq<Seq<char>> {
    ls.map_values(|l: Seq<char>| line_renamed(l, old, new))
}

fn count_definitions(lines: &[String], name: &Vec<char>) -> (r: usize)
    ensures
        r == definition_count(string_views(lines@), name@),
{
    let ghost ls = string_views(lines@);
    let mut count: usize = 0;
    let mut i: usize = 0;
    while i < lines.len()
        invariant
            i <= lines@.len(),
            ls == string_views(lines@),
            count == definition_count(ls.take(i as int), name@),
            count <= i,
        decreases lines@.len() - i,
    {
        proof {
            assert(ls.take(i + 1).drop_last() =~= ls.take(i as int));
            assert(ls.take(i + 1).last() == lines@[i as int]@);
        }
        match template_definition_name(lines[i].as_str()) {
            Some(n) => {
                if eq_chars(&chars_of(n.as_str()), name) {
                    count += 1;
                }
            },
            None => {},
        }
        i += 1;
    }
    assert(ls.take(lines@.len() as int) =~= ls);
    count
}

fn find_definition_prefix(v: &Vec<char>) -> (r: Option<usize>)
    ensures
        match find_from(v@, "# @"@, 0) {
            Some(p) => r == Some(p as usize) && 0 <= p && p + 3 <= v@.len(),
            None => r is None,
        },
{
    let pat = chars_of("# @");
    proof {
        reveal_strlit("# @");
    }
    if v.len() < 3 {
        return None;
    }
    let mut i: usize = 0;
    while i <= v.len() - 3
        invariant
            v.len() >= 3,
            pat@ == "# @"@,
            pat@.len() == 3,
            find_from(v@, pat@, 0) == find_from(v@, pat@, i as int),
        decreases v.len() - i,
    {
        if has_prefix_at(v, i, &pat) {
            assert(find_from(v@, pat@, i as int) == Some(i as int));
            return Some(i);
        }
        i += 1;
    }
    None
}

/// Renames the definition `old` to `new` on a line that defines it.
pub fn replace_template_definition_name(line: &mut String, old_name: &str, new_name: &str)
    requires
        old(line)@.len() + old_name@.len() + 3 <= usize::MAX,
    ensures
        final(line)@ == definition_renamed(old(line)@, old_name@, new_name@),
{
    let v = chars_of(line.as_str());
    let p = match find_definition_prefix(&v) {
        Some(p) => p,
        None => {
            return;
        },
    };
    let old_len = chars_of(old_name).len();
    replace_char_range(line, p + 3, p + 3 + old_len, new_name);
}

/// Renames template `old_name` to `new_name` in the lines of a score.
pub fn rename_template_in_lines(lines: &[String], old_name: &str, new_name: &str) -> (r: Result<Vec<String>, String>)
    requires
        forall|i: int| 0 <= i < lines@.len() ==> (#[trigger] lines@[i])@.len() + old_name@.len() + new_name@.len()
            + 3 <= usize::MAX,
    ensures
        match spec_rename(string_views(lines@), old_name@, new_name@) {
            Ok(t) => r matches Ok(x) && string_views(x@) == t,
            Err(m) => r matches Err(x) && x@ == m,
        },
{
    let ghost ls = string_views(lines@);
    match validate_template_name(new_name) {
        Ok(()) => {},
        Err(e) => {
            return Err(e);
        },
    }
    let old_v = chars_of(old_name);
    let new_v = chars_of(new_name);
    if eq_chars(&old_v, &new_v) {
        return Err(crate::text::owned("Template name unchanged"));
    }
    let count = count_definitions(lines, &old_v);
    if count == 0 {
        let mut m = chars_of("Template @");
        crate::text::append(&mut m, &old_v);
        crate::text::append(&mut m, &chars_of(" definition not found"));
        return Err(string_of(&m));
    }
    if count > 1 {
        let mut m = chars_of("Template @");
        crate::text::append(&mut m, &old_v);
        crate::text::append(&mut m, &chars_of(" has multiple definitions"));
        return Err(string_of(&m));
    }
    if count_definitions(lines, &new_v) > 0 {
        let mut m = chars_of("Template @");
        crate::text::append(&mut m, &new_v);
        crate::text::append(&mut m, &chars_of(" already exists"));
        return Err(string_of(&m));
    }
    let mut renamed: Vec<String> = Vec::new();
    let mut i: usize = 0;
    while i < lines.len()
        invariant
            i <= lines@.len(),
            ls == string_views(lines@),
            forall|k: int| 0 <= k < lines@.len() ==> (#[trigger] lines@[k])@.len() + old_name@.len()
                + new_name@.len() + 3 <= usize::MAX,
            string_views(renamed@) == renamed_lines(ls.take(i as int), old_name@, new_name@),
        decreases lines@.len() - i,
    {
        let ghost r0 = string_views(renamed@);
        let line = rename_in_line(lines[i].as_str(), old_name, new_name);
        renamed.push(line);
        proof {
            assert(ls[i as int] == lines@[i as int]@);
            assert(string_views(renamed@) =~= r0.push(renamed@[i as int]@));
            assert(ls.take(i + 1) =~= ls.take(i as int).push(ls[i as int]));
            assert(renamed_lines(ls.take(i + 1), old_name@, new_name@) =~= renamed_lines(ls.take(i as int), old_name@, new_name@).push(line_renamed(ls[i as int], old_name@, new_name@)));
        }
        i += 1;
    }
    assert(ls.take(lines@.len() as int) =~= ls);
    Ok(renamed)
}

/// One line of a score with template `old_name` renamed to `new_name`.
pub fn rename_in_line(line: &str, old_name: &str, new_name: &str) -> (r: String)
    requires
        line@.len() + old_name@.len() + new_name@.len() + 3 <= usize::MAX,
    ensures
        r@ == line_renamed(line@, old_name@, new_name@),
{
    let mut l = crate::text::owned(line);
    let old_v = chars_of(old_name);
    let defines = match template_definition_name(line) {
        Some(n) => eq_chars(&chars_of(n.as_str()), &old_v),
        None => false,
    };
    if defines {
        replace_template_definition_name(&mut l, old_name, new_name);
        proof {
            lemma_find_from_bound(line@, "# @"@, 0);
            match find_from(line@, "# @"@, 0) {
                None => {},
                Some(p) => {
                    let a = clamp_col(line@, p + 3);
                    let b = clamp_col(line@, p + 3 + old_name@.len());
                    assert(a <= b <= line@.len());
                    assert(line@.take(a).len() == a);
                    assert(line@.skip(b).len() == line@.len() - b);
                    assert(l@ == line@.take(a) + new_name@ + line@.skip(b));
                    assert(l@.len() == a + new_name@.len() + (line@.len() - b));
                },
            }
        }
    }
    let ghost d = l@;
    assert(d.len() <= line@.len() + new_name@.len());
    let spans = template_call_spans_in_line(0, l.as_str());
    let ghost cs = scan_calls(d, 0);
    proof {
        crate::studio::template_ops::lemma_scan_calls_bounds(d, 0);
    }
    let mut k: usize = spans.len();
    while k > 0
        invariant
            k <= spans@.len(),
            calls_are(spans@, 0, d, cs),
            d.len() <= line@.len() + new_name@.len(),
            line@.len() + old_name@.len() + new_name@.len() + 3 <= usize::MAX,
            old_v@.len() == old_name@.len(),
            forall|j: int| 0 <= j < cs.len() ==> (#[trigger] cs[j]).0 + 2 <= cs[j].2 < cs[j].1 <= d.len(),
            old_v@ == old_name@,
            calls_renamed(l@, d, cs, k as int, old_name@, new_name@) == calls_renamed(d, d, cs, cs.len() as int,
                old_name@, new_name@),
        decreases k,
    {
        let span = &spans[k - 1];
        let ghost l0 = l@;
        if eq_chars(&chars_of(span.template_name.as_str()), &old_v) {
            let start = span.start_col;
            assert(cs[k - 1].0 == start);
            replace_char_range(&mut l, start + 2, start + 2 + old_v.len(), new_name);
        }
        proof {
            let c = cs[k - 1];
            assert(span.template_name@ == call_name(d, c.0, c.2));
        }
        k -= 1;
    }
    l
}

} // verus!
