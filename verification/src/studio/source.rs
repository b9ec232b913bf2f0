//! The editor's source text: the text of its lines, the bounded stack of undo
//! snapshots, where the cursor lands after an undo, and fragment calls.
use vstd::prelude::*;
use crate::text::{chars_of, join_lines, slice_vec, string_of, string_views, strings_chars, join_lines_vec, trim, trimmed};

verus! {

/// The most snapshots the undo stack keeps.
pub const MAX_SOURCE_UNDO: usize = 32;

/// A snapshot taken before an edit: the source and the cursor.
pub struct SourceUndoEntry {
    pub source: String,
    pub cursor: (usize, usize),
}

/// The snapshots taken before edits, oldest first.
pub struct SourceUndoStack {
    pub entries: Vec<SourceUndoEntry>,
}

/// A snapshot as plain values.
pub open spec fn entry_view(e: SourceUndoEntry) -> (Seq<char>, (usize, usize)) {
    (e.source@, e.cursor)
}

/// The snapshots after pushing `e`: past `MAX_SOURCE_UNDO` snapshots, the oldest goes.
pub open spec fn after_push(v: Seq<(Seq<char>, (usize, usize))>, e: (Seq<char>, (usize, usize))) -> Seq<
    (Seq<char>, (usize, usize)),
> {
    let pushed = v.push(e);
    if pushed.len() > MAX_SOURCE_UNDO {
        pushed.drop_first()
    } else {
        pushed
    }
}

/// Undo gives back the last snapshot pushed: after a push, the newest snapshot is
/// the one pushed, and popping it leaves the stack as it was before the push when
/// that held fewer than `MAX_SOURCE_UNDO` snapshots. The stack never holds more
/// than `MAX_SOURCE_UNDO` snapshots.
pub proof fn undo_returns_last_snapshot(v: Seq<(Seq<char>, (usize, usize))>, e: (Seq<char>, (usize, usize)))
    ensures
        after_push(v, e).len() > 0,
        after_push(v, e).last() == e,
        v.len() < MAX_SOURCE_UNDO ==> after_push(v, e).drop_last() == v,
        v.len() <= MAX_SOURCE_UNDO ==> after_push(v, e).len() <= MAX_SOURCE_UNDO,
{
    let pushed = v.push(e);
    if pushed.len() > MAX_SOURCE_UNDO {
        assert(pushed.drop_first().last() == pushed.last());
    } else {
        assert(pushed.drop_last() =~= v);
    }
}

impl SourceUndoStack {
    /// The snapshots, oldest first.
    pub open spec fn view(&self) -> Seq<(Seq<char>, (usize, usize))> {
        self.entries@.map_values(|e: SourceUndoEntry| entry_view(e))
    }

    /// An empty stack.
    pub fn new() -> (r: SourceUndoStack)
        ensures
            r.view() == Seq::<(Seq<char>, (usize, usize))>::empty(),
    {
        let r = SourceUndoStack { entries: Vec::new() };
        assert(r.view() =~= Seq::<(Seq<char>, (usize, usize))>::empty());
        r
    }

    /// Pushes a snapshot; past `MAX_SOURCE_UNDO` snapshots, the oldest goes.
    pub fn push(&mut self, source: String, cursor: (usize, usize))
        ensures
            final(self).view() == after_push(old(self).view(), (source@, cursor)),
    {
        let ghost v0 = self.view();
        let ghost s = source@;
        self.entries.push(SourceUndoEntry { source, cursor });
        assert(self.view() =~= v0.push((s, cursor)));
        if self.entries.len() > MAX_SOURCE_UNDO {
            let ghost v1 = self.view();
            self.entries.remove(0);
            assert(self.view() =~= v1.drop_first());
        }
    }

    /// Takes the newest snapshot.
    pub fn pop(&mut self) -> (r: Option<SourceUndoEntry>)
        ensures
            old(self).view().len() == 0 ==> r is None && final(self).view() == old(self).view(),
            old(self).view().len() > 0 ==> (r matches Some(e) && entry_view(e) == old(self).view().last())
                && final(self).view() == old(self).view().drop_last(),
    {
        let ghost v0 = self.view();
        let r = self.entries.pop();
        assert(self.view() =~= if v0.len() > 0 { v0.drop_last() } else { v0 });
        r
    }

    /// Drops every snapshot.
    pub fn clear(&mut self)
        ensures
            final(self).view() == Seq::<(Seq<char>, (usize, usize))>::empty(),
    {
        self.entries.clear();
        assert(self.view() =~= Seq::<(Seq<char>, (usize, usize))>::empty());
    }

    /// The number of snapshots.
    pub fn len(&self) -> (r: usize)
        ensures
            r == self.view().len(),
    {
        self.entries.len()
    }
}

/// The source text of the editor's lines: joined by newlines, with a final one.
pub fn source_of_lines(lines: &[String]) -> (r: String)
    ensures
        r@ == join_lines(string_views(lines@)) + seq!['\n'],
{
    let vs = strings_chars(lines);
    let mut v = join_lines_vec(&vs);
    v.push('\n');
    string_of(&v)
}

/// Where the cursor lands after an undo: the cursor of the snapshot, unless it
/// is the cursor the undo was asked at.
pub fn resolve_undo_cursor(target_cursor: (usize, usize), undo_cursor: (usize, usize)) -> (r: (usize, usize))
    ensures
        r == undo_cursor,
{
    if target_cursor.0 == undo_cursor.0 && target_cursor.1 == undo_cursor.1 {
        target_cursor
    } else {
        undo_cursor
    }
}

/// A cursor moved into the text: the row at most the last one (0 for no lines),
/// the column at most that row's length.
pub open spec fn clamped_cursor(ls: Seq<Seq<char>>, cursor: (usize, usize)) -> (int, int) {
    let row = if ls.len() == 0 {
        0
    } else if cursor.0 < ls.len() - 1 {
        cursor.0 as int
    } else {
        ls.len() - 1
    };
    let len = if row < ls.len() {
        ls[row].len() as int
    } else {
        0
    };
    (row, if cursor.1 < len { cursor.1 as int } else { len })
}

/// Moves `cursor` into the text of `lines`.
pub fn clamp_cursor(lines: &[String], cursor: (usize, usize)) -> (r: (usize, usize))
    ensures
        (r.0 as int, r.1 as int) == clamped_cursor(string_views(lines@), cursor),
{
    let ghost ls = string_views(lines@);
    let row = if lines.len() == 0 {
        0
    } else if cursor.0 < lines.len() - 1 {
        cursor.0
    } else {
        lines.len() - 1
    };
    let len = if row < lines.len() {
        assert(ls[row as int] == lines@[row as int]@);
        chars_of(lines[row].as_str()).len()
    } else {
        0
    };
    (row, if cursor.1 < len { cursor.1 } else { len })
}

/// A fragment name: not empty, without blanks or brackets.
pub open spec fn is_fragment_name(s: Seq<char>) -> bool {
    s.len() > 0 && forall|i: int| 0 <= i < s.len() ==> !crate::text::is_ws(#[trigger] s[i]) && s[i] != '['
        && s[i] != ']'
}

/// The fragment that a line calls: its trimmed text is `[[name]]`.
pub open spec fn spec_fragment_call(line: Seq<char>) -> Option<Seq<char>> {
    let t = trim(line);
    if t.len() >= 4 && t[0] == '[' && t[1] == '[' && t[t.len() - 2] == ']' && t[t.len() - 1] == ']'
        && is_fragment_name(t.subrange(2, t.len() - 2)) {
        Some(t.subrange(2, t.len() - 2))
    } else {
        None
    }
}

/// The name of the fragment that `line` calls.
pub fn fragment_call_name(line: &str) -> (r: Option<String>)
    ensures
        match spec_fragment_call(line@) {
            Some(n) => r matches Some(x) && x@ == n,
            None => r is None,
        },
{
    let t = trimmed(&chars_of(line));
    let n = t.len();
    if !(n >= 4 && t[0] == '[' && t[1] == '[' && t[n - 2] == ']' && t[n - 1] == ']') {
        return None;
    }
    let name = slice_vec(&t, 2, n - 2);
    let mut i: usize = 0;
    while i < name.len()
        invariant
            i <= name.len(),
            t@ == trim(line@),
            n == t.len(),
            n >= 4 && t@[0] == '[' && t@[1] == '[' && t@[n - 2] == ']' && t@[n - 1] == ']',
            name@ == t@.subrange(2, n - 2),
            forall|j: int| 0 <= j < i ==> !crate::text::is_ws(#[trigger] name@[j]) && name@[j] != '['
                && name@[j] != ']',
        decreases name.len() - i,
    {
        let c = name[i];
        if crate::text::is_whitespace(c) || c == '[' || c == ']' {
            assert(!is_fragment_name(name@));
            return None;
        }
        i += 1;
    }
    if name.len() == 0 {
        return None;
    }
    Some(string_of(&name))
}

} // verus!
