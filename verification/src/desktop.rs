//! What the desktop entries on disk say about installed applications.
//!
//! A manager that integrates with the desktop writes a `.desktop` file and an
//! icon for what it installs, which is metadata aeris can show without asking
//! anyone for it. The files are read by the caller; what they say, and which
//! one describes a package, is decided here.

use vstd::prelude::*;
use crate::paths::{file_name, file_name_of, join, join_str, last_named};
use crate::text::{
    all_digits, cat, chars_of, digits_value, find_char, first_word, first_word_of, index_of,
    lemma_index_of, last_index_of, opt_of, parse_digits, rfind_char, same, slice_of, split_on, string_of,
    strings_of, trim, trim_bounds, trim_start, trimmed,
};

verus! {

/// Icon sizes are chosen against this, since a card shows an icon small and
/// decoding a 512 pixel image to draw it at 28 is waste.
pub const PREFERRED_ICON_SIZE: u32 = 64;

/// The program an `Exec` line runs, as written: the quoted text when it
/// starts with a quote, otherwise its first word.
pub open spec fn program_of(exec: Seq<char>) -> Option<Seq<char>> {
    let e = trim(exec);
    if e.len() > 0 && e[0] == '"' {
        let q = e.drop_first();
        Some(q.take(index_of(q, '"') as int))
    } else {
        first_word(e)
    }
}

/// The command a desktop entry runs, without its path or its arguments.
pub open spec fn binary_name(exec: Seq<char>) -> Option<Seq<char>> {
    match program_of(exec) {
        Some(p) => match file_name(p) {
            Some(n) => if n.len() > 0 {
                Some(n)
            } else {
                None
            },
            None => None,
        },
        None => None,
    }
}

/// The command a desktop entry runs, without its path or its arguments.
///
/// `Exec` carries field codes such as `%u` and may quote the program, neither
/// of which is part of the name the package goes by.
pub fn binary_of(exec: &str) -> (r: Option<String>)
    ensures
        opt_of(r) == binary_name(exec@),
{
    let e = trimmed(&chars_of(exec));
    let program = if e.len() > 0 && e[0] == '"' {
        let q = slice_of(&e, 1, e.len());
        assert(q@ =~= e@.drop_first());
        let k = find_char(&q, '"', 0);
        assert(q@.skip(0) =~= q@);
        slice_of(&q, 0, k)
    } else {
        match first_word_of(&e) {
            Some(w) => w,
            None => return None,
        }
    };
    match file_name_of(&program) {
        Some(n) => if n.len() > 0 {
            Some(string_of(&n))
        } else {
            None
        },
        None => None,
    }
}

proof fn lemma_pieces_free_of(s: Seq<char>, c: char)
    ensures
        forall|i: int, j: int|
            0 <= i < split_on(s, c).len() && 0 <= j < split_on(s, c)[i].len() ==> #[trigger] split_on(
                s,
                c,
            )[i][j] != c,
    decreases s.len(),
{
    lemma_index_of(s, c);
    let k = index_of(s, c);
    if k < s.len() {
        lemma_pieces_free_of(s.skip(k + 1 as int), c);
        let rest = split_on(s.skip(k + 1 as int), c);
        assert forall|i: int, j: int|
            0 <= i < split_on(s, c).len() && 0 <= j < split_on(s, c)[i].len() implies #[trigger] split_on(
            s,
            c,
        )[i][j] != c by {
            if i > 0 {
                assert(split_on(s, c)[i] == rest[i - 1]);
            } else {
                assert(split_on(s, c)[0] == s.take(k as int));
            }
        }
    }
}

proof fn lemma_last_named_is_a_piece(pieces: Seq<Seq<char>>)
    ensures
        last_named(pieces) matches Some(n) ==> n.len() > 0 && exists|i: int|
            0 <= i < pieces.len() && pieces[i] == n,
    decreases pieces.len(),
{
    if pieces.len() > 0 {
        lemma_last_named_is_a_piece(pieces.drop_last());
        if last_named(pieces) == last_named(pieces.drop_last()) {
            if last_named(pieces) is Some {
                let i = choose|i: int|
                    0 <= i < pieces.drop_last().len() && pieces.drop_last()[i] == last_named(pieces)->0;
                assert(pieces[i] == pieces.drop_last()[i]);
            }
        } else {
            assert(pieces[pieces.len() - 1] == pieces.last());
        }
    }
}

/// The command found in an `Exec` line is one component of a path: never
/// empty and holding no `/`, the file name of the program the line runs
/// (the quoted text where it starts with a quote, else its first word). A
/// blank line names no command.
pub proof fn a_command_is_one_named_component(exec: Seq<char>)
    ensures
        binary_name(exec) matches Some(n) ==> n.len() > 0 && (forall|j: int|
            0 <= j < n.len() ==> n[j] != '/') && (program_of(exec) matches Some(w) && file_name(w)
            == Some(n)),
        trim(exec).len() == 0 ==> binary_name(exec) is None,
{
    if let Some(w) = program_of(exec) {
        let pieces = split_on(w, '/');
        lemma_pieces_free_of(w, '/');
        lemma_last_named_is_a_piece(pieces);
        if let Some(n) = binary_name(exec) {
            let i = choose|i: int| 0 <= i < pieces.len() && pieces[i] == n;
            assert forall|j: int| 0 <= j < n.len() implies n[j] != '/' by {
                assert(pieces[i][j] != '/');
            }
        }
    }
    if trim(exec).len() == 0 {
        assert(trim_start(trim(exec)) == trim(exec));
    }
}

/// How far a size is from the one an icon is drawn at.
pub open spec fn distance(size: u32) -> int {
    if size >= 64 {
        size - 64
    } else {
        64 - size
    }
}

/// Whichever is closer to the size an icon is drawn at, preferring the larger
/// of two that are equally far off so nothing is drawn blurred.
pub open spec fn better_of<T>(held: Option<(u32, T)>, found: (u32, T)) -> Option<(u32, T)> {
    match held {
        None => Some(found),
        Some(h) => if distance(found.0) < distance(h.0) {
            Some(found)
        } else if distance(found.0) > distance(h.0) {
            Some(h)
        } else if found.0 > h.0 {
            Some(found)
        } else {
            Some(h)
        },
    }
}

/// Whichever is closer to the size an icon is drawn at, preferring the larger
/// of two that are equally far off so nothing is drawn blurred.
pub fn better<T>(held: Option<(u32, T)>, found: (u32, T)) -> (r: Option<(u32, T)>)
    ensures
        r == better_of(held, found),
{
    let distance_of = |size: u32| -> (d: u32)
        ensures
            d == distance(size),
        {
            if size >= 64 {
                size - 64
            } else {
                64 - size
            }
        };
    match held {
        None => Some(found),
        Some(h) => {
            let near = distance_of(found.0);
            let had = distance_of(h.0);
            if near < had {
                Some(found)
            } else if near > had {
                Some(h)
            } else if found.0 > h.0 {
                Some(found)
            } else {
                Some(h)
            }
        },
    }
}

/// The one kept is never further off than either, and of two equally far
/// off it is the larger.
pub proof fn the_nearer_size_is_kept<T>(held: (u32, T), found: (u32, T))
    ensures
        better_of(Some(held), found) matches Some(kept) && distance(kept.0) <= distance(held.0)
            && distance(kept.0) <= distance(found.0) && (distance(held.0) == distance(found.0)
            ==> kept.0 >= held.0 && kept.0 >= found.0),
{
}

/// `str::parse::<u32>`: decimal digits after an optional `+`, when they
/// write a number that fits.
pub open spec fn parsed_u32(s: Seq<char>) -> Option<nat> {
    let d = if s.len() > 0 && s[0] == '+' {
        s.drop_first()
    } else {
        s
    };
    if d.len() > 0 && all_digits(d) && digits_value(d) <= u32::MAX {
        Some(digits_value(d))
    } else {
        None
    }
}

/// The pixel size a theme directory holds, from names such as `128x128`:
/// the number before the first `x` or `@`, or nothing when that is no
/// number. A scalable directory answers for any size, so it is ideal.
pub open spec fn size_named(directory: Seq<char>) -> nat {
    if directory == "scalable"@ || directory == "symbolic"@ {
        64
    } else {
        let x = index_of(directory, 'x');
        let at = index_of(directory, '@');
        let first = directory.take(if x < at { x as int } else { at as int });
        match parsed_u32(first) {
            Some(n) => n,
            None => 0,
        }
    }
}

/// The pixel size a theme directory holds, from names such as `128x128`.
/// A scalable directory answers for any size, so it is treated as ideal.
pub fn size_of(directory: &str) -> (r: u32)
    ensures
        r == size_named(directory@),
{
    let d = chars_of(directory);
    if same(&d, &chars_of("scalable")) || same(&d, &chars_of("symbolic")) {
        return PREFERRED_ICON_SIZE;
    }
    let x = find_char(&d, 'x', 0);
    let at = find_char(&d, '@', 0);
    assert(d@.skip(0) =~= d@);
    let end = if x < at {
        x
    } else {
        at
    };
    let first = slice_of(&d, 0, end);
    assert(first@ =~= d@.take(end as int));
    let digits = if first.len() > 0 && first[0] == '+' {
        let rest = slice_of(&first, 1, first.len());
        assert(rest@ =~= first@.drop_first());
        rest
    } else {
        first
    };
    match parse_digits(&digits) {
        Some(n) => if n <= 4294967295u64 {
            n as u32
        } else {
            0
        },
        None => 0,
    }
}

/// What the `[Desktop Entry]` group has said so far.
pub struct EntryFields {
    pub name: Option<Seq<char>>,
    pub comment: Option<Seq<char>>,
    pub icon: Option<Seq<char>>,
    pub exec_line: Option<Seq<char>>,
    pub try_exec_line: Option<Seq<char>>,
    pub hidden: bool,
}

/// How far through a file reading has got: what the group said, whether the
/// lines being read are in it, and whether it has ended.
pub struct ReadState {
    pub fields: EntryFields,
    pub inside: bool,
    pub done: bool,
}

/// Nothing read yet.
pub open spec fn start_state() -> ReadState {
    ReadState {
        fields: EntryFields {
            name: None,
            comment: None,
            icon: None,
            exec_line: None,
            try_exec_line: None,
            hidden: false,
        },
        inside: false,
        done: false,
    }
}

/// One `key=value` line of the group, applied: the keys that matter are
/// kept, `NoDisplay` and `Hidden` hide the entry when either says `true`,
/// and any other key is passed over.
pub open spec fn set_field(f: EntryFields, key: Seq<char>, value: Seq<char>) -> EntryFields {
    if key == "Name"@ {
        EntryFields { name: Some(value), ..f }
    } else if key == "Comment"@ {
        EntryFields { comment: Some(value), ..f }
    } else if key == "Icon"@ {
        EntryFields { icon: Some(value), ..f }
    } else if key == "Exec"@ {
        EntryFields { exec_line: Some(value), ..f }
    } else if key == "TryExec"@ {
        EntryFields { try_exec_line: Some(value), ..f }
    } else if key == "NoDisplay"@ || key == "Hidden"@ {
        EntryFields { hidden: f.hidden || value == "true"@, ..f }
    } else {
        f
    }
}

/// One line read. A group header starts the `[Desktop Entry]` group or,
/// once that group is open, ends the reading: later groups describe
/// actions and repeat `Name` and `Exec` for something else entirely.
/// Outside the group nothing counts; inside it, a line without `=` is
/// passed over, and key and value are trimmed.
pub open spec fn read_line(st: ReadState, raw: Seq<char>) -> ReadState {
    let line = trim(raw);
    if st.done {
        st
    } else if line.len() > 0 && line[0] == '[' {
        if st.inside {
            ReadState { done: true, ..st }
        } else {
            ReadState { inside: line == "[Desktop Entry]"@, ..st }
        }
    } else if !st.inside {
        st
    } else {
        let k = index_of(line, '=');
        if k < line.len() {
            ReadState {
                fields: set_field(st.fields, trim(line.take(k as int)), trim(line.skip(k + 1 as int))),
                ..st
            }
        } else {
            st
        }
    }
}

/// Lines read one after another.
pub open spec fn read_lines(lines: Seq<Seq<char>>, st: ReadState) -> ReadState
    decreases lines.len(),
{
    if lines.len() == 0 {
        st
    } else {
        read_lines(lines.drop_first(), read_line(st, lines[0]))
    }
}

/// What a file's `[Desktop Entry]` group says. Its lines are what lies
/// between newlines; a carriage return before a newline is white space, so
/// it goes with the trimming.
pub open spec fn entry_fields(text: Seq<char>) -> EntryFields {
    read_lines(split_on(text, '\n'), start_state()).fields
}

/// What a desktop entry describes, as text: nothing for an entry that asks
/// not to be shown or has no name, which the specification does not
/// recognise; otherwise its comment, its icon, and the command named by
/// `TryExec`, or by `Exec` where there is no `TryExec`.
pub open spec fn parsed_entry(text: Seq<char>) -> Option<(Option<Seq<char>>, Option<Seq<char>>, Option<Seq<char>>)> {
    let f = entry_fields(text);
    if f.hidden || f.name is None {
        None
    } else {
        let command = if f.try_exec_line is Some {
            f.try_exec_line
        } else {
            f.exec_line
        };
        Some(
            (
                f.comment,
                f.icon,
                match command {
                    Some(c) => binary_name(c),
                    None => None,
                },
            ),
        )
    }
}

/// The `[Desktop Entry]` group, which is the only one worth reading.
#[derive(Debug)]
pub struct Parsed {
    pub comment: Option<String>,
    pub icon: Option<String>,
    pub binary: Option<String>,
}

/// What an optional run of characters holds.
pub open spec fn opt_chars(o: Option<Vec<char>>) -> Option<Seq<char>> {
    match o {
        Some(v) => Some(v@),
        None => None,
    }
}

/// Only the first group is read: once the `[Desktop Entry]` group has
/// ended, no line after it changes what was read.
pub proof fn only_the_first_group_is_read(lines: Seq<Seq<char>>, st: ReadState)
    requires
        st.done,
    ensures
        read_lines(lines, st) == st,
    decreases lines.len(),
{
    if lines.len() > 0 {
        only_the_first_group_is_read(lines.drop_first(), st);
    }
}

/// Whether a line, trimmed, is the `[Desktop Entry]` header.
pub open spec fn is_entry_header(raw: Seq<char>) -> bool {
    trim(raw) == "[Desktop Entry]"@
}

/// Whether a line, trimmed, starts a group.
pub open spec fn is_group_header(raw: Seq<char>) -> bool {
    trim(raw).len() > 0 && trim(raw)[0] == '['
}

/// Where the first `[Desktop Entry]` header is, or the number of lines when
/// there is none.
pub open spec fn entry_header_at(lines: Seq<Seq<char>>) -> nat
    decreases lines.len(),
{
    if lines.len() == 0 {
        0
    } else if is_entry_header(lines[0]) {
        0
    } else {
        1 + entry_header_at(lines.drop_first())
    }
}

/// Where the first group header is, or the number of lines when there is
/// none.
pub open spec fn group_end(lines: Seq<Seq<char>>) -> nat
    decreases lines.len(),
{
    if lines.len() == 0 {
        0
    } else if is_group_header(lines[0]) {
        0
    } else {
        1 + group_end(lines.drop_first())
    }
}

/// The lines of the first `[Desktop Entry]` group: those after its header,
/// up to the next line that starts a group. None where there is no header.
pub open spec fn entry_group(lines: Seq<Seq<char>>) -> Seq<Seq<char>> {
    let s = entry_header_at(lines);
    if s < lines.len() {
        let after = lines.skip(s + 1int);
        after.take(group_end(after) as int)
    } else {
        Seq::empty()
    }
}

/// A `key=value` line, split at its first `=`, both sides trimmed; nothing
/// for a line without `=`.
pub open spec fn key_value(raw: Seq<char>) -> Option<(Seq<char>, Seq<char>)> {
    let line = trim(raw);
    let k = index_of(line, '=');
    if k < line.len() {
        Some((trim(line.take(k as int)), trim(line.skip(k + 1 as int))))
    } else {
        None
    }
}

/// One line of the group applied to what it has said so far.
pub open spec fn apply_line(f: EntryFields, raw: Seq<char>) -> EntryFields {
    match key_value(raw) {
        Some((k, v)) => set_field(f, k, v),
        None => f,
    }
}

/// The lines of a group applied one after another.
pub open spec fn group_fields(g: Seq<Seq<char>>, f: EntryFields) -> EntryFields
    decreases g.len(),
{
    if g.len() == 0 {
        f
    } else {
        group_fields(g.drop_first(), apply_line(f, g[0]))
    }
}

/// The value the last line of the group setting `key` gives it.
pub open spec fn last_value(g: Seq<Seq<char>>, key: Seq<char>) -> Option<Seq<char>>
    decreases g.len(),
{
    if g.len() == 0 {
        None
    } else {
        match key_value(g.last()) {
            Some((k, v)) => if k == key {
                Some(v)
            } else {
                last_value(g.drop_last(), key)
            },
            None => last_value(g.drop_last(), key),
        }
    }
}

/// Whether a line says `NoDisplay=true` or `Hidden=true`.
pub open spec fn hiding_line(raw: Seq<char>) -> bool {
    key_value(raw) matches Some((k, v)) && (k == "NoDisplay"@ || k == "Hidden"@) && v == "true"@
}

/// Whether some line of the group asks for the entry not to be shown.
pub open spec fn hides(g: Seq<Seq<char>>) -> bool {
    exists|i: int| 0 <= i < g.len() && #[trigger] hiding_line(g[i])
}

/// A value set in the group, or the one held before it where none is.
pub open spec fn or_held(set: Option<Seq<char>>, held: Option<Seq<char>>) -> Option<Seq<char>> {
    match set {
        Some(v) => Some(v),
        None => held,
    }
}

proof fn lemma_before_the_header(lines: Seq<Seq<char>>, st: ReadState)
    requires
        !st.inside,
        !st.done,
    ensures
        read_lines(lines, st) == if entry_header_at(lines) < lines.len() {
            read_lines(lines.skip(entry_header_at(lines) + 1int), ReadState { inside: true, ..st })
        } else {
            st
        },
    decreases lines.len(),
{
    reveal_strlit("[Desktop Entry]");
    if lines.len() > 0 {
        let line = trim(lines[0]);
        if is_entry_header(lines[0]) {
            assert(line.len() > 0 && line[0] == '[');
            assert(lines.skip(1) =~= lines.drop_first());
        } else {
            assert(read_line(st, lines[0]) == st);
            lemma_before_the_header(lines.drop_first(), st);
            if entry_header_at(lines) < lines.len() {
                assert(lines.drop_first().skip(entry_header_at(lines.drop_first()) + 1int)
                    =~= lines.skip(entry_header_at(lines) + 1int));
            }
        }
    }
}

proof fn lemma_group_end_bound(lines: Seq<Seq<char>>)
    ensures
        group_end(lines) <= lines.len(),
    decreases lines.len(),
{
    if lines.len() > 0 {
        lemma_group_end_bound(lines.drop_first());
    }
}

proof fn lemma_inside_the_group(lines: Seq<Seq<char>>, st: ReadState)
    requires
        st.inside,
        !st.done,
    ensures
        read_lines(lines, st).fields == group_fields(lines.take(group_end(lines) as int), st.fields),
    decreases lines.len(),
{
    if lines.len() > 0 {
        if is_group_header(lines[0]) {
            only_the_first_group_is_read(lines.drop_first(), ReadState { done: true, ..st });
            assert(lines.take(0) =~= Seq::<Seq<char>>::empty());
        } else {
            let next = ReadState { fields: apply_line(st.fields, lines[0]), ..st };
            assert(read_line(st, lines[0]) == next);
            lemma_group_end_bound(lines.drop_first());
            lemma_inside_the_group(lines.drop_first(), next);
            let t = lines.take(group_end(lines) as int);
            assert(t.drop_first() =~= lines.drop_first().take(group_end(lines.drop_first()) as int));
            assert(t[0] == lines[0]);
        }
    } else {
        assert(lines.take(0) =~= Seq::<Seq<char>>::empty());
    }
}

proof fn lemma_group_fields_push(g: Seq<Seq<char>>, x: Seq<char>, f: EntryFields)
    ensures
        group_fields(g.push(x), f) == apply_line(group_fields(g, f), x),
    decreases g.len(),
{
    if g.len() > 0 {
        lemma_group_fields_push(g.drop_first(), x, apply_line(f, g[0]));
        assert(g.push(x).drop_first() =~= g.drop_first().push(x));
        assert(g.push(x)[0] == g[0]);
        assert(group_fields(g.push(x), f) == group_fields(g.push(x).drop_first(), apply_line(f, g[0])));
        assert(group_fields(g, f) == group_fields(g.drop_first(), apply_line(f, g[0])));
    } else {
        let none = Seq::<Seq<char>>::empty();
        assert(g.push(x).drop_first() =~= none);
        assert(g.push(x)[0] == x);
        assert(group_fields(none, apply_line(f, x)) == apply_line(f, x));
        assert(group_fields(g, f) == f);
        assert(group_fields(g.push(x), f) == group_fields(none, apply_line(f, x)));
    }
}

proof fn lemma_group_fields_values(g: Seq<Seq<char>>, f: EntryFields)
    ensures
        group_fields(g, f).name == or_held(last_value(g, "Name"@), f.name),
        group_fields(g, f).comment == or_held(last_value(g, "Comment"@), f.comment),
        group_fields(g, f).icon == or_held(last_value(g, "Icon"@), f.icon),
        group_fields(g, f).exec_line == or_held(last_value(g, "Exec"@), f.exec_line),
        group_fields(g, f).try_exec_line == or_held(last_value(g, "TryExec"@), f.try_exec_line),
        group_fields(g, f).hidden == (f.hidden || hides(g)),
    decreases g.len(),
{
    reveal_strlit("Name");
    reveal_strlit("Comment");
    reveal_strlit("Icon");
    reveal_strlit("Exec");
    reveal_strlit("TryExec");
    reveal_strlit("NoDisplay");
    reveal_strlit("Hidden");
    assert("Name"@[0] == 'N' && "Comment"@[0] == 'C' && "Icon"@[0] == 'I' && "Exec"@[0] == 'E'
        && "TryExec"@[0] == 'T' && "NoDisplay"@[0] == 'N' && "Hidden"@[0] == 'H');
    assert("Name"@.len() == 4 && "NoDisplay"@.len() == 9);
    if g.len() > 0 {
        let init = g.drop_last();
        lemma_group_fields_values(init, f);
        lemma_group_fields_push(init, g.last(), f);
        assert(init.push(g.last()) =~= g);
        assert(hides(g) == (hides(init) || hiding_line(g.last()))) by {
            if hides(g) {
                let i = choose|i: int| 0 <= i < g.len() && #[trigger] hiding_line(g[i]);
                if i < init.len() {
                    assert(init[i] == g[i]);
                }
            }
            if hides(init) {
                let i = choose|i: int| 0 <= i < init.len() && #[trigger] hiding_line(init[i]);
                assert(g[i] == init[i]);
            }
            if hiding_line(g.last()) {
                assert(hiding_line(g[g.len() - 1]));
            }
        }
    }
}

/// What a desktop entry says is decided by its first `[Desktop Entry]`
/// group alone: lines before its header and every later group count for
/// nothing. Within the group, the last line setting a key gives its value;
/// the entry is nothing when it has no `Name` or some `NoDisplay` or
/// `Hidden` line says `true`; otherwise it carries the last `Comment` and
/// `Icon`, and the command named by the last `TryExec`, or by the last
/// `Exec` where there is no `TryExec`.
pub proof fn what_an_entry_says(text: Seq<char>)
    ensures
        ({
            let g = entry_group(split_on(text, '\n'));
            let command = if last_value(g, "TryExec"@) is Some {
                last_value(g, "TryExec"@)
            } else {
                last_value(g, "Exec"@)
            };
            parsed_entry(text) == if hides(g) || last_value(g, "Name"@) is None {
                None
            } else {
                Some(
                    (
                        last_value(g, "Comment"@),
                        last_value(g, "Icon"@),
                        match command {
                            Some(c) => binary_name(c),
                            None => None,
                        },
                    ),
                )
            }
        }),
{
    let lines = split_on(text, '\n');
    let st = start_state();
    lemma_before_the_header(lines, st);
    let s = entry_header_at(lines);
    if s < lines.len() {
        lemma_inside_the_group(lines.skip(s + 1int), ReadState { inside: true, ..st });
    } else {
        assert(entry_group(lines) =~= Seq::<Seq<char>>::empty());
    }
    lemma_group_fields_values(entry_group(lines), st.fields);
}

proof fn lemma_header_after(pre: Seq<Seq<char>>, rest: Seq<Seq<char>>)
    requires
        forall|i: int| 0 <= i < pre.len() ==> !is_entry_header(#[trigger] pre[i]),
    ensures
        entry_header_at(pre + rest) == pre.len() + entry_header_at(rest),
    decreases pre.len(),
{
    if pre.len() > 0 {
        assert((pre + rest)[0] == pre[0]);
        assert((pre + rest).drop_first() =~= pre.drop_first() + rest);
        assert forall|i: int| 0 <= i < pre.drop_first().len() implies !is_entry_header(
            #[trigger] pre.drop_first()[i],
        ) by {
            assert(pre.drop_first()[i] == pre[i + 1]);
        }
        lemma_header_after(pre.drop_first(), rest);
    } else {
        assert(pre + rest =~= rest);
    }
}

/// Lines before the `[Desktop Entry]` header count for nothing: with no
/// such header among them, putting them in front leaves the group as it is.
pub proof fn lines_before_the_header_change_nothing(pre: Seq<Seq<char>>, rest: Seq<Seq<char>>)
    requires
        forall|i: int| 0 <= i < pre.len() ==> !is_entry_header(#[trigger] pre[i]),
    ensures
        entry_group(pre + rest) == entry_group(rest),
{
    lemma_header_after(pre, rest);
    let s = entry_header_at(rest);
    if s < rest.len() {
        assert((pre + rest).skip(pre.len() + s + 1int) =~= rest.skip(s + 1int));
    }
}

/// A line without `=` in the group counts for nothing, wherever it stands.
pub proof fn a_line_without_a_value_changes_nothing(
    before: Seq<Seq<char>>,
    raw: Seq<char>,
    after: Seq<Seq<char>>,
    f: EntryFields,
)
    requires
        key_value(raw) is None,
    ensures
        group_fields(before + seq![raw] + after, f) == group_fields(before + after, f),
    decreases before.len(),
{
    if before.len() > 0 {
        assert((before + seq![raw] + after)[0] == before[0]);
        assert((before + after)[0] == before[0]);
        assert((before + seq![raw] + after).drop_first() =~= before.drop_first() + seq![raw] + after);
        assert((before + after).drop_first() =~= before.drop_first() + after);
        a_line_without_a_value_changes_nothing(before.drop_first(), raw, after, apply_line(f, before[0]));
    } else {
        assert(before + seq![raw] + after =~= seq![raw] + after);
        assert((seq![raw] + after).drop_first() =~= after);
        assert(before + after =~= after);
    }
}

proof fn lemma_header_at_extended(lines: Seq<Seq<char>>, more: Seq<Seq<char>>)
    requires
        entry_header_at(lines) < lines.len(),
    ensures
        entry_header_at(lines + more) == entry_header_at(lines),
    decreases lines.len(),
{
    assert((lines + more)[0] == lines[0]);
    if !is_entry_header(lines[0]) {
        assert((lines + more).drop_first() =~= lines.drop_first() + more);
        lemma_header_at_extended(lines.drop_first(), more);
    }
}

proof fn lemma_group_end_extended(lines: Seq<Seq<char>>, more: Seq<Seq<char>>)
    requires
        group_end(lines) < lines.len(),
    ensures
        group_end(lines + more) == group_end(lines),
    decreases lines.len(),
{
    assert((lines + more)[0] == lines[0]);
    if !is_group_header(lines[0]) {
        assert((lines + more).drop_first() =~= lines.drop_first() + more);
        lemma_group_end_extended(lines.drop_first(), more);
    }
}

/// Later groups count for nothing: once the `[Desktop Entry]` group has
/// ended at another group's header, whatever follows leaves it as it is.
pub proof fn later_groups_change_nothing(lines: Seq<Seq<char>>, more: Seq<Seq<char>>)
    requires
        entry_header_at(lines) < lines.len(),
        group_end(lines.skip(entry_header_at(lines) + 1int)) < lines.len() - entry_header_at(lines) - 1,
    ensures
        entry_group(lines + more) == entry_group(lines),
{
    let s = entry_header_at(lines);
    lemma_header_at_extended(lines, more);
    let after = lines.skip(s + 1int);
    assert((lines + more).skip(s + 1int) =~= after + more);
    lemma_group_end_extended(after, more);
    assert((after + more).take(group_end(after) as int) =~= after.take(group_end(after) as int));
}

/// The reading state the values held describe.
pub open spec fn state_of(
    name: Option<Vec<char>>,
    comment: Option<Vec<char>>,
    icon: Option<Vec<char>>,
    exec_line: Option<Vec<char>>,
    try_exec_line: Option<Vec<char>>,
    hidden: bool,
    inside: bool,
    done: bool,
) -> ReadState {
    ReadState {
        fields: EntryFields {
            name: opt_chars(name),
            comment: opt_chars(comment),
            icon: opt_chars(icon),
            exec_line: opt_chars(exec_line),
            try_exec_line: opt_chars(try_exec_line),
            hidden: hidden,
        },
        inside: inside,
        done: done,
    }
}

/// Reads a desktop entry: what its `[Desktop Entry]` group says, or nothing
/// for an entry that has no name or asks not to be shown.
pub fn parse(text: &str) -> (r: Option<Parsed>)
    ensures
        match r {
            Some(p) => parsed_entry(text@) == Some((opt_of(p.comment), opt_of(p.icon), opt_of(p.binary))),
            None => parsed_entry(text@) is None,
        },
{
    let t = chars_of(text);
    let mut name: Option<Vec<char>> = None;
    let mut comment: Option<Vec<char>> = None;
    let mut icon: Option<Vec<char>> = None;
    let mut exec_line: Option<Vec<char>> = None;
    let mut try_exec_line: Option<Vec<char>> = None;
    let mut inside = false;
    let mut hidden = false;
    let k_name = chars_of("Name");
    let k_comment = chars_of("Comment");
    let k_icon = chars_of("Icon");
    let k_exec = chars_of("Exec");
    let k_try_exec = chars_of("TryExec");
    let k_no_display = chars_of("NoDisplay");
    let k_hidden = chars_of("Hidden");
    let v_true = chars_of("true");
    let header = chars_of("[Desktop Entry]");
    let mut i: usize = 0;
    assert(t@.skip(0) =~= t@);
    loop
        invariant_except_break
            i <= t@.len(),
            read_lines(split_on(t@, '\n'), start_state()) == read_lines(
                split_on(t@.skip(i as int), '\n'),
                state_of(name, comment, icon, exec_line, try_exec_line, hidden, inside, false),
            ),
        invariant
            k_name@ == "Name"@,
            k_comment@ == "Comment"@,
            k_icon@ == "Icon"@,
            k_exec@ == "Exec"@,
            k_try_exec@ == "TryExec"@,
            k_no_display@ == "NoDisplay"@,
            k_hidden@ == "Hidden"@,
            v_true@ == "true"@,
            header@ == "[Desktop Entry]"@,
        ensures
            entry_fields(t@) == state_of(
                name,
                comment,
                icon,
                exec_line,
                try_exec_line,
                hidden,
                inside,
                false,
            ).fields,
        decreases t@.len() - i,
    {
        let ghost st = state_of(name, comment, icon, exec_line, try_exec_line, hidden, inside, false);
        let k = find_char(&t, '\n', i);
        let ghost rest = t@.skip(i as int);
        let ghost raw = rest.take(k - i);
        assert(raw =~= t@.subrange(i as int, k as int));
        let (a, b) = trim_bounds(&t, i, k);
        let line = slice_of(&t, a, b);
        assert(line@ == trim(raw));
        let ghost next = read_line(st, raw);
        let last = k == t.len();
        proof {
            if last {
                assert(split_on(rest, '\n') == seq![rest]);
                assert(raw =~= rest);
            } else {
                assert(rest.skip(k - i + 1) =~= t@.skip(k + 1));
                assert(split_on(rest, '\n') == seq![raw] + split_on(t@.skip(k + 1), '\n'));
            }
        }
        let ghost after = if last {
            Seq::<Seq<char>>::empty()
        } else {
            split_on(t@.skip(k + 1), '\n')
        };
        assert(split_on(rest, '\n') =~= seq![raw] + after);
        assert((seq![raw] + after).drop_first() =~= after);
        assert(read_lines(split_on(rest, '\n'), st) == read_lines(after, next));
        if line.len() > 0 && line[0] == '[' {
            if inside {
                proof {
                    only_the_first_group_is_read(after, next);
                }
                break;
            }
            inside = same(&line, &header);
        } else if inside {
            let eq = find_char(&line, '=', 0);
            assert(line@.skip(0) =~= line@);
            if eq < line.len() {
                let (ka, kb) = trim_bounds(&line, 0, eq);
                let key = slice_of(&line, ka, kb);
                let (va, vb) = trim_bounds(&line, eq + 1, line.len());
                let value = slice_of(&line, va, vb);
                assert(line@.subrange(0, eq as int) =~= line@.take(eq as int));
                assert(line@.subrange(eq + 1, line@.len() as int) =~= line@.skip(eq + 1));
                assert(key@ == trim(line@.take(eq as int)));
                assert(value@ == trim(line@.skip(eq + 1)));
                if same(&key, &k_name) {
                    name = Some(value);
                } else if same(&key, &k_comment) {
                    comment = Some(value);
                } else if same(&key, &k_icon) {
                    icon = Some(value);
                } else if same(&key, &k_exec) {
                    exec_line = Some(value);
                } else if same(&key, &k_try_exec) {
                    try_exec_line = Some(value);
                } else if same(&key, &k_no_display) || same(&key, &k_hidden) {
                    hidden = hidden || same(&value, &v_true);
                }
            }
        }
        assert(state_of(name, comment, icon, exec_line, try_exec_line, hidden, inside, false)
            == next);
        if last {
            assert(after.len() == 0);
            break;
        }
        i = k + 1;
    }
    if hidden || name.is_none() {
        return None;
    }
    let command = if try_exec_line.is_some() {
        try_exec_line
    } else {
        exec_line
    };
    let binary = match command {
        Some(c) => binary_of(string_of(&c).as_str()),
        None => None,
    };
    Some(
        Parsed {
            comment: match comment {
                Some(c) => Some(string_of(&c)),
                None => None,
            },
            icon: match icon {
                Some(c) => Some(string_of(&c)),
                None => None,
            },
            binary,
        },
    )
}

/// One application, as its desktop entry describes it.
#[derive(Debug, Clone)]
pub struct DesktopEntry {
    /// The one line summary the entry carries, which is what a launcher shows
    /// under the name.
    pub comment: Option<String>,
    /// Where the icon was found, if it was found at all. Resolved when the
    /// entry is read rather than when it is drawn, so nothing searches the
    /// icon theme while a list is scrolling.
    pub icon: Option<String>,
}

/// What a desktop entry says, as text.
pub struct EntryView {
    pub comment: Option<Seq<char>>,
    pub icon: Option<Seq<char>>,
}

impl View for DesktopEntry {
    type V = EntryView;

    open spec fn view(&self) -> EntryView {
        EntryView { comment: opt_of(self.comment), icon: opt_of(self.icon) }
    }
}

/// An entry found on disk: the command it runs and the name of its file,
/// which are what a package might be called, and what it describes.
pub struct Record {
    pub binary: Option<Seq<char>>,
    pub stem: Option<Seq<char>>,
    pub entry: EntryView,
}

/// The first entry, in the order they were found, whose command is `p`.
pub open spec fn first_by_binary(records: Seq<Record>, p: Seq<char>) -> Option<EntryView>
    decreases records.len(),
{
    if records.len() == 0 {
        None
    } else if records[0].binary == Some(p) {
        Some(records[0].entry)
    } else {
        first_by_binary(records.drop_first(), p)
    }
}

/// The first entry, in the order they were found, whose file is named `p`.
pub open spec fn first_by_stem(records: Seq<Record>, p: Seq<char>) -> Option<EntryView>
    decreases records.len(),
{
    if records.len() == 0 {
        None
    } else if records[0].stem == Some(p) {
        Some(records[0].entry)
    } else {
        first_by_stem(records.drop_first(), p)
    }
}

/// The entry describing the package called `p`: the first whose command is
/// called that, or, failing any, the first whose file is.
pub open spec fn found(records: Seq<Record>, p: Seq<char>) -> Option<EntryView> {
    match first_by_binary(records, p) {
        Some(e) => Some(e),
        None => first_by_stem(records, p),
    }
}

/// Every desktop entry found, in the order it was found.
#[derive(Debug)]
pub struct Desktop {
    records: Vec<(Option<String>, Option<String>, DesktopEntry)>,
}

/// What one kept entry says.
pub open spec fn record_of(r: (Option<String>, Option<String>, DesktopEntry)) -> Record {
    Record { binary: opt_of(r.0), stem: opt_of(r.1), entry: r.2@ }
}

impl Desktop {
    /// The entries found, in the order they were found.
    pub closed spec fn records(&self) -> Seq<Record> {
        self.records@.map_values(|r: (Option<String>, Option<String>, DesktopEntry)| record_of(r))
    }

    /// No entries yet.
    pub fn new() -> (r: Self)
        ensures
            r.records().len() == 0,
    {
        let d = Desktop { records: Vec::new() };
        assert(d.records() =~= Seq::<Record>::empty());
        d
    }

    /// One more entry, found after those already kept: the command it runs,
    /// the name of its file, and what it says.
    pub fn add(&mut self, binary: Option<String>, stem: Option<String>, entry: DesktopEntry)
        ensures
            final(self).records() == old(self).records().push(
                Record { binary: opt_of(binary), stem: opt_of(stem), entry: entry@ },
            ),
    {
        let ghost before = self.records();
        self.records.push((binary, stem, entry));
        assert(self.records() =~= before.push(
            Record { binary: opt_of(binary), stem: opt_of(stem), entry: entry@ },
        ));
    }

    /// What a package is called on disk, matched to what it installed.
    ///
    /// The command it installed is the surer match: a manager decorates the
    /// file name it writes, but the binary keeps the name the package has.
    /// Entries found earlier win, so what a person installed for themselves
    /// describes the package rather than what a distribution shipped.
    pub fn find(&self, package: &str) -> (r: Option<&DesktopEntry>)
        ensures
            match r {
                Some(e) => found(self.records(), package@) == Some(e@),
                None => found(self.records(), package@) is None,
            },
    {
        let p = chars_of(package);
        let ghost all = self.records();
        let mut i: usize = 0;
        assert(all.skip(0) =~= all);
        while i < self.records.len()
            invariant
                i <= self.records@.len(),
                all == self.records(),
                p@ == package@,
                first_by_binary(all, p@) == first_by_binary(all.skip(i as int), p@),
            decreases self.records@.len() - i,
        {
            assert(all.skip(i as int)[0] == record_of(self.records@[i as int]));
            assert(all.skip(i as int).drop_first() =~= all.skip(i + 1));
            if let Some(b) = &self.records[i].0 {
                if same(&chars_of(b.as_str()), &p) {
                    return Some(&self.records[i].2);
                }
            }
            i = i + 1;
        }
        assert(all.skip(i as int).len() == 0);
        let mut j: usize = 0;
        while j < self.records.len()
            invariant
                j <= self.records@.len(),
                all == self.records(),
                p@ == package@,
                first_by_binary(all, p@) is None,
                first_by_stem(all, p@) == first_by_stem(all.skip(j as int), p@),
            decreases self.records@.len() - j,
        {
            assert(all.skip(j as int)[0] == record_of(self.records@[j as int]));
            assert(all.skip(j as int).drop_first() =~= all.skip(j + 1));
            if let Some(st) = &self.records[j].1 {
                if same(&chars_of(st.as_str()), &p) {
                    return Some(&self.records[j].2);
                }
            }
            j = j + 1;
        }
        assert(all.skip(j as int).len() == 0);
        None
    }
}

impl Default for Desktop {
    fn default() -> (r: Self)
        ensures
            r.records().len() == 0,
    {
        Desktop::new()
    }
}

proof fn lemma_first_by_binary_push(records: Seq<Record>, x: Record, p: Seq<char>)
    ensures
        first_by_binary(records, p) is Some ==> first_by_binary(records.push(x), p)
            == first_by_binary(records, p),
        first_by_binary(records, p) is None ==> first_by_binary(records.push(x), p) == (if x.binary
            == Some(p) {
            Some(x.entry)
        } else {
            None
        }),
    decreases records.len(),
{
    if records.len() > 0 {
        assert(records.push(x)[0] == records[0]);
        assert(records.push(x).drop_first() =~= records.drop_first().push(x));
        lemma_first_by_binary_push(records.drop_first(), x, p);
    } else {
        assert(records.push(x)[0] == x);
        assert(records.push(x).drop_first().len() == 0);
        assert(first_by_binary(records.push(x).drop_first(), p) is None);
    }
}

/// An entry found later never takes a command's name from one found
/// earlier: what is found by the command it runs stays what it was.
pub proof fn the_entry_found_first_wins(records: Seq<Record>, later: Record, package: Seq<char>)
    requires
        first_by_binary(records, package) is Some,
    ensures
        found(records.push(later), package) == found(records, package),
{
    lemma_first_by_binary_push(records, later, package);
}

proof fn lemma_first_by_stem_is_first(records: Seq<Record>, p: Seq<char>)
    ensures
        first_by_stem(records, p) matches Some(e) ==> exists|i: int|
            0 <= i < records.len() && records[i].stem == Some(p) && records[i].entry == e && forall|j: int|
                0 <= j < i ==> (#[trigger] records[j]).stem != Some(p),
        first_by_stem(records, p) is None ==> forall|i: int|
            0 <= i < records.len() ==> (#[trigger] records[i]).stem != Some(p),
    decreases records.len(),
{
    if records.len() > 0 {
        let rest = records.drop_first();
        lemma_first_by_stem_is_first(rest, p);
        if records[0].stem == Some(p) {
            assert(forall|j: int| 0 <= j < 0 ==> (#[trigger] records[j]).stem != Some(p));
        } else if let Some(e) = first_by_stem(rest, p) {
            let i = choose|i: int|
                0 <= i < rest.len() && rest[i].stem == Some(p) && rest[i].entry == e && forall|j: int|
                    0 <= j < i ==> (#[trigger] rest[j]).stem != Some(p);
            assert(records[i + 1] == rest[i]);
            assert forall|j: int| 0 <= j < i + 1 implies (#[trigger] records[j]).stem != Some(p) by {
                if j > 0 {
                    assert(records[j] == rest[j - 1]);
                }
            }
        } else {
            assert forall|i: int| 0 <= i < records.len() implies (#[trigger] records[i]).stem != Some(
                p,
            ) by {
                if i > 0 {
                    assert(records[i] == rest[i - 1]);
                }
            }
        }
    }
}

proof fn lemma_first_by_binary_is_first(records: Seq<Record>, p: Seq<char>)
    ensures
        first_by_binary(records, p) matches Some(e) ==> exists|i: int|
            0 <= i < records.len() && records[i].binary == Some(p) && records[i].entry == e
                && forall|j: int| 0 <= j < i ==> (#[trigger] records[j]).binary != Some(p),
        first_by_binary(records, p) is None ==> forall|i: int|
            0 <= i < records.len() ==> (#[trigger] records[i]).binary != Some(p),
    decreases records.len(),
{
    if records.len() > 0 {
        let rest = records.drop_first();
        lemma_first_by_binary_is_first(rest, p);
        if records[0].binary == Some(p) {
            assert(forall|j: int| 0 <= j < 0 ==> (#[trigger] records[j]).binary != Some(p));
        } else if let Some(e) = first_by_binary(rest, p) {
            let i = choose|i: int|
                0 <= i < rest.len() && rest[i].binary == Some(p) && rest[i].entry == e && forall|
                    j: int,
                | 0 <= j < i ==> (#[trigger] rest[j]).binary != Some(p);
            assert(records[i + 1] == rest[i]);
            assert forall|j: int| 0 <= j < i + 1 implies (#[trigger] records[j]).binary != Some(p) by {
                if j > 0 {
                    assert(records[j] == rest[j - 1]);
                }
            }
        } else {
            assert forall|i: int| 0 <= i < records.len() implies (#[trigger] records[i]).binary
                != Some(p) by {
                if i > 0 {
                    assert(records[i] == rest[i - 1]);
                }
            }
        }
    }
}

/// The entry found for a package is the earliest that fits: the first, in
/// the order entries were found, whose command is the package's name; or,
/// where no command is, the first whose file is named after it; or none,
/// where neither is.
pub proof fn the_earliest_fitting_entry_is_found(records: Seq<Record>, p: Seq<char>)
    ensures
        (exists|i: int| 0 <= i < records.len() && (#[trigger] records[i]).binary == Some(p))
            ==> exists|i: int|
            0 <= i < records.len() && records[i].binary == Some(p) && found(records, p) == Some(
                records[i].entry,
            ) && forall|j: int| 0 <= j < i ==> (#[trigger] records[j]).binary != Some(p),
        (forall|i: int| 0 <= i < records.len() ==> (#[trigger] records[i]).binary != Some(p)) ==> (
        (exists|i: int| 0 <= i < records.len() && (#[trigger] records[i]).stem == Some(p))
            ==> exists|i: int|
            0 <= i < records.len() && records[i].stem == Some(p) && found(records, p) == Some(
                records[i].entry,
            ) && forall|j: int| 0 <= j < i ==> (#[trigger] records[j]).stem != Some(p)),
        (forall|i: int|
            0 <= i < records.len() ==> (#[trigger] records[i]).binary != Some(p)
                && records[i].stem != Some(p)) ==> found(records, p) is None,
{
    lemma_first_by_binary_is_first(records, p);
    lemma_first_by_stem_is_first(records, p);
}

/// An entry found later never displaces one found earlier under the same
/// file name.
pub proof fn a_later_file_of_the_same_name_never_displaces_an_earlier(
    records: Seq<Record>,
    later: Record,
    p: Seq<char>,
)
    requires
        first_by_stem(records, p) is Some,
    ensures
        first_by_stem(records.push(later), p) == first_by_stem(records, p),
    decreases records.len(),
{
    if records.len() > 0 {
        assert(records.push(later)[0] == records[0]);
        assert(records.push(later).drop_first() =~= records.drop_first().push(later));
        if records[0].stem != Some(p) {
            a_later_file_of_the_same_name_never_displaces_an_earlier(records.drop_first(), later, p);
        }
    }
}

/// The command an entry runs is the surer match: an entry whose command is
/// the package's name is found over one whose file merely is.
pub proof fn the_command_is_the_surer_match(records: Seq<Record>, package: Seq<char>)
    requires
        first_by_binary(records, package) is Some,
    ensures
        found(records, package) == first_by_binary(records, package),
{
}

/// The name a file holds a desktop entry under: its stem, when the file is
/// a `.desktop` file, and nothing otherwise.
pub open spec fn desktop_stem(path: Seq<char>) -> Option<Seq<char>> {
    match file_name(path) {
        Some(n) => match last_index_of(n, '.') {
            Some(k) => if k > 0 && n.skip(k + 1) == "desktop"@ {
                Some(n.take(k))
            } else {
                None
            },
            None => None,
        },
        None => None,
    }
}

/// The name a file holds a desktop entry under, if it is a `.desktop` file.
pub fn desktop_file_stem(path: &str) -> (r: Option<String>)
    ensures
        opt_of(r) == desktop_stem(path@),
{
    let p = chars_of(path);
    match file_name_of(&p) {
        Some(n) => match rfind_char(&n, '.') {
            Some(k) => {
                assert(k < n@.len() && n@.len() == n.len());
                let ext = slice_of(&n, k + 1, n.len());
                assert(ext@ =~= n@.skip(k + 1));
                if k > 0 && same(&ext, &chars_of("desktop")) {
                    let stem = slice_of(&n, 0, k);
                    assert(stem@ =~= n@.take(k as int));
                    Some(string_of(&stem))
                } else {
                    None
                }
            },
            None => None,
        },
        None => None,
    }
}

/// Each directory, with `sub` under it.
pub open spec fn each_under(dirs: Seq<Seq<char>>, sub: Seq<char>) -> Seq<Seq<char>> {
    dirs.map_values(|d: Seq<char>| join(d, sub))
}

fn under_each(dirs: &Vec<String>, sub: &str, out: &mut Vec<String>)
    ensures
        strings_of(final(out)@) == strings_of(old(out)@) + each_under(strings_of(dirs@), sub@),
{
    let ghost start = strings_of(out@);
    let mut i: usize = 0;
    while i < dirs.len()
        invariant
            i <= dirs@.len(),
            strings_of(out@) == start + each_under(strings_of(dirs@).take(i as int), sub@),
        decreases dirs@.len() - i,
    {
        let ghost before = strings_of(out@);
        out.push(join_str(dirs[i].as_str(), sub));
        assert(strings_of(out@) =~= before.push(join(dirs@[i as int]@, sub@)));
        assert(strings_of(dirs@).take(i + 1) =~= strings_of(dirs@).take(i as int).push(
            dirs@[i as int]@,
        ));
        assert(strings_of(out@) =~= start + each_under(strings_of(dirs@).take(i + 1), sub@));
        i = i + 1;
    }
    assert(strings_of(dirs@).take(i as int) =~= strings_of(dirs@));
}

/// Where desktop entries are read from: the per-user data directory first,
/// then the shared ones, each with `applications` under it.
pub fn application_dirs(data_home: &str, data_dirs: &Vec<String>) -> (r: Vec<String>)
    ensures
        strings_of(r@) == seq![join(data_home@, "applications"@)] + each_under(
            strings_of(data_dirs@),
            "applications"@,
        ),
{
    let mut dirs: Vec<String> = Vec::new();
    dirs.push(join_str(data_home, "applications"));
    assert(strings_of(dirs@) =~= seq![join(data_home@, "applications"@)]);
    under_each(data_dirs, "applications", &mut dirs);
    dirs
}

/// The icon directories under each shared data directory: its `icons`, then
/// its `pixmaps`.
pub open spec fn icons_and_pixmaps(dirs: Seq<Seq<char>>) -> Seq<Seq<char>>
    decreases dirs.len(),
{
    if dirs.len() == 0 {
        seq![]
    } else {
        seq![join(dirs[0], "icons"@), join(dirs[0], "pixmaps"@)] + icons_and_pixmaps(
            dirs.drop_first(),
        )
    }
}

/// Where icons are looked for: the per-user data directory's `icons`, then
/// `~/.icons` when there is a home, then each shared data directory's
/// `icons` and `pixmaps`.
pub fn icon_dirs(data_home: &str, home: &Option<String>, data_dirs: &Vec<String>) -> (r: Vec<
    String,
>)
    ensures
        strings_of(r@) == seq![join(data_home@, "icons"@)] + (match opt_of(*home) {
            Some(h) => seq![join(h, ".icons"@)],
            None => Seq::<Seq<char>>::empty(),
        }) + icons_and_pixmaps(strings_of(data_dirs@)),
{
    let mut dirs: Vec<String> = Vec::new();
    dirs.push(join_str(data_home, "icons"));
    if let Some(h) = home {
        dirs.push(join_str(h.as_str(), ".icons"));
    }
    let ghost head = strings_of(dirs@);
    assert(head =~= seq![join(data_home@, "icons"@)] + (match opt_of(*home) {
        Some(h) => seq![join(h, ".icons"@)],
        None => Seq::<Seq<char>>::empty(),
    }));
    let ghost shared = strings_of(data_dirs@);
    let mut i: usize = 0;
    assert(shared.skip(0) =~= shared);
    while i < data_dirs.len()
        invariant
            i <= data_dirs@.len(),
            shared == strings_of(data_dirs@),
            head + icons_and_pixmaps(shared) == strings_of(dirs@) + icons_and_pixmaps(
                shared.skip(i as int),
            ),
        decreases data_dirs@.len() - i,
    {
        let d = data_dirs[i].as_str();
        assert(shared.skip(i as int)[0] == d@);
        assert(shared.skip(i as int).drop_first() =~= shared.skip(i + 1));
        let ghost before = strings_of(dirs@);
        dirs.push(join_str(d, "icons"));
        dirs.push(join_str(d, "pixmaps"));
        assert(strings_of(dirs@) =~= before + seq![join(d@, "icons"@), join(d@, "pixmaps"@)]);
        i = i + 1;
    }
    assert(shared.skip(i as int).len() == 0);
    assert(strings_of(dirs@) =~= head + icons_and_pixmaps(shared));
    dirs
}

/// Where an icon named `icon` may sit loose in a directory, in the order the
/// formats are preferred.
pub fn flat_candidates(dir: &str, icon: &str) -> (r: Vec<String>)
    ensures
        strings_of(r@) == seq![
            join(dir@, icon@ + ".svg"@),
            join(dir@, icon@ + ".png"@),
            join(dir@, icon@ + ".xpm"@),
        ],
{
    let mut out: Vec<String> = Vec::new();
    out.push(join_str(dir, cat(icon, ".svg").as_str()));
    out.push(join_str(dir, cat(icon, ".png").as_str()));
    out.push(join_str(dir, cat(icon, ".xpm").as_str()));
    assert(strings_of(out@) =~= seq![
        join(dir@, icon@ + ".svg"@),
        join(dir@, icon@ + ".png"@),
        join(dir@, icon@ + ".xpm"@),
    ]);
    out
}

} // verus!
