//! Paths, as text: how this library joins them and reads their last part.
//!
//! A path here is the text of a Unix path. The operations follow what
//! `std::path` does with one: `join` replaces the base with an absolute path
//! and otherwise puts one `/` between the two, and a file name is the last
//! component that names something, with `.` components and trailing slashes
//! passed over.

use vstd::prelude::*;
use crate::text::{chars_of, concat, last_index_of, rfind_char, slice_of, split_chars, split_on, string_of, views_of};

verus! {

/// Whether a path starts at the root.
pub open spec fn is_absolute(p: Seq<char>) -> bool {
    p.len() > 0 && p[0] == '/'
}

/// `Path::join`: `rest` on its own when it is absolute, otherwise `rest`
/// under `base`, with one separator between them.
pub open spec fn join(base: Seq<char>, rest: Seq<char>) -> Seq<char> {
    if is_absolute(rest) {
        rest
    } else if base.len() == 0 || base.last() == '/' {
        base + rest
    } else {
        base + seq!['/'] + rest
    }
}

/// Whether the path starts at the root.
pub fn absolute(p: &[char]) -> (r: bool)
    ensures
        r == is_absolute(p@),
{
    p.len() > 0 && p[0] == '/'
}

/// `join`, carried out.
pub fn join_path(base: &[char], rest: &[char]) -> (r: Vec<char>)
    ensures
        r@ == join(base@, rest@),
{
    if absolute(rest) {
        slice_of(rest, 0, rest.len())
    } else if base.len() == 0 || base[base.len() - 1] == '/' {
        concat(base, rest)
    } else {
        let mut with_sep = slice_of(base, 0, base.len());
        with_sep.push('/');
        assert(with_sep@ =~= base@ + seq!['/']);
        concat(&with_sep, rest)
    }
}

/// `join`, on strings.
pub fn join_str(base: &str, rest: &str) -> (r: String)
    ensures
        r@ == join(base@, rest@),
{
    let b = chars_of(base);
    let p = chars_of(rest);
    let j = join_path(&b, &p);
    string_of(&j)
}

/// The last component of a list of path pieces that names something:
/// empty pieces (from repeated or trailing slashes) and `.` are passed over.
pub open spec fn last_named(pieces: Seq<Seq<char>>) -> Option<Seq<char>>
    decreases pieces.len(),
{
    if pieces.len() == 0 {
        None
    } else if pieces.last().len() == 0 || pieces.last() == seq!['.'] {
        last_named(pieces.drop_last())
    } else {
        Some(pieces.last())
    }
}

/// `Path::file_name`: the last component, unless that is `..` or there is
/// none.
pub open spec fn file_name(p: Seq<char>) -> Option<Seq<char>> {
    match last_named(split_on(p, '/')) {
        Some(last) => if last == seq!['.', '.'] {
            None
        } else {
            Some(last)
        },
        None => None,
    }
}

/// A file name without its extension: what comes before the last `.`,
/// unless that `.` is the first character, which only marks a hidden file.
pub open spec fn stem_of(name: Seq<char>) -> Seq<char> {
    match last_index_of(name, '.') {
        Some(k) => if k > 0 {
            name.take(k)
        } else {
            name
        },
        None => name,
    }
}

/// `Path::file_stem`.
pub open spec fn file_stem(p: Seq<char>) -> Option<Seq<char>> {
    match file_name(p) {
        Some(name) => Some(stem_of(name)),
        None => None,
    }
}

/// `file_name`, carried out.
pub fn file_name_of(p: &[char]) -> (r: Option<Vec<char>>)
    ensures
        r matches Some(n) ==> file_name(p@) == Some(n@),
        r is None ==> file_name(p@) is None,
{
    let pieces = split_chars(p, '/');
    let ghost all = views_of(pieces@);
    let mut i: usize = pieces.len();
    assert(all.take(i as int) =~= all);
    loop
        invariant
            i <= pieces@.len(),
            all == views_of(pieces@),
            all == split_on(p@, '/'),
            last_named(all) == last_named(all.take(i as int)),
        decreases i,
    {
        if i == 0 {
            return None;
        }
        let piece = &pieces[i - 1];
        assert(all.take(i as int).last() == piece@);
        assert(all.take(i as int).drop_last() =~= all.take(i - 1));
        let dot = piece.len() == 1 && piece[0] == '.';
        assert(dot ==> piece@ =~= seq!['.']);
        assert(piece@ == seq!['.'] ==> dot) by {
            if piece@ == seq!['.'] {
                assert(piece@[0] == '.');
            }
        }
        if piece.len() != 0 && !dot {
            let dotdot = piece.len() == 2 && piece[0] == '.' && piece[1] == '.';
            assert(dotdot ==> piece@ =~= seq!['.', '.']);
            assert(piece@ == seq!['.', '.'] ==> dotdot) by {
                if piece@ == seq!['.', '.'] {
                    assert(piece@[0] == '.' && piece@[1] == '.');
                }
            }
            if dotdot {
                return None;
            }
            return Some(slice_of(piece, 0, piece.len()));
        }
        i = i - 1;
    }
}

/// `file_stem`, carried out.
pub fn file_stem_of(p: &[char]) -> (r: Option<Vec<char>>)
    ensures
        r matches Some(n) ==> file_stem(p@) == Some(n@),
        r is None ==> file_stem(p@) is None,
{
    match file_name_of(p) {
        None => None,
        Some(name) => {
            match rfind_char(&name, '.') {
                Some(k) => {
                    if k > 0 {
                        Some(slice_of(&name, 0, k))
                    } else {
                        Some(name)
                    }
                },
                None => Some(name),
            }
        },
    }
}

} // verus!
