//! Comparing the versions adapters are offered at.
//!
//! A version is read as pieces between dots. Two pieces that are both
//! numbers are compared as numbers, so `1.10` comes after `1.9`; anything
//! else is compared as text, character by character. Where every piece one
//! version has matches the other's, the one with more pieces is the later.

use vstd::prelude::*;
use crate::text::{
    all_digits, chars_of, digits_value, lemma_index_of_is, parse_digits, split_chars,
    split_on, views_of,
};

verus! {

/// A piece read as a number, when it is one that fits in a `u64`.
pub open spec fn piece_number(p: Seq<char>) -> Option<nat> {
    if p.len() > 0 && all_digits(p) && digits_value(p) <= u64::MAX {
        Some(digits_value(p))
    } else {
        None
    }
}

/// Text order: character by character, a prefix before what it starts.
/// Negative, zero or positive, as `a` comes before, with or after `b`.
pub open spec fn text_order(a: Seq<char>, b: Seq<char>) -> int
    decreases a.len(),
{
    if a.len() == 0 && b.len() == 0 {
        0
    } else if a.len() == 0 {
        -1
    } else if b.len() == 0 {
        1
    } else if a[0] < b[0] {
        -1
    } else if a[0] > b[0] {
        1
    } else {
        text_order(a.drop_first(), b.drop_first())
    }
}

/// The order of two pieces: as numbers when both are, as text otherwise.
pub open spec fn piece_order(a: Seq<char>, b: Seq<char>) -> int {
    match (piece_number(a), piece_number(b)) {
        (Some(x), Some(y)) => if x < y {
            -1
        } else if x > y {
            1
        } else {
            0
        },
        _ => text_order(a, b),
    }
}

/// The order of two lists of pieces: by the first pair that differs, and
/// the shorter first where one runs out.
pub open spec fn pieces_order(a: Seq<Seq<char>>, b: Seq<Seq<char>>) -> int
    decreases a.len(),
{
    if a.len() == 0 && b.len() == 0 {
        0
    } else if a.len() == 0 {
        -1
    } else if b.len() == 0 {
        1
    } else if piece_order(a[0], b[0]) != 0 {
        piece_order(a[0], b[0])
    } else {
        pieces_order(a.drop_first(), b.drop_first())
    }
}

/// The order of two versions.
pub open spec fn version_order(a: Seq<char>, b: Seq<char>) -> int {
    pieces_order(split_on(a, '.'), split_on(b, '.'))
}

/// Whether `a` is as late a version as `b`, or later.
pub open spec fn is_at_least(a: Seq<char>, b: Seq<char>) -> bool {
    version_order(a, b) >= 0
}

fn text_rank(a: &[char], b: &[char]) -> (r: i8)
    ensures
        r as int == text_order(a@, b@),
{
    let mut i: usize = 0;
    assert(a@.skip(0) =~= a@ && b@.skip(0) =~= b@);
    loop
        invariant
            i <= a@.len(),
            i <= b@.len(),
            text_order(a@, b@) == text_order(a@.skip(i as int), b@.skip(i as int)),
        decreases a@.len() - i,
    {
        if i == a.len() && i == b.len() {
            return 0;
        }
        if i == a.len() {
            return -1;
        }
        if i == b.len() {
            return 1;
        }
        assert(a@.skip(i as int)[0] == a@[i as int] && b@.skip(i as int)[0] == b@[i as int]);
        if a[i] < b[i] {
            return -1;
        }
        if a[i] > b[i] {
            return 1;
        }
        assert(a@.skip(i as int).drop_first() =~= a@.skip(i + 1));
        assert(b@.skip(i as int).drop_first() =~= b@.skip(i + 1));
        i = i + 1;
    }
}

fn piece_rank(a: &[char], b: &[char]) -> (r: i8)
    ensures
        r as int == piece_order(a@, b@),
{
    match (parse_digits(a), parse_digits(b)) {
        (Some(x), Some(y)) => {
            if x < y {
                -1
            } else if x > y {
                1
            } else {
                0
            }
        },
        _ => text_rank(a, b),
    }
}

/// Whether `a` is as late a version as `b`, or later.
pub fn at_least(a: &str, b: &str) -> (r: bool)
    ensures
        r == is_at_least(a@, b@),
{
    let pa = split_chars(&chars_of(a), '.');
    let pb = split_chars(&chars_of(b), '.');
    let ghost va = views_of(pa@);
    let ghost vb = views_of(pb@);
    let mut i: usize = 0;
    assert(va.skip(0) =~= va && vb.skip(0) =~= vb);
    loop
        invariant
            va == views_of(pa@),
            vb == views_of(pb@),
            va == split_on(a@, '.'),
            vb == split_on(b@, '.'),
            i <= va.len(),
            i <= vb.len(),
            version_order(a@, b@) == pieces_order(va.skip(i as int), vb.skip(i as int)),
        decreases va.len() - i,
    {
        if i == pa.len() && i == pb.len() {
            return true;
        }
        if i == pa.len() {
            return false;
        }
        if i == pb.len() {
            return true;
        }
        assert(va.skip(i as int)[0] == pa@[i as int]@ && vb.skip(i as int)[0] == pb@[i as int]@);
        let c = piece_rank(&pa[i], &pb[i]);
        if c != 0 {
            return c > 0;
        }
        assert(va.skip(i as int).drop_first() =~= va.skip(i + 1));
        assert(vb.skip(i as int).drop_first() =~= vb.skip(i + 1));
        i = i + 1;
    }
}

proof fn lemma_text_order_same(a: Seq<char>)
    ensures
        text_order(a, a) == 0,
    decreases a.len(),
{
    if a.len() > 0 {
        lemma_text_order_same(a.drop_first());
    }
}

proof fn lemma_pieces_order_same(a: Seq<Seq<char>>)
    ensures
        pieces_order(a, a) == 0,
    decreases a.len(),
{
    if a.len() > 0 {
        lemma_text_order_same(a[0]);
        lemma_pieces_order_same(a.drop_first());
    }
}

/// Every version is at least itself.
pub proof fn a_version_is_at_least_itself(a: Seq<char>)
    ensures
        is_at_least(a, a),
{
    lemma_pieces_order_same(split_on(a, '.'));
}

proof fn lemma_text_order_flips(a: Seq<char>, b: Seq<char>)
    ensures
        text_order(a, b) == -text_order(b, a),
    decreases a.len(),
{
    if a.len() > 0 && b.len() > 0 && a[0] == b[0] {
        lemma_text_order_flips(a.drop_first(), b.drop_first());
    }
}

proof fn lemma_pieces_order_flips(a: Seq<Seq<char>>, b: Seq<Seq<char>>)
    ensures
        pieces_order(a, b) == -pieces_order(b, a),
    decreases a.len(),
{
    if a.len() > 0 && b.len() > 0 {
        lemma_text_order_flips(a[0], b[0]);
        lemma_pieces_order_flips(a.drop_first(), b.drop_first());
    }
}

/// Any two versions can be compared: one is at least the other, and each
/// is at least the other only when neither comes first.
pub proof fn any_two_versions_compare(a: Seq<char>, b: Seq<char>)
    ensures
        is_at_least(a, b) || is_at_least(b, a),
        is_at_least(a, b) && is_at_least(b, a) ==> version_order(a, b) == 0,
{
    lemma_pieces_order_flips(split_on(a, '.'), split_on(b, '.'));
}

proof fn lemma_one_piece(p: Seq<char>)
    requires
        all_digits(p),
    ensures
        split_on(p, '.') == seq![p],
{
    assert forall|j: int| 0 <= j < p.len() implies p[j] != '.' by {
        assert(crate::text::is_digit(p[j]));
    }
    lemma_index_of_is(p, '.', p.len() as int);
}

/// Numbers are compared as numbers, not as text: of two versions that are
/// each one run of digits, one is at least the other exactly when the
/// number it writes is at least the other's, so `10` comes after `9`.
pub proof fn numbers_compare_as_numbers(a: Seq<char>, b: Seq<char>)
    requires
        a.len() > 0,
        b.len() > 0,
        all_digits(a),
        all_digits(b),
        digits_value(a) <= u64::MAX,
        digits_value(b) <= u64::MAX,
    ensures
        is_at_least(a, b) <==> digits_value(a) >= digits_value(b),
{
    lemma_one_piece(a);
    lemma_one_piece(b);
    let pa = seq![a];
    let pb = seq![b];
    assert(pa.drop_first() =~= Seq::<Seq<char>>::empty());
    assert(pb.drop_first() =~= Seq::<Seq<char>>::empty());
    assert(pieces_order(Seq::<Seq<char>>::empty(), Seq::<Seq<char>>::empty()) == 0);
}

/// Where the first pieces are the same, the rest decides: a version is at
/// least another exactly when, after a shared first piece, its rest is at
/// least the other's rest.
pub proof fn a_shared_first_piece_leaves_the_rest_to_decide(
    first: Seq<Seq<char>>,
    a: Seq<Seq<char>>,
    b: Seq<Seq<char>>,
)
    requires
        first.len() == 1,
    ensures
        pieces_order(first + a, first + b) == pieces_order(a, b),
{
    lemma_text_order_same(first[0]);
    assert((first + a).drop_first() =~= a);
    assert((first + b).drop_first() =~= b);
    assert((first + a)[0] == first[0] && (first + b)[0] == first[0]);
}

} // verus!
