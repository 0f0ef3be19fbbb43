//! The icons drawn from vectors rather than from a font, compiled in so
//! aeris stays the single file it is shipped as. What is decided here is
//! which of them answers for a path; their bytes are the caller's.

use vstd::prelude::*;
use crate::text::{chars_of, has_prefix, same, starts_with, strings_of};

verus! {

/// The paths the compiled-in icons are found under, in order.
pub open spec fn asset_paths() -> Seq<Seq<char>> {
    seq!["icons/close.svg"@]
}

/// The paths in `names` that start with `prefix`, in order.
pub open spec fn under(names: Seq<Seq<char>>, prefix: Seq<char>) -> Seq<Seq<char>>
    decreases names.len(),
{
    if names.len() == 0 {
        seq![]
    } else if has_prefix(names[0], prefix) {
        seq![names[0]] + under(names.drop_first(), prefix)
    } else {
        under(names.drop_first(), prefix)
    }
}

/// The compiled-in icons.
pub struct Assets;

fn paths() -> (r: Vec<String>)
    ensures
        strings_of(r@) == asset_paths(),
{
    let mut r: Vec<String> = Vec::new();
    r.push("icons/close.svg".to_owned());
    assert(strings_of(r@) =~= asset_paths());
    r
}

impl Assets {
    /// Which compiled-in icon is found under `path`, by its place in the
    /// list, if any is.
    pub fn load(&self, path: &str) -> (r: Option<usize>)
        ensures
            r matches Some(i) ==> i < asset_paths().len() && asset_paths()[i as int] == path@,
            r is None ==> !asset_paths().contains(path@),
    {
        let all = paths();
        let p = chars_of(path);
        let mut i: usize = 0;
        while i < all.len()
            invariant
                i <= all@.len(),
                strings_of(all@) == asset_paths(),
                p@ == path@,
                forall|j: int| 0 <= j < i ==> asset_paths()[j] != path@,
            decreases all@.len() - i,
        {
            assert(strings_of(all@)[i as int] == all@[i as int]@);
            if same(&chars_of(all[i].as_str()), &p) {
                return Some(i);
            }
            i = i + 1;
        }
        None
    }

    /// The paths of the compiled-in icons that start with `path`.
    pub fn list(&self, path: &str) -> (r: Vec<String>)
        ensures
            strings_of(r@) == under(asset_paths(), path@),
    {
        let all = paths();
        let p = chars_of(path);
        let ghost names = strings_of(all@);
        let mut out: Vec<String> = Vec::new();
        let mut i: usize = 0;
        assert(names.skip(0) =~= names);
        while i < all.len()
            invariant
                i <= all@.len(),
                names == strings_of(all@),
                names == asset_paths(),
                p@ == path@,
                under(names, p@) == strings_of(out@) + under(names.skip(i as int), p@),
            decreases all@.len() - i,
        {
            assert(names.skip(i as int)[0] == all@[i as int]@);
            assert(names.skip(i as int).drop_first() =~= names.skip(i + 1));
            if starts_with(&chars_of(all[i].as_str()), &p) {
                let ghost before = strings_of(out@);
                out.push(all[i].clone());
                assert(strings_of(out@) =~= before.push(all@[i as int]@));
            }
            i = i + 1;
        }
        assert(names.skip(i as int).len() == 0);
        assert(strings_of(out@) =~= under(names, p@));
        out
    }
}

} // verus!
