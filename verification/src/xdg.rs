//! Where the desktop specification says a program's files belong.
//!
//! The environment is read by the caller; what is decided here is what a
//! value, or its absence, makes of the directory.

use vstd::prelude::*;
use crate::paths::{is_absolute, join, absolute, join_path};
use crate::text::{chars_of, opt_of, split_chars, split_on, string_of, strings_of, views_of};

verus! {

/// An absolute override wins; anything else falls back under the home
/// directory, and a missing home leaves the relative path to be resolved
/// against wherever aeris was started.
pub open spec fn home_relative_path(
    set: Option<Seq<char>>,
    home: Option<Seq<char>>,
    fallback: Seq<char>,
) -> Seq<char> {
    if set is Some && is_absolute(set->0) {
        set->0
    } else {
        match home {
            Some(h) => join(h, fallback),
            None => fallback,
        }
    }
}

/// The directory a variable names, given the variable's value and `HOME`'s.
pub fn home_relative(set: &Option<String>, home: &Option<String>, fallback: &str) -> (r: String)
    ensures
        r@ == home_relative_path(opt_of(*set), opt_of(*home), fallback@),
{
    if let Some(value) = set {
        let v = chars_of(value.as_str());
        if absolute(&v) {
            return value.clone();
        }
    }
    let f = chars_of(fallback);
    match home {
        Some(h) => {
            let hv = chars_of(h.as_str());
            let j = join_path(&hv, &f);
            string_of(&j)
        },
        None => string_of(&f),
    }
}

/// Where per-user configuration goes, honouring `XDG_CONFIG_HOME`.
pub fn config_home(xdg_config_home: &Option<String>, home: &Option<String>) -> (r: String)
    ensures
        r@ == home_relative_path(opt_of(*xdg_config_home), opt_of(*home), ".config"@),
{
    home_relative(xdg_config_home, home, ".config")
}

/// Where per-user data goes, honouring `XDG_DATA_HOME`.
pub fn data_home(xdg_data_home: &Option<String>, home: &Option<String>) -> (r: String)
    ensures
        r@ == home_relative_path(opt_of(*xdg_data_home), opt_of(*home), ".local/share"@),
{
    home_relative(xdg_data_home, home, ".local/share")
}

/// Where things that can be fetched again go, honouring `XDG_CACHE_HOME`.
pub fn cache_home(xdg_cache_home: &Option<String>, home: &Option<String>) -> (r: String)
    ensures
        r@ == home_relative_path(opt_of(*xdg_cache_home), opt_of(*home), ".cache"@),
{
    home_relative(xdg_cache_home, home, ".cache")
}

/// The absolute pieces of a list, in the order they came.
pub open spec fn absolute_only(pieces: Seq<Seq<char>>) -> Seq<Seq<char>>
    decreases pieces.len(),
{
    if pieces.len() == 0 {
        seq![]
    } else if is_absolute(pieces[0]) {
        seq![pieces[0]] + absolute_only(pieces.drop_first())
    } else {
        absolute_only(pieces.drop_first())
    }
}

/// What the specification says to use when a list names no directory.
pub open spec fn default_data_dirs() -> Seq<Seq<char>> {
    seq!["/usr/local/share"@, "/usr/share"@]
}

/// The directories a `:` separated list names, or the default when it
/// names none. Relative entries are invalid and dropped.
pub open spec fn shared_dirs(set: Seq<char>) -> Seq<Seq<char>> {
    let listed = absolute_only(split_on(set, ':'));
    if listed.len() == 0 {
        default_data_dirs()
    } else {
        listed
    }
}

proof fn lemma_absolute_only(pieces: Seq<Seq<char>>)
    ensures
        forall|i: int|
            0 <= i < absolute_only(pieces).len() ==> is_absolute(#[trigger] absolute_only(pieces)[i])
                && pieces.contains(absolute_only(pieces)[i]),
    decreases pieces.len(),
{
    if pieces.len() > 0 {
        lemma_absolute_only(pieces.drop_first());
        let rest = absolute_only(pieces.drop_first());
        assert forall|i: int| 0 <= i < absolute_only(pieces).len() implies is_absolute(
            #[trigger] absolute_only(pieces)[i],
        ) && pieces.contains(absolute_only(pieces)[i]) by {
            if is_absolute(pieces[0]) {
                if i > 0 {
                    assert(absolute_only(pieces)[i] == rest[i - 1]);
                    let k = choose|k: int| 0 <= k < pieces.drop_first().len()
                        && pieces.drop_first()[k] == rest[i - 1];
                    assert(pieces[k + 1] == rest[i - 1]);
                } else {
                    assert(pieces[0] == absolute_only(pieces)[0]);
                }
            } else {
                let k = choose|k: int| 0 <= k < pieces.drop_first().len()
                    && pieces.drop_first()[k] == rest[i];
                assert(pieces[k + 1] == rest[i]);
            }
        }
    }
}

/// The shared data directories, in the order the list prefers them. Never
/// empty, and every one of them absolute.
pub fn shared(set: &str) -> (r: Vec<String>)
    ensures
        strings_of(r@) == shared_dirs(set@),
        r@.len() > 0,
        forall|i: int| 0 <= i < r@.len() ==> is_absolute(#[trigger] r@[i]@),
{
    let s = chars_of(set);
    let pieces = split_chars(&s, ':');
    let ghost all = views_of(pieces@);
    let mut listed: Vec<String> = Vec::new();
    let mut i: usize = 0;
    assert(all.skip(0) =~= all);
    while i < pieces.len()
        invariant
            i <= pieces@.len(),
            all == views_of(pieces@),
            all == split_on(s@, ':'),
            absolute_only(all) == strings_of(listed@) + absolute_only(all.skip(i as int)),
        decreases pieces@.len() - i,
    {
        let piece = &pieces[i];
        assert(all.skip(i as int)[0] == piece@);
        assert(all.skip(i as int).drop_first() =~= all.skip(i + 1));
        if absolute(piece) {
            let ghost before = strings_of(listed@);
            let kept = string_of(piece);
            listed.push(kept);
            assert(strings_of(listed@) =~= before.push(piece@));
            assert(absolute_only(all) =~= strings_of(listed@) + absolute_only(all.skip(i + 1)));
        }
        i = i + 1;
    }
    assert(all.skip(i as int).len() == 0);
    assert(strings_of(listed@) =~= absolute_only(all));
    proof {
        lemma_absolute_only(all);
    }
    if listed.len() == 0 {
        let mut fallback: Vec<String> = Vec::new();
        fallback.push(string_of(&chars_of("/usr/local/share")));
        fallback.push(string_of(&chars_of("/usr/share")));
        assert(strings_of(fallback@) =~= default_data_dirs());
        proof {
            reveal_strlit("/usr/local/share");
            reveal_strlit("/usr/share");
        }
        assert(is_absolute(fallback@[0]@));
        assert(is_absolute(fallback@[1]@));
        return fallback;
    }
    assert forall|i: int| 0 <= i < listed@.len() implies is_absolute(#[trigger] listed@[i]@) by {
        assert(strings_of(listed@)[i] == listed@[i]@);
    }
    listed
}

/// Where data installed for everyone goes, honouring `XDG_DATA_DIRS`, in the
/// order it prefers them. An unset variable reads as an empty list.
pub fn data_dirs(xdg_data_dirs: &Option<String>) -> (r: Vec<String>)
    ensures
        strings_of(r@) == shared_dirs(
            match opt_of(*xdg_data_dirs) {
                Some(s) => s,
                None => Seq::empty(),
            },
        ),
{
    let set = match xdg_data_dirs {
        Some(set) => set.clone(),
        None => String::new(),
    };
    assert(set@ == match opt_of(*xdg_data_dirs) {
        Some(s) => s,
        None => Seq::<char>::empty(),
    });
    shared(set.as_str())
}

/// A relative override is invalid and ignored: the directory falls back
/// under the home directory, and so is absolute whenever home is.
pub proof fn a_relative_override_is_ignored(
    set: Option<Seq<char>>,
    home: Seq<char>,
    fallback: Seq<char>,
)
    requires
        set is None || !is_absolute(set->0),
        is_absolute(home),
    ensures
        home_relative_path(set, Some(home), fallback) == join(home, fallback),
        is_absolute(home_relative_path(set, Some(home), fallback)),
{
    if !is_absolute(fallback) {
        if home.last() == '/' {
            assert((home + fallback)[0] == home[0]);
        } else {
            assert((home + seq!['/'] + fallback)[0] == home[0]);
        }
    }
}

} // verus!
