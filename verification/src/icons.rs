//! Icons for packages that are not installed.
//!
//! Nothing on disk describes a package until it is installed, so what a card
//! shows before that comes from a published set of icons, each named for the
//! package it belongs to. An index says which packages have one and where
//! they are served from; a map of exceptions says where a package is drawn
//! with another's icon.

use vstd::prelude::*;
use vstd::utf8::encode_utf8;
use crate::digest::{digest_hex, hex, is_hex_char, sha256};
use crate::paths::{join, join_str};
use crate::registry::{cache_is_stale, is_remote, remote, stale};
use crate::table::Table;
use crate::text::{
    cat, chars_of, concat, ends_with, has_suffix, slice_of, string_of, strings_of, views_of,
};

verus! {

/// Where the exceptions are read from when nothing says otherwise.
pub const DEFAULT_ICON_MAP_URL: &'static str = "https://raw.githubusercontent.com/pkgforge/aeris-metadata/main/icons.toml";

/// Where the index is read from when nothing says otherwise. It says where the
/// icons themselves live, so moving them does not need a new aeris.
pub const DEFAULT_ICON_INDEX_URL: &'static str = "https://raw.githubusercontent.com/pkgforge/aeris-metadata/main/index.toml";

/// How long the index and the exceptions stay good for, in nanoseconds: a
/// day. A name means the same icon for far longer than a package keeps a
/// version.
pub const REFRESH_AFTER: u128 = 86_400_000_000_000u128;

/// Suffixes that say how a package was built rather than what it is, so a
/// package carrying one is drawn with the icon of the program it packages.
///
/// Only ever a fallback: a package with an icon of its own keeps it.
pub open spec fn packaging_suffixes() -> Seq<Seq<char>> {
    seq!["-bin"@, "-deb"@, "-app"@, "-appimage"@, "-static"@, "-git"@, "-stable"@]
}

/// `name` without the first of `suffixes` it ends with, if it ends with one.
pub open spec fn strip_first(name: Seq<char>, suffixes: Seq<Seq<char>>) -> Option<Seq<char>>
    decreases suffixes.len(),
{
    if suffixes.len() == 0 {
        None
    } else if has_suffix(name, suffixes[0]) {
        Some(name.take(name.len() - suffixes[0].len()))
    } else {
        strip_first(name, suffixes.drop_first())
    }
}

/// The name one packaging suffix shorter, unless that would leave nothing.
pub open spec fn shorter_name(name: Seq<char>) -> Option<Seq<char>> {
    match strip_first(name, packaging_suffixes()) {
        Some(s) => if s.len() > 0 {
            Some(s)
        } else {
            None
        },
        None => None,
    }
}

proof fn lemma_strip_first_shorter(name: Seq<char>, suffixes: Seq<Seq<char>>)
    requires
        forall|i: int| 0 <= i < suffixes.len() ==> (#[trigger] suffixes[i]).len() > 0,
    ensures
        strip_first(name, suffixes) matches Some(s) ==> s.len() < name.len(),
    decreases suffixes.len(),
{
    if suffixes.len() > 0 && !has_suffix(name, suffixes[0]) {
        assert forall|i: int| 0 <= i < suffixes.drop_first().len() implies (
        #[trigger] suffixes.drop_first()[i]).len() > 0 by {
            assert(suffixes.drop_first()[i] == suffixes[i + 1]);
        }
        lemma_strip_first_shorter(name, suffixes.drop_first());
    } else if suffixes.len() > 0 {
        assert(suffixes[0].len() > 0);
    }
}

/// A packaging suffix always has something in it.
pub proof fn lemma_shorter_name(name: Seq<char>)
    ensures
        shorter_name(name) matches Some(s) ==> 0 < s.len() < name.len(),
{
    reveal_strlit("-bin");
    reveal_strlit("-deb");
    reveal_strlit("-app");
    reveal_strlit("-appimage");
    reveal_strlit("-static");
    reveal_strlit("-git");
    reveal_strlit("-stable");
    let s = packaging_suffixes();
    assert forall|i: int| 0 <= i < s.len() implies (#[trigger] s[i]).len() > 0 by {}
    lemma_strip_first_shorter(name, s);
}

/// What a package's icon might be called, the name it goes by first.
///
/// Suffixes come off one after another, since a package can carry more than
/// one of them: `zed-editor-stable-bin` is `zed-editor` built a particular way
/// from a particular channel.
pub open spec fn names_from(name: Seq<char>) -> Seq<Seq<char>>
    decreases name.len(),
{
    match shorter_name(name) {
        Some(s) => {
            proof {
                lemma_shorter_name(name);
            }
            seq![name] + names_from(s)
        },
        None => seq![name],
    }
}

/// The names tried for an icon start with the package's own; each after
/// it is the one before with the first packaging suffix it ends with
/// taken off, never leaving nothing, so each is shorter than the one
/// before; and the last has no such suffix left to take off. A non-empty
/// name gives only non-empty names.
pub proof fn each_name_is_one_suffix_shorter(name: Seq<char>)
    ensures
        names_from(name).len() > 0,
        names_from(name)[0] == name,
        forall|k: int|
            0 <= k < names_from(name).len() - 1 ==> shorter_name(#[trigger] names_from(name)[k])
                == Some(names_from(name)[k + 1]) && names_from(name)[k + 1].len()
                < names_from(name)[k].len(),
        shorter_name(names_from(name).last()) is None,
        name.len() > 0 ==> forall|k: int|
            0 <= k < names_from(name).len() ==> (#[trigger] names_from(name)[k]).len() > 0,
    decreases name.len(),
{
    lemma_shorter_name(name);
    if let Some(s) = shorter_name(name) {
        each_name_is_one_suffix_shorter(s);
        let all = names_from(name);
        let rest = names_from(s);
        assert(all == seq![name] + rest);
        assert forall|k: int| 0 < k < all.len() implies all[k] == rest[k - 1] by {}
        assert(all.last() == rest.last());
        assert forall|k: int| 0 <= k < all.len() - 1 implies shorter_name(#[trigger] all[k]) == Some(
            all[k + 1],
        ) && all[k + 1].len() < all[k].len() by {
            if k > 0 {
                assert(all[k] == rest[k - 1]);
                assert(all[k + 1] == rest[k]);
                lemma_shorter_name(all[k]);
            } else {
                assert(all[1] == rest[0]);
            }
        }
        if name.len() > 0 {
            assert forall|k: int| 0 <= k < all.len() implies (#[trigger] all[k]).len() > 0 by {
                if k > 0 {
                    assert(all[k] == rest[k - 1]);
                }
            }
        }
    }
}

fn suffix_list() -> (r: Vec<Vec<char>>)
    ensures
        views_of(r@) == packaging_suffixes(),
{
    let mut r: Vec<Vec<char>> = Vec::new();
    r.push(chars_of("-bin"));
    r.push(chars_of("-deb"));
    r.push(chars_of("-app"));
    r.push(chars_of("-appimage"));
    r.push(chars_of("-static"));
    r.push(chars_of("-git"));
    r.push(chars_of("-stable"));
    assert(views_of(r@) =~= packaging_suffixes());
    r
}

fn shorter(name: &Vec<char>, suffixes: &Vec<Vec<char>>) -> (r: Option<Vec<char>>)
    requires
        views_of(suffixes@) == packaging_suffixes(),
    ensures
        r matches Some(s) ==> shorter_name(name@) == Some(s@),
        r is None ==> shorter_name(name@) is None,
{
    let ghost all = views_of(suffixes@);
    let mut i: usize = 0;
    assert(all.skip(0) =~= all);
    while i < suffixes.len()
        invariant
            i <= suffixes@.len(),
            all == views_of(suffixes@),
            all == packaging_suffixes(),
            strip_first(name@, all) == strip_first(name@, all.skip(i as int)),
        decreases suffixes@.len() - i,
    {
        let suffix = &suffixes[i];
        assert(all.skip(i as int)[0] == suffix@);
        if ends_with(name, suffix) {
            let s = slice_of(name, 0, name.len() - suffix.len());
            assert(s@ =~= name@.take(name@.len() - suffix@.len()));
            assert(strip_first(name@, all.skip(i as int)) == Some(s@));
            assert(strip_first(name@, packaging_suffixes()) == Some(s@));
            if s.len() > 0 {
                return Some(s);
            }
            return None;
        }
        assert(all.skip(i as int).drop_first() =~= all.skip(i + 1));
        i = i + 1;
    }
    assert(all.skip(i as int).len() == 0);
    None
}

/// What a package's icon might be called, in the order they are tried.
pub fn names(icon: &str) -> (r: Vec<String>)
    ensures
        strings_of(r@) == names_from(icon@),
        r@.len() > 0,
{
    let suffixes = suffix_list();
    let mut out: Vec<String> = Vec::new();
    let mut cur = chars_of(icon);
    loop
        invariant
            views_of(suffixes@) == packaging_suffixes(),
            names_from(icon@) == strings_of(out@) + names_from(cur@),
        decreases cur@.len(),
    {
        let ghost before = strings_of(out@);
        out.push(string_of(&cur));
        assert(strings_of(out@) =~= before.push(cur@));
        proof {
            lemma_shorter_name(cur@);
        }
        match shorter(&cur, &suffixes) {
            Some(s) => {
                assert(names_from(cur@) == seq![cur@] + names_from(s@));
                assert(names_from(icon@) =~= strings_of(out@) + names_from(s@));
                cur = s;
            },
            None => {
                assert(names_from(cur@) == seq![cur@]);
                assert(names_from(icon@) =~= strings_of(out@));
                return out;
            },
        }
    }
}

/// Which icon a package is drawn with, where that is not simply its own.
///
/// Empty is the ordinary case: a package called `krita` is drawn with the icon
/// called `krita`, and nothing has to say so.
#[derive(Debug)]
pub struct IconMap {
    /// What any manager offering that name should be drawn with.
    default: Table<String>,
    /// Where one manager wants something else, by adapter id.
    per_adapter: Table<Table<String>>,
}

/// What a table of names says of `name`, as text.
pub open spec fn said_in(t: Table<String>, name: Seq<char>) -> Option<Seq<char>> {
    match t.entry(name) {
        Some(v) => Some(v@),
        None => None,
    }
}

impl IconMap {
    /// What the manager `adapter`'s own table says `name` is drawn with.
    pub closed spec fn own_say(&self, adapter: Seq<char>, name: Seq<char>) -> Option<Seq<char>> {
        match self.per_adapter.entry(adapter) {
            Some(t) => said_in(t, name),
            None => None,
        }
    }

    /// What the table that speaks for every manager says `name` is drawn
    /// with.
    pub closed spec fn common_say(&self, name: Seq<char>) -> Option<Seq<char>> {
        said_in(self.default, name)
    }

    /// What the map says `name` is drawn with when `adapter` offers it: the
    /// manager's own table first, then the one that speaks for every
    /// manager.
    pub open spec fn said(&self, adapter: Seq<char>, name: Seq<char>) -> Option<Seq<char>> {
        match self.own_say(adapter, name) {
            Some(v) => Some(v),
            None => self.common_say(name),
        }
    }

    /// What the map says of the first of `names` it says anything of.
    pub open spec fn first_said(&self, adapter: Seq<char>, names: Seq<Seq<char>>) -> Option<
        Seq<char>,
    >
        decreases names.len(),
    {
        if names.len() == 0 {
            None
        } else {
            match self.said(adapter, names[0]) {
                Some(v) => Some(v),
                None => self.first_said(adapter, names.drop_first()),
            }
        }
    }

    /// The icon `package` is drawn with when `adapter` offers it.
    pub open spec fn icon_for(&self, adapter: Seq<char>, package: Seq<char>) -> Seq<char> {
        match self.first_said(adapter, names_from(package)) {
            Some(v) => v,
            None => package,
        }
    }

    /// A map with the exceptions given: what every manager's packages are
    /// drawn with, and, by adapter id, what one manager's are.
    pub fn new(default: Table<String>, per_adapter: Table<Table<String>>) -> (r: Self)
        ensures
            forall|adapter: Seq<char>, name: Seq<char>| #[trigger]
                r.own_say(adapter, name) == match per_adapter.entry(adapter) {
                    Some(t) => said_in(t, name),
                    None => None,
                },
            forall|name: Seq<char>| #[trigger] r.common_say(name) == said_in(default, name),
    {
        IconMap { default, per_adapter }
    }

    /// A map with no exceptions, which is what it is until one is read.
    pub fn empty() -> (r: Self)
        ensures
            forall|adapter: Seq<char>, name: Seq<char>| #[trigger] r.own_say(adapter, name) is None,
            forall|name: Seq<char>| #[trigger] r.common_say(name) is None,
    {
        IconMap { default: Table::new(), per_adapter: Table::new() }
    }

    fn said_of(&self, adapter_id: &str, name: &str) -> (r: Option<String>)
        ensures
            opt_text(r) == self.said(adapter_id@, name@),
    {
        let own = match self.per_adapter.get(adapter_id) {
            Some(t) => match t.get(name) {
                Some(v) => Some(v.clone()),
                None => None,
            },
            None => None,
        };
        match own {
            Some(v) => Some(v),
            None => match self.default.get(name) {
                Some(v) => Some(v.clone()),
                None => None,
            },
        }
    }

    /// The icon a package is drawn with, asking the manager's own table before
    /// the one that speaks for every manager.
    ///
    /// A package nobody has said anything about is drawn with its own name,
    /// which is what the published set is keyed by. Said of a name, it is said
    /// of the `-bin` and `-deb` of it too.
    pub fn icon_of(&self, adapter_id: &str, package: &str) -> (r: String)
        ensures
            r@ == self.icon_for(adapter_id@, package@),
    {
        let tried = names(package);
        let ghost all = strings_of(tried@);
        let mut i: usize = 0;
        assert(all.skip(0) =~= all);
        while i < tried.len()
            invariant
                i <= tried@.len(),
                all == strings_of(tried@),
                all == names_from(package@),
                self.first_said(adapter_id@, all) == self.first_said(adapter_id@, all.skip(i as int)),
            decreases tried@.len() - i,
        {
            assert(all.skip(i as int)[0] == tried@[i as int]@);
            assert(all.skip(i as int).drop_first() =~= all.skip(i + 1));
            match self.said_of(adapter_id, tried[i].as_str()) {
                Some(v) => return v,
                None => {},
            }
            i = i + 1;
        }
        assert(all.skip(i as int).len() == 0);
        package.to_owned()
    }
}

impl Default for IconMap {
    fn default() -> (r: Self)
        ensures
            forall|adapter: Seq<char>, name: Seq<char>| #[trigger] r.own_say(adapter, name) is None,
            forall|name: Seq<char>| #[trigger] r.common_say(name) is None,
    {
        IconMap::empty()
    }
}

impl Default for IconIndex {
    fn default() -> (r: Self)
        ensures
            r.base_url().len() == 0,
            r.listed().holds_nothing(),
    {
        IconIndex::empty()
    }
}

/// What an optional string holds.
pub open spec fn opt_text(o: Option<String>) -> Option<Seq<char>> {
    match o {
        Some(s) => Some(s@),
        None => None,
    }
}

/// A package nobody has said anything about is drawn with its own name.
pub proof fn unspoken_for_is_drawn_as_itself(map: IconMap, adapter: Seq<char>, package: Seq<char>)
    requires
        forall|i: int|
            0 <= i < names_from(package).len() ==> map.said(adapter, #[trigger] names_from(package)[i])
                is None,
    ensures
        map.icon_for(adapter, package) == package,
{
    lemma_nothing_said(map, adapter, names_from(package));
}

proof fn lemma_nothing_said(map: IconMap, adapter: Seq<char>, names: Seq<Seq<char>>)
    requires
        forall|i: int| 0 <= i < names.len() ==> map.said(adapter, #[trigger] names[i]) is None,
    ensures
        map.first_said(adapter, names) is None,
    decreases names.len(),
{
    if names.len() > 0 {
        assert(map.said(adapter, names[0]) is None);
        assert forall|i: int| 0 <= i < names.drop_first().len() implies map.said(
            adapter,
            #[trigger] names.drop_first()[i],
        ) is None by {
            assert(names.drop_first()[i] == names[i + 1]);
        }
        lemma_nothing_said(map, adapter, names.drop_first());
    }
}

/// Said of a name, it is said of how that was packaged: where nothing is
/// said of a package under its own name, it is drawn as the name one
/// packaging suffix shorter would be, if anything is said of that.
pub proof fn said_of_a_name_is_said_of_its_packaging(
    map: IconMap,
    adapter: Seq<char>,
    package: Seq<char>,
)
    requires
        map.said(adapter, package) is None,
        shorter_name(package) is Some,
    ensures
        map.first_said(adapter, names_from(package)) == map.first_said(
            adapter,
            names_from(shorter_name(package)->0),
        ),
{
    let s = shorter_name(package)->0;
    assert(names_from(package) == seq![package] + names_from(s));
    assert(names_from(package)[0] == package);
    assert(names_from(package).drop_first() =~= names_from(s));
}

/// Which packages have an icon, and where those icons are served from.
#[derive(Debug)]
pub struct IconIndex {
    /// Where the icons are, without a trailing slash.
    base: String,
    /// Package name to the extension its icon is published as.
    icons: Table<String>,
}

/// The first of `names` the table has an entry for, and that entry.
pub open spec fn first_listed(t: Table<String>, names: Seq<Seq<char>>) -> Option<
    (Seq<char>, Seq<char>),
>
    decreases names.len(),
{
    if names.len() == 0 {
        None
    } else {
        match t.entry(names[0]) {
            Some(ext) => Some((names[0], ext@)),
            None => first_listed(t, names.drop_first()),
        }
    }
}

impl IconIndex {
    /// Where the icons are served from.
    pub closed spec fn base_url(&self) -> Seq<char> {
        self.base@
    }

    /// The extensions icons are published as, by package name.
    pub closed spec fn listed(&self) -> Table<String> {
        self.icons
    }

    /// The name the set carries a package's icon under, and as what.
    pub open spec fn published_as(&self, icon: Seq<char>) -> Option<(Seq<char>, Seq<char>)> {
        first_listed(self.listed(), names_from(icon))
    }

    /// Where a package's icon is published, if one is and the index says
    /// where icons are served from.
    pub open spec fn url_for(&self, icon: Seq<char>) -> Option<Seq<char>> {
        match self.published_as(icon) {
            Some((name, ext)) => if self.base_url().len() > 0 {
                Some(self.base_url() + seq!['/'] + name + seq!['.'] + ext)
            } else {
                None
            },
            None => None,
        }
    }

    /// What a package's icon is called on disk once it has been fetched.
    pub open spec fn file_for(&self, icon: Seq<char>) -> Option<Seq<char>> {
        match self.published_as(icon) {
            Some((name, ext)) => Some(name + seq!['.'] + ext),
            None => None,
        }
    }

    /// An index of the icons listed, served from `base`.
    pub fn new(base: String, icons: Table<String>) -> (r: Self)
        ensures
            r.base_url() == base@,
            r.listed() == icons,
    {
        IconIndex { base, icons }
    }

    /// An index listing nothing, which is what it is until one is read.
    pub fn empty() -> (r: Self)
        ensures
            r.base_url().len() == 0,
            r.listed().holds_nothing(),
            forall|k: Seq<char>| #[trigger] r.listed().entry(k) is None,
    {
        IconIndex { base: String::new(), icons: Table::new() }
    }

    fn published(&self, icon: &str) -> (r: Option<(String, String)>)
        ensures
            match r {
                Some((n, e)) => self.published_as(icon@) == Some((n@, e@)),
                None => self.published_as(icon@) is None,
            },
    {
        let tried = names(icon);
        let ghost all = strings_of(tried@);
        let mut i: usize = 0;
        assert(all.skip(0) =~= all);
        while i < tried.len()
            invariant
                i <= tried@.len(),
                all == strings_of(tried@),
                all == names_from(icon@),
                first_listed(self.icons, all) == first_listed(self.icons, all.skip(i as int)),
            decreases tried@.len() - i,
        {
            assert(all.skip(i as int)[0] == tried@[i as int]@);
            assert(all.skip(i as int).drop_first() =~= all.skip(i + 1));
            match self.icons.get(tried[i].as_str()) {
                Some(ext) => return Some((tried[i].clone(), ext.clone())),
                None => {},
            }
            i = i + 1;
        }
        assert(all.skip(i as int).len() == 0);
        None
    }

    /// Where a package's icon is published, if one is.
    ///
    /// Answering nothing is the ordinary case: most packages are command line
    /// tools, and aeris draws those as a package.
    pub fn url_of(&self, icon: &str) -> (r: Option<String>)
        ensures
            opt_text(r) == self.url_for(icon@),
    {
        match self.published(icon) {
            Some((name, ext)) => {
                if self.base.as_str().is_empty() {
                    return None;
                }
                let mut u = chars_of(self.base.as_str());
                u.push('/');
                let u = concat(&u, &chars_of(name.as_str()));
                let mut u = u;
                u.push('.');
                let u = concat(&u, &chars_of(ext.as_str()));
                assert(u@ =~= self.base@ + seq!['/'] + name@ + seq!['.'] + ext@);
                Some(string_of(&u))
            },
            None => None,
        }
    }

    /// What a package's icon is called on disk once it has been fetched.
    pub fn file_name(&self, icon: &str) -> (r: Option<String>)
        ensures
            opt_text(r) == self.file_for(icon@),
    {
        match self.published(icon) {
            Some((name, ext)) => {
                let mut u = chars_of(name.as_str());
                u.push('.');
                let u = concat(&u, &chars_of(ext.as_str()));
                assert(u@ =~= name@ + seq!['.'] + ext@);
                Some(string_of(&u))
            },
            None => None,
        }
    }

    /// Whether the index lists no icon at all.
    pub fn is_empty(&self) -> (r: bool)
        ensures
            r == self.listed().holds_nothing(),
    {
        self.icons.is_empty()
    }
}

/// Where a package's icon is asked for and what it is kept as agree: the
/// address is the base, a slash, and the name it is kept under.
pub proof fn the_address_ends_in_the_file_name(index: IconIndex, icon: Seq<char>)
    requires
        index.base_url().len() > 0,
    ensures
        index.url_for(icon) == match index.file_for(icon) {
            Some(f) => Some(index.base_url() + seq!['/'] + f),
            None => None::<Seq<char>>,
        },
{
    match index.published_as(icon) {
        Some((name, ext)) => {
            assert(index.base_url() + seq!['/'] + name + seq!['.'] + ext =~= index.base_url() + seq![
                '/',
            ] + (name + seq!['.'] + ext));
        },
        None => {},
    }
}

/// A package with an icon of its own keeps it: trimming a suffix is a
/// fallback, never an override.
pub proof fn an_icon_of_its_own_is_kept(index: IconIndex, icon: Seq<char>)
    requires
        index.listed().entry(icon) is Some,
    ensures
        index.published_as(icon) == Some((icon, index.listed().entry(icon)->0@)),
{
    assert(names_from(icon)[0] == icon);
}

/// Whether something names where to get it rather than naming a package.
pub fn is_fetchable(source: &str) -> (r: bool)
    ensures
        r == remote(source@),
{
    is_remote(source)
}

/// What an icon named by its address is kept under: the first sixteen bytes
/// of the digest of the address, in hex.
pub open spec fn digest_name(url: Seq<char>) -> Seq<char> {
    hex(sha256(encode_utf8(url)).take(16))
}

/// A URL is not a file name, so one is kept under the digest of the other.
pub fn digest_of(url: &str) -> (r: String)
    ensures
        r@ == digest_name(url@),
        r@.len() == 32,
        forall|i: int| 0 <= i < r@.len() ==> is_hex_char(#[trigger] r@[i]),
{
    let d = digest_hex(url.as_bytes(), 16);
    string_of(&d)
}

/// Where aeris keeps what it fetched, under the cache directory.
pub open spec fn cache_dir_of(cache_home: Seq<char>) -> Seq<char> {
    join(cache_home, "aeris"@)
}

/// Where aeris keeps what it fetched.
pub fn cache_dir(cache_home: &str) -> (r: String)
    ensures
        r@ == cache_dir_of(cache_home@),
{
    join_str(cache_home, "aeris")
}

/// Where fetched icons are kept.
pub fn icon_dir(cache_home: &str) -> (r: String)
    ensures
        r@ == join(cache_dir_of(cache_home@), "icons"@),
{
    join_str(cache_dir(cache_home).as_str(), "icons")
}

/// Where the exceptions are kept once read.
pub fn map_path(cache_home: &str) -> (r: String)
    ensures
        r@ == join(cache_dir_of(cache_home@), "icons.toml"@),
{
    join_str(cache_dir(cache_home).as_str(), "icons.toml")
}

/// Where the index is kept once read.
pub fn index_path(cache_home: &str) -> (r: String)
    ensures
        r@ == join(cache_dir_of(cache_home@), "index.toml"@),
{
    join_str(cache_dir(cache_home).as_str(), "index.toml")
}

/// The files an icon named by each of `names` may be kept as, a drawing
/// that scales before one that does not.
pub open spec fn files_for(dir: Seq<char>, names: Seq<Seq<char>>) -> Seq<Seq<char>>
    decreases names.len(),
{
    if names.len() == 0 {
        seq![]
    } else {
        seq![join(dir, names[0] + ".svg"@), join(dir, names[0] + ".png"@)] + files_for(
            dir,
            names.drop_first(),
        )
    }
}

/// Where a package's icon may already be kept, in the order to look: one
/// named by its address is kept under the digest of that address; any other
/// under each name it might go by, in either format.
pub open spec fn icon_files(dir: Seq<char>, icon: Seq<char>) -> Seq<Seq<char>> {
    if remote(icon) {
        seq![join(dir, digest_name(icon))]
    } else {
        files_for(dir, names_from(icon))
    }
}

/// Where a package's icon may already be kept, in the order to look; the
/// first of them that is a file is the icon.
pub fn icon_candidates(dir: &str, icon: &str) -> (r: Vec<String>)
    ensures
        strings_of(r@) == icon_files(dir@, icon@),
{
    let mut out: Vec<String> = Vec::new();
    if is_fetchable(icon) {
        out.push(join_str(dir, digest_of(icon).as_str()));
        assert(strings_of(out@) =~= seq![join(dir@, digest_name(icon@))]);
        return out;
    }
    let tried = names(icon);
    let ghost all = strings_of(tried@);
    let mut i: usize = 0;
    assert(all.skip(0) =~= all);
    while i < tried.len()
        invariant
            i <= tried@.len(),
            all == strings_of(tried@),
            all == names_from(icon@),
            files_for(dir@, all) == strings_of(out@) + files_for(dir@, all.skip(i as int)),
        decreases tried@.len() - i,
    {
        let name = tried[i].as_str();
        assert(all.skip(i as int)[0] == name@);
        assert(all.skip(i as int).drop_first() =~= all.skip(i + 1));
        let ghost before = strings_of(out@);
        out.push(join_str(dir, cat(name, ".svg").as_str()));
        out.push(join_str(dir, cat(name, ".png").as_str()));
        assert(strings_of(out@) =~= before + seq![join(dir@, name@ + ".svg"@), join(dir@, name@ + ".png"@)]);
        i = i + 1;
    }
    assert(all.skip(i as int).len() == 0);
    assert(strings_of(out@) =~= files_for(dir@, all));
    out
}

/// Where an icon is fetched from and what it is kept as: where the index
/// publishes it, or, for an icon named outright by its address, that address
/// and the digest of it. Anything else is published by nobody.
pub open spec fn icon_source_of(index: IconIndex, icon: Seq<char>) -> Result<
    (Seq<char>, Seq<char>),
    Seq<char>,
> {
    if index.url_for(icon) is Some && index.file_for(icon) is Some {
        Ok((index.url_for(icon)->0, index.file_for(icon)->0))
    } else if remote(icon) {
        Ok((icon, digest_name(icon)))
    } else {
        Err("nothing publishes an icon for "@ + icon)
    }
}

/// Where an icon is fetched from and what it is kept as, or why it is not
/// asked for: a package the index does not name is never requested.
pub fn icon_source(index: &IconIndex, icon: &str) -> (r: Result<(String, String), String>)
    ensures
        match r {
            Ok((u, f)) => icon_source_of(*index, icon@) == Ok::<(Seq<char>, Seq<char>), Seq<char>>((u@, f@)),
            Err(m) => icon_source_of(*index, icon@) == Err::<(Seq<char>, Seq<char>), Seq<char>>(m@),
        },
{
    match (index.url_of(icon), index.file_name(icon)) {
        (Some(url), Some(name)) => Ok((url, name)),
        _ => {
            if is_fetchable(icon) {
                Ok((icon.to_owned(), digest_of(icon)))
            } else {
                Err(cat("nothing publishes an icon for ", icon))
            }
        },
    }
}

/// A download, kept only if something was sent.
pub fn received(url: &str, bytes: Vec<u8>) -> (r: Result<Vec<u8>, String>)
    ensures
        bytes@.len() > 0 ==> r == Ok::<Vec<u8>, String>(bytes),
        bytes@.len() == 0 ==> (r matches Err(m) && m@ == url@ + ": nothing was sent"@),
{
    if bytes.len() == 0 {
        return Err(cat(url, ": nothing was sent"));
    }
    Ok(bytes)
}

/// Whether what is on disk is old enough to be worth reading again, given
/// how long ago the index was written, in nanoseconds, or nothing when that
/// cannot be told.
pub fn is_stale(age: Option<u128>, within: u128) -> (r: bool)
    ensures
        r == stale(age, within),
{
    cache_is_stale(age, within)
}

/// A manager that means something else by a name wins: what its own table
/// says of a package is what the package is drawn with.
pub proof fn a_manager_that_means_something_else_wins(
    map: IconMap,
    adapter: Seq<char>,
    package: Seq<char>,
)
    requires
        map.own_say(adapter, package) is Some,
    ensures
        map.icon_for(adapter, package) == map.own_say(adapter, package)->0,
{
    assert(names_from(package)[0] == package) by {
        if shorter_name(package) is Some {
            assert(names_from(package) == seq![package] + names_from(shorter_name(package)->0));
        }
    }
}

} // verus!
