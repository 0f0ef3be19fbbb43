//! The registries adapters are offered from, and the one listing read out of
//! them.

use vstd::prelude::*;
use vstd::utf8::{decode_utf8, encode_utf8, valid_utf8};
use crate::digest::{digest_hex, hex, sha256};
use crate::paths::{file_stem, file_stem_of, join, join_str};
use crate::text::{
    cat, chars_of, concat, decimal, decimal_of, find, find_char, find_chars, has_prefix, index_of,
    lemma_index_of_is, opt_of, same, slice_of, starts_with, string_of, strings_of,
};
use crate::version::{at_least, is_at_least};

verus! {

/// The registry format this build reads.
///
/// Same bargain as a manifest's schema version: a listing written to a newer
/// shape is refused rather than half understood. It says nothing about the
/// adapters listed, so adding or updating one leaves it alone.
pub const REGISTRY_VERSION: u32 = 1;

/// Where the registry aeris ships knowing about is read from.
pub const DEFAULT_REGISTRY_URL: &'static str = "https://raw.githubusercontent.com/pkgforge/aeris-registry/main/registry.toml";

/// What the registry aeris ships knowing about is called.
pub const DEFAULT_REGISTRY_NAME: &'static str = "pkgforge";

/// A registry to read: where it is, and what to call it.
///
/// Written either as the address on its own, or as a table naming it. The
/// name is what the window shows, since an address is no label.
#[derive(Debug, Clone)]
pub enum Source {
    Url(String),
    Named { name: String, url: String },
}

/// What a registry says about itself.
#[derive(Debug)]
pub struct RegistryMeta {
    pub version: u32,
    pub updated: String,
}

/// A registry as it was read: what it says about itself, and what it offers.
#[derive(Debug)]
pub struct Registry {
    pub registry: RegistryMeta,
    pub plugins: Vec<PluginEntry>,
}

/// One adapter the registry offers, which is a manifest and nothing more.
#[derive(Debug, Clone)]
pub struct PluginEntry {
    pub id: String,
    pub name: String,
    pub version: String,
    pub description: String,
    pub manifest_url: String,
    pub manifest_checksum_sha256: String,
    pub repo_url: String,
    /// What the registry it was read from is called. Not part of the listing
    /// itself: a registry does not name itself, so it is filled in on the way
    /// past.
    pub source: String,
}

/// What an offered adapter says, as text.
pub struct PluginEntryView {
    pub id: Seq<char>,
    pub name: Seq<char>,
    pub version: Seq<char>,
    pub description: Seq<char>,
    pub manifest_url: Seq<char>,
    pub manifest_checksum_sha256: Seq<char>,
    pub repo_url: Seq<char>,
    pub source: Seq<char>,
}

impl View for PluginEntry {
    type V = PluginEntryView;

    open spec fn view(&self) -> PluginEntryView {
        PluginEntryView {
            id: self.id@,
            name: self.name@,
            version: self.version@,
            description: self.description@,
            manifest_url: self.manifest_url@,
            manifest_checksum_sha256: self.manifest_checksum_sha256@,
            repo_url: self.repo_url@,
            source: self.source@,
        }
    }
}

/// What a list of offered adapters says.
pub open spec fn entries_of(v: Seq<PluginEntry>) -> Seq<PluginEntryView> {
    v.map_values(|e: PluginEntry| e@)
}

/// What a list of listings says, one listing after another.
pub open spec fn listings_of(v: Seq<Vec<PluginEntry>>) -> Seq<Seq<PluginEntryView>> {
    v.map_values(|l: Vec<PluginEntry>| entries_of(l@))
}

/// Every listing's entries, one listing after another.
pub open spec fn concat_all(ls: Seq<Seq<PluginEntryView>>) -> Seq<PluginEntryView>
    decreases ls.len(),
{
    if ls.len() == 0 {
        seq![]
    } else {
        concat_all(ls.drop_last()) + ls.last()
    }
}

/// An entry, said to come from the registry called `source`.
pub open spec fn tagged(e: PluginEntryView, source: Seq<char>) -> PluginEntryView {
    PluginEntryView { source: source, ..e }
}

/// Whether the entry at `i` is the first to offer its adapter.
pub open spec fn first_offer(all: Seq<PluginEntryView>, i: int) -> bool {
    forall|j: int| 0 <= j < i ==> all[j].id != all[i].id
}

/// The first offer of each adapter among the first `n` entries, in order.
pub open spec fn first_offers(all: Seq<PluginEntryView>, n: int) -> Seq<PluginEntryView>
    decreases n,
{
    if n <= 0 {
        seq![]
    } else if first_offer(all, n - 1) {
        first_offers(all, n - 1).push(all[n - 1])
    } else {
        first_offers(all, n - 1)
    }
}

/// Listings folded into one, keeping the first offer of each adapter.
pub open spec fn merged(listings: Seq<Seq<PluginEntryView>>) -> Seq<PluginEntryView> {
    first_offers(concat_all(listings), concat_all(listings).len() as int)
}

/// The entries of a listing, each said to come from `source`.
pub fn from(source: &str, plugins: Vec<PluginEntry>) -> (r: Vec<PluginEntry>)
    ensures
        r@.len() == plugins@.len(),
        forall|i: int| 0 <= i < r@.len() ==> #[trigger] r@[i]@ == tagged(plugins@[i]@, source@),
{
    let mut out: Vec<PluginEntry> = Vec::new();
    for entry in it: plugins
        invariant
            out@.len() == it.index(),
            it.seq() == plugins@,
            forall|i: int| 0 <= i < out@.len() ==> #[trigger] out@[i]@ == tagged(plugins@[i]@, source@),
    {
        let mut entry = entry;
        entry.source = source.to_owned();
        out.push(entry);
    }
    out
}

/// Whether some entry of `s` offers the adapter `id`.
pub open spec fn carries(s: Seq<PluginEntryView>, id: Seq<char>) -> bool {
    exists|k: int| 0 <= k < s.len() && s[k].id == id
}

/// Whether `id` is one of `seen`.
pub open spec fn holds(seen: Seq<String>, id: Seq<char>) -> bool {
    exists|k: int| 0 <= k < seen.len() && seen[k]@ == id
}

/// Whether `id` is one of `seen`.
fn has_id(seen: &Vec<String>, id: &String) -> (r: bool)
    ensures
        r == holds(seen@, id@),
{
    let mut i: usize = 0;
    while i < seen.len()
        invariant
            i <= seen@.len(),
            forall|k: int| 0 <= k < i ==> seen@[k]@ != id@,
        decreases seen@.len() - i,
    {
        if seen[i] == *id {
            return true;
        }
        i = i + 1;
    }
    false
}

proof fn lemma_first_offers_ids(all: Seq<PluginEntryView>, n: int)
    requires
        0 <= n <= all.len(),
    ensures
        forall|id: Seq<char>| #[trigger] carries(first_offers(all, n), id) == carries(all.take(n), id),
    decreases n,
{
    if n > 0 {
        lemma_first_offers_ids(all, n - 1);
        let prev = first_offers(all, n - 1);
        let cur = first_offers(all, n);
        assert forall|id: Seq<char>| #[trigger] carries(cur, id) == carries(all.take(n), id) by {
            assert(carries(prev, id) == carries(all.take(n - 1), id));
            if carries(all.take(n), id) {
                let j = choose|j: int| 0 <= j < n && #[trigger] all.take(n)[j].id == id;
                if j < n - 1 {
                    assert(all.take(n - 1)[j] == all.take(n)[j]);
                    let k = choose|k: int| 0 <= k < prev.len() && #[trigger] prev[k].id == id;
                    assert(cur[k] == prev[k]);
                } else if first_offer(all, n - 1) {
                    assert(cur[prev.len() as int] == all[n - 1]);
                } else {
                    let j2 = choose|j2: int| 0 <= j2 < n - 1 && #[trigger] all[j2].id == all[n - 1].id;
                    assert(all.take(n - 1)[j2] == all[j2]);
                    let k = choose|k: int| 0 <= k < prev.len() && #[trigger] prev[k].id == id;
                    assert(cur[k] == prev[k]);
                }
            }
            if carries(cur, id) {
                let k = choose|k: int| 0 <= k < cur.len() && #[trigger] cur[k].id == id;
                if k < prev.len() {
                    assert(cur[k] == prev[k]);
                    let j = choose|j: int| 0 <= j < n - 1 && #[trigger] all.take(n - 1)[j].id == id;
                    assert(all.take(n)[j] == all.take(n - 1)[j]);
                } else {
                    assert(cur[k] == all[n - 1]);
                    assert(all.take(n)[n - 1] == all[n - 1]);
                }
            }
        }
    }
}

/// Fold listings into one, keeping the first offer of each adapter.
pub fn merge(listings: Vec<Vec<PluginEntry>>) -> (r: Vec<PluginEntry>)
    ensures
        entries_of(r@) == merged(listings_of(listings@)),
{
    let mut all: Vec<PluginEntry> = Vec::new();
    let ghost ls = listings_of(listings@);
    for listing in it: listings
        invariant
            it.seq() == listings@,
            ls == listings_of(listings@),
            entries_of(all@) == concat_all(ls.take(it.index() as int)),
    {
        let mut listing = listing;
        let ghost before = entries_of(all@);
        let ghost added = entries_of(listing@);
        all.append(&mut listing);
        assert(ls.take(it.index() + 1).drop_last() =~= ls.take(it.index() as int));
        assert(ls[it.index() as int] == added);
        assert(entries_of(all@) =~= before + added);
    }
    assert(ls.take(ls.len() as int) =~= ls);
    let ghost every = entries_of(all@);
    let mut seen: Vec<String> = Vec::new();
    let mut offered: Vec<PluginEntry> = Vec::new();
    for entry in it: all
        invariant
            it.seq() == all@,
            every == entries_of(all@),
            entries_of(offered@) == first_offers(every, it.index() as int),
            forall|id: Seq<char>| #[trigger] holds(seen@, id) == carries(every.take(it.index() as int), id),
    {
        let i = Ghost(it.index() as int);
        assert(every[i@] == entry@);
        assert(every.take(i@ + 1) =~= every.take(i@).push(every[i@]));
        if has_id(&seen, &entry.id) {
            let ghost j = choose|j: int| 0 <= j < i@ && #[trigger] every.take(i@)[j].id == entry.id@;
            assert(every[j] == every.take(i@)[j]);
            assert(!first_offer(every, i@));
            assert forall|id: Seq<char>| #[trigger] holds(seen@, id) == carries(every.take(i@ + 1), id) by {
                assert(carries(every.take(i@), id) ==> carries(every.take(i@ + 1), id)) by {
                    if carries(every.take(i@), id) {
                        let k = choose|k: int| 0 <= k < i@ && #[trigger] every.take(i@)[k].id == id;
                        assert(every.take(i@ + 1)[k] == every.take(i@)[k]);
                    }
                }
                if carries(every.take(i@ + 1), id) {
                    let k = choose|k: int| 0 <= k < i@ + 1 && #[trigger] every.take(i@ + 1)[k].id == id;
                    if k < i@ {
                        assert(every.take(i@ + 1)[k] == every.take(i@)[k]);
                    } else {
                        assert(every.take(i@)[j].id == id);
                    }
                }
            }
        } else {
            assert(first_offer(every, i@)) by {
                assert forall|j: int| 0 <= j < i@ implies every[j].id != every[i@].id by {
                    assert(every.take(i@)[j] == every[j]);
                }
            }
            let ghost before = entries_of(offered@);
            let ghost seen_before = seen@;
            seen.push(entry.id.clone());
            offered.push(entry);
            assert(entries_of(offered@) =~= before.push(every[i@]));
            assert forall|id: Seq<char>| #[trigger] holds(seen@, id) == carries(every.take(i@ + 1), id) by {
                assert(holds(seen_before, id) == carries(every.take(i@), id));
                if holds(seen@, id) {
                    let k = choose|k: int| 0 <= k < seen@.len() && seen@[k]@ == id;
                    if k < seen_before.len() {
                        assert(seen_before[k] == seen@[k]);
                        let j = choose|j: int| 0 <= j < i@ && #[trigger] every.take(i@)[j].id == id;
                        assert(every.take(i@ + 1)[j] == every.take(i@)[j]);
                    } else {
                        assert(every.take(i@ + 1)[i@].id == id);
                    }
                }
                if carries(every.take(i@ + 1), id) {
                    let j = choose|j: int| 0 <= j < i@ + 1 && #[trigger] every.take(i@ + 1)[j].id == id;
                    if j < i@ {
                        assert(every.take(i@)[j] == every.take(i@ + 1)[j]);
                        let k = choose|k: int| 0 <= k < seen_before.len() && #[trigger] seen_before[k]@ == id;
                        assert(seen@[k] == seen_before[k]);
                    } else {
                        assert(seen@[seen_before.len() as int]@ == id);
                    }
                }
            }
        }
    }
    offered
}

proof fn lemma_first_offers_distinct(all: Seq<PluginEntryView>, n: int)
    requires
        0 <= n <= all.len(),
    ensures
        forall|a: int, b: int|
            0 <= a < b < first_offers(all, n).len() ==> first_offers(all, n)[a].id
                != first_offers(all, n)[b].id,
    decreases n,
{
    if n > 0 {
        lemma_first_offers_distinct(all, n - 1);
        lemma_first_offers_ids(all, n - 1);
        let prev = first_offers(all, n - 1);
        if first_offer(all, n - 1) {
            let id = all[n - 1].id;
            assert(!carries(all.take(n - 1), id)) by {
                if carries(all.take(n - 1), id) {
                    let j = choose|j: int| 0 <= j < n - 1 && #[trigger] all.take(n - 1)[j].id == id;
                    assert(all.take(n - 1)[j] == all[j]);
                }
            }
            assert(!carries(prev, id));
            assert forall|a: int, b: int|
                0 <= a < b < first_offers(all, n).len() implies first_offers(all, n)[a].id
                    != first_offers(all, n)[b].id by {
                if b == prev.len() {
                    assert(first_offers(all, n)[a] == prev[a]);
                }
            }
        }
    }
}

/// Whether `e` is the first offer of its adapter among the first `n` entries.
pub open spec fn first_offer_within(all: Seq<PluginEntryView>, n: int, e: PluginEntryView) -> bool {
    exists|i: int| 0 <= i < n && first_offer(all, i) && all[i] == e
}

proof fn lemma_first_offers_are_first(all: Seq<PluginEntryView>, n: int)
    requires
        0 <= n <= all.len(),
    ensures
        forall|k: int|
            0 <= k < first_offers(all, n).len() ==> first_offer_within(
                all,
                n,
                #[trigger] first_offers(all, n)[k],
            ),
    decreases n,
{
    if n > 0 {
        lemma_first_offers_are_first(all, n - 1);
        let prev = first_offers(all, n - 1);
        assert forall|k: int| 0 <= k < first_offers(all, n).len() implies first_offer_within(
            all,
            n,
            #[trigger] first_offers(all, n)[k],
        ) by {
            if k < prev.len() {
                assert(first_offers(all, n)[k] == prev[k]);
                assert(first_offer_within(all, n - 1, prev[k]));
                let i = choose|i: int| 0 <= i < n - 1 && first_offer(all, i) && all[i] == prev[k];
                assert(0 <= i < n && first_offer(all, i) && all[i] == prev[k]);
            } else {
                assert(first_offers(all, n)[k] == all[n - 1]);
                assert(0 <= n - 1 < n && first_offer(all, n - 1) && all[n - 1] == all[n - 1]);
            }
        }
    }
}

/// Merging offers each adapter once: no two entries of the listing it
/// makes name the same adapter.
pub proof fn merge_offers_each_adapter_once(listings: Seq<Seq<PluginEntryView>>)
    ensures
        forall|a: int, b: int|
            0 <= a < b < merged(listings).len() ==> merged(listings)[a].id != merged(listings)[b].id,
{
    lemma_first_offers_distinct(concat_all(listings), concat_all(listings).len() as int);
}

/// Nothing offered is lost: an adapter any listing offers is on offer after
/// merging, and one no listing offers is not.
pub proof fn merge_loses_no_adapter(listings: Seq<Seq<PluginEntryView>>, id: Seq<char>)
    ensures
        carries(merged(listings), id) == carries(concat_all(listings), id),
{
    let all = concat_all(listings);
    lemma_first_offers_ids(all, all.len() as int);
    assert(all.take(all.len() as int) =~= all);
}

/// What is on offer is the first offer of it: the listings are read in the
/// order they are given, so an adapter offered by two registries is offered
/// as the one named earlier has it.
pub proof fn merge_keeps_the_first_offer(listings: Seq<Seq<PluginEntryView>>)
    ensures
        forall|k: int|
            0 <= k < merged(listings).len() ==> first_offer_within(
                concat_all(listings),
                concat_all(listings).len() as int,
                #[trigger] merged(listings)[k],
            ),
{
    lemma_first_offers_are_first(concat_all(listings), concat_all(listings).len() as int);
}

/// Where the first offers among the first `n` entries stand in the list,
/// in order.
pub open spec fn offer_positions(all: Seq<PluginEntryView>, n: int) -> Seq<int>
    decreases n,
{
    if n <= 0 {
        seq![]
    } else if first_offer(all, n - 1) {
        offer_positions(all, n - 1).push(n - 1)
    } else {
        offer_positions(all, n - 1)
    }
}

proof fn lemma_offer_positions(all: Seq<PluginEntryView>, n: int)
    requires
        0 <= n <= all.len(),
    ensures
        offer_positions(all, n).len() == first_offers(all, n).len(),
        forall|k: int|
            0 <= k < offer_positions(all, n).len() ==> 0 <= #[trigger] offer_positions(all, n)[k] < n
                && first_offer(all, offer_positions(all, n)[k]) && first_offers(all, n)[k]
                == all[offer_positions(all, n)[k]],
        forall|a: int, b: int|
            0 <= a < b < offer_positions(all, n).len() ==> #[trigger] offer_positions(all, n)[a]
                < #[trigger] offer_positions(all, n)[b],
        forall|i: int|
            0 <= i < n && #[trigger] first_offer(all, i) ==> exists|k: int|
                0 <= k < offer_positions(all, n).len() && offer_positions(all, n)[k] == i,
    decreases n,
{
    if n > 0 {
        lemma_offer_positions(all, n - 1);
        let prev = offer_positions(all, n - 1);
        let cur = offer_positions(all, n);
        if first_offer(all, n - 1) {
            assert forall|k: int| 0 <= k < prev.len() implies cur[k] == prev[k] && first_offers(
                all,
                n,
            )[k] == first_offers(all, n - 1)[k] by {}
            assert forall|i: int| 0 <= i < n && #[trigger] first_offer(all, i) implies exists|k: int|
                0 <= k < cur.len() && cur[k] == i by {
                if i == n - 1 {
                    assert(cur[prev.len() as int] == i);
                } else {
                    let k = choose|k: int| 0 <= k < prev.len() && prev[k] == i;
                    assert(cur[k] == i);
                }
            }
        }
    }
}

/// Merging keeps exactly the first offer of each adapter, in the order the
/// listings give them: the merged list is the entries of the listings, one
/// after another, with every entry whose adapter was offered earlier left
/// out. `at` says where each kept entry stands among them.
pub proof fn merge_is_the_first_offers_in_order(listings: Seq<Seq<PluginEntryView>>) -> (at: Seq<
    int,
>)
    ensures
        at.len() == merged(listings).len(),
        forall|k: int|
            0 <= k < at.len() ==> 0 <= #[trigger] at[k] < concat_all(listings).len() && first_offer(
                concat_all(listings),
                at[k],
            ) && merged(listings)[k] == concat_all(listings)[at[k]],
        forall|a: int, b: int| 0 <= a < b < at.len() ==> #[trigger] at[a] < #[trigger] at[b],
        forall|i: int|
            0 <= i < concat_all(listings).len() && #[trigger] first_offer(concat_all(listings), i)
                ==> exists|k: int| 0 <= k < at.len() && at[k] == i,
{
    let all = concat_all(listings);
    lemma_offer_positions(all, all.len() as int);
    offer_positions(all, all.len() as int)
}

proof fn lemma_distinct_offers_all_kept(all: Seq<PluginEntryView>, n: int)
    requires
        0 <= n <= all.len(),
        forall|a: int, b: int| 0 <= a < b < all.len() ==> all[a].id != all[b].id,
    ensures
        first_offers(all, n) == all.take(n),
    decreases n,
{
    if n > 0 {
        lemma_distinct_offers_all_kept(all, n - 1);
        assert(first_offer(all, n - 1));
        assert(all.take(n) =~= all.take(n - 1).push(all[n - 1]));
    }
}

/// Merging a merged listing again changes nothing, and merging no listings
/// gives nothing.
pub proof fn merging_again_changes_nothing(listings: Seq<Seq<PluginEntryView>>)
    ensures
        merged(seq![merged(listings)]) == merged(listings),
        merged(Seq::<Seq<PluginEntryView>>::empty()) == Seq::<PluginEntryView>::empty(),
{
    let m = merged(listings);
    merge_offers_each_adapter_once(listings);
    assert(seq![m].drop_last() =~= Seq::<Seq<PluginEntryView>>::empty());
    assert(seq![m].last() == m);
    assert(concat_all(Seq::<Seq<PluginEntryView>>::empty()) == Seq::<PluginEntryView>::empty());
    assert(concat_all(seq![m]) == concat_all(seq![m].drop_last()) + seq![m].last());
    assert(concat_all(seq![m]) =~= m);
    lemma_distinct_offers_all_kept(m, m.len() as int);
    assert(m.take(m.len() as int) =~= m);
}

/// The file a path or URL points at, without its extension, or the text
/// itself when it names no file.
pub open spec fn file_or_self(url: Seq<char>) -> Seq<char> {
    match file_stem(url) {
        Some(stem) => stem,
        None => url,
    }
}

/// What a registry read from `url` is called when nothing names it: the
/// host it is read from, or, for a path or a `file://` URL, which name no
/// host, the file it points at.
pub open spec fn host_name(url: Seq<char>) -> Seq<char> {
    match find(url, "://"@) {
        None => file_or_self(url),
        Some(k) => if url.take(k) == "file"@ {
            file_or_self(url)
        } else {
            let rest = url.skip(k + "://"@.len());
            let host = rest.take(index_of(rest, '/') as int);
            if host.len() == 0 {
                file_or_self(url)
            } else {
                host
            }
        },
    }
}

fn file_or_self_of(url: &Vec<char>) -> (r: Vec<char>)
    ensures
        r@ == file_or_self(url@),
{
    match file_stem_of(url) {
        Some(stem) => stem,
        None => slice_of(url, 0, url.len()),
    }
}

/// `host_name`, carried out.
pub fn host_of(url: &str) -> (r: String)
    ensures
        r@ == host_name(url@),
{
    let u = chars_of(url);
    let sep = chars_of("://");
    let file = chars_of("file");
    let named = match find_chars(&u, &sep) {
        None => file_or_self_of(&u),
        Some(k) => {
            assert(k + sep@.len() <= u@.len());
            assert(u@.len() == u.len() && sep@.len() == sep.len());
            let scheme = slice_of(&u, 0, k);
            if same(&scheme, &file) {
                file_or_self_of(&u)
            } else {
                let rest = slice_of(&u, k + sep.len(), u.len());
                let end = find_char(&rest, '/', 0);
                assert(rest@.skip(0) =~= rest@);
                let host = slice_of(&rest, 0, end);
                assert(rest@ =~= u@.skip(k + sep@.len()));
                if host.len() == 0 {
                    file_or_self_of(&u)
                } else {
                    host
                }
            }
        },
    };
    string_of(&named)
}

/// Where a registry is read from.
pub open spec fn source_url(s: Source) -> Seq<char> {
    match s {
        Source::Url(url) => url@,
        Source::Named { url, .. } => url@,
    }
}

/// What a registry is called: its name when it has one, `pkgforge` for the
/// registry aeris ships knowing about, and otherwise the host it is read
/// from.
pub open spec fn source_name(s: Source) -> Seq<char> {
    match s {
        Source::Named { name, .. } => name@,
        Source::Url(url) => if url@ == DEFAULT_REGISTRY_URL@ {
            DEFAULT_REGISTRY_NAME@
        } else {
            host_name(url@)
        },
    }
}

impl Source {
    /// Where it is read from.
    pub fn url(&self) -> (r: &str)
        ensures
            r@ == source_url(*self),
    {
        match self {
            Source::Url(url) => url.as_str(),
            Source::Named { url, .. } => url.as_str(),
        }
    }

    /// What to call it. Unnamed, the host it is read from stands in, which is
    /// shorter than the address and enough to tell two apart.
    pub fn name(&self) -> (r: String)
        ensures
            r@ == source_name(*self),
    {
        match self {
            Source::Named { name, .. } => name.clone(),
            Source::Url(url) => {
                let u = chars_of(url.as_str());
                let default = chars_of(DEFAULT_REGISTRY_URL);
                if same(&u, &default) {
                    DEFAULT_REGISTRY_NAME.to_owned()
                } else {
                    host_of(url.as_str())
                }
            },
        }
    }
}

/// Whether a source is fetched over HTTP rather than read from disk.
pub open spec fn remote(source: Seq<char>) -> bool {
    has_prefix(source, "http://"@) || has_prefix(source, "https://"@)
}

/// Whether a source is fetched over HTTP rather than read from disk.
pub fn is_remote(source: &str) -> (r: bool)
    ensures
        r == remote(source@),
{
    let s = chars_of(source);
    starts_with(&s, &chars_of("http://")) || starts_with(&s, &chars_of("https://"))
}

/// `~` at the start of a path, on its own or before a `/`, stands for the
/// home directory when there is one; anything else is left as it is.
pub open spec fn tilde_expanded(input: Seq<char>, home: Option<Seq<char>>) -> Seq<char> {
    if input.len() > 0 && input[0] == '~' && (input.len() == 1 || input[1] == '/') && home is Some {
        home->0 + input.drop_first()
    } else {
        input
    }
}

/// `shellexpand::tilde_with_context`, with the home directory handed in.
/// Trusted to expand a leading `~` as `tilde_expanded` says, which is what
/// its source does on Unix: strip one `~`, and when nothing or a `/`
/// follows and a home directory is given, put that directory in its place.
#[verifier::external_body]
fn expand_tilde(input: &str, home: Option<String>) -> (r: String)
    ensures
        r@ == tilde_expanded(input@, opt_of(home)),
{
    shellexpand::tilde_with_context(input, || home).into_owned()
}

/// A source as a path: without a `file://` prefix, and with `~` expanded.
pub open spec fn local_path_of(source: Seq<char>, home: Option<Seq<char>>) -> Seq<char> {
    let stripped = if has_prefix(source, "file://"@) {
        source.skip("file://"@.len() as int)
    } else {
        source
    };
    tilde_expanded(stripped, home)
}

/// Turn a source into a path, dropping a `file://` prefix and expanding `~`
/// against the home directory given.
pub fn local_path(source: &str, home: Option<String>) -> (r: String)
    ensures
        r@ == local_path_of(source@, opt_of(home)),
{
    let s = chars_of(source);
    let prefix = chars_of("file://");
    let stripped = if starts_with(&s, &prefix) {
        string_of(&slice_of(&s, prefix.len(), s.len()))
    } else {
        source.to_owned()
    };
    expand_tilde(stripped.as_str(), home)
}

/// The registry to read: the one named, or the built-in default when no
/// source is given.
pub fn source_or_default<'a>(url: &'a str) -> (r: &'a str)
    ensures
        url@.len() == 0 ==> r@ == DEFAULT_REGISTRY_URL@,
        url@.len() > 0 ==> r@ == url@,
{
    if url.is_empty() {
        DEFAULT_REGISTRY_URL
    } else {
        url
    }
}

/// Where manifests are read from, in the order they are trusted: the
/// per-user data directory, then the shared ones, then `./adapters`.
pub open spec fn adapter_dirs(data_home: Seq<char>, data_dirs: Seq<Seq<char>>) -> Seq<Seq<char>> {
    seq![join(data_home, "aeris/adapters"@)] + data_dirs.map_values(
        |d: Seq<char>| join(d, "aeris/adapters"@),
    ) + seq!["./adapters"@]
}

/// Where manifests are read from, in the order they are trusted.
pub fn search_paths(data_home: &str, data_dirs: &Vec<String>) -> (r: Vec<String>)
    ensures
        strings_of(r@) == adapter_dirs(data_home@, strings_of(data_dirs@)),
{
    let mut out: Vec<String> = Vec::new();
    out.push(join_str(data_home, "aeris/adapters"));
    let mut i: usize = 0;
    while i < data_dirs.len()
        invariant
            i <= data_dirs@.len(),
            strings_of(out@) == seq![join(data_home@, "aeris/adapters"@)] + strings_of(
                data_dirs@,
            ).take(i as int).map_values(|d: Seq<char>| join(d, "aeris/adapters"@)),
        decreases data_dirs@.len() - i,
    {
        let ghost before = strings_of(out@);
        out.push(join_str(data_dirs[i].as_str(), "aeris/adapters"));
        assert(strings_of(out@) =~= before.push(join(data_dirs@[i as int]@, "aeris/adapters"@)));
        assert(strings_of(data_dirs@).take(i + 1) =~= strings_of(data_dirs@).take(i as int).push(
            data_dirs@[i as int]@,
        ));
        assert(strings_of(out@) =~= seq![join(data_home@, "aeris/adapters"@)] + strings_of(
            data_dirs@,
        ).take(i + 1).map_values(|d: Seq<char>| join(d, "aeris/adapters"@)));
        i = i + 1;
    }
    assert(strings_of(data_dirs@).take(data_dirs@.len() as int) =~= strings_of(data_dirs@));
    let ghost before = strings_of(out@);
    out.push("./adapters".to_owned());
    assert(strings_of(out@) =~= before.push("./adapters"@));
    out
}

/// Where a manifest fetched from the registry is kept: the first place
/// manifests are read from, or `./adapters` when there is none.
pub open spec fn adapter_file(search: Seq<Seq<char>>, id: Seq<char>) -> Seq<char> {
    let dir = if search.len() > 0 {
        search[0]
    } else {
        "./adapters"@
    };
    join(dir, id + ".toml"@)
}

/// Where a manifest fetched from the registry is kept, which is the same
/// place a hand-written one goes.
pub fn adapter_path(search: &Vec<String>, id: &str) -> (r: String)
    ensures
        r@ == adapter_file(strings_of(search@), id@),
{
    let file = cat(id, ".toml");
    if search.len() > 0 {
        join_str(search[0].as_str(), file.as_str())
    } else {
        join_str("./adapters", file.as_str())
    }
}

/// Where the copy of a registry read from `source` is kept, under the cache
/// directory: named by the first eight bytes of the digest of where it came
/// from, so two registries never share a copy by name alone.
pub open spec fn cache_file(source: Seq<char>, cache_home: Seq<char>) -> Seq<char> {
    join(
        join(cache_home, "aeris"@),
        "registry-"@ + hex(sha256(encode_utf8(source)).take(8)) + ".toml"@,
    )
}

/// Where the last registry that was read from `source` is kept.
///
/// This is a copy of something fetchable, so it belongs with the caches:
/// losing it costs one request, not any state.
pub fn cache_path(source: &str, cache_home: &str) -> (r: String)
    ensures
        r@ == cache_file(source@, cache_home@),
{
    let named = digest_hex(source.as_bytes(), 8);
    let file = concat(&concat(&chars_of("registry-"), &named), &chars_of(".toml"));
    let dir = join_str(cache_home, "aeris");
    join_str(dir.as_str(), string_of(&file).as_str())
}

/// What is said when downloaded bytes are not the ones the registry listed.
pub open spec fn mismatch_message(expected: Seq<char>, actual: Seq<char>) -> Seq<char> {
    "Checksum mismatch: expected "@ + expected + ", got "@ + actual
}

/// Whether the bytes are the ones whose SHA-256 digest, in lowercase hex,
/// the registry listed.
pub fn verify_checksum(data: &[u8], expected_hex: &str) -> (r: Result<(), String>)
    ensures
        r is Ok <==> hex(sha256(data@)) == expected_hex@,
        r matches Err(m) ==> m@ == mismatch_message(expected_hex@, hex(sha256(data@))),
{
    let actual = digest_hex(data, 32);
    assert(sha256(data@).take(32) =~= sha256(data@));
    let expected = chars_of(expected_hex);
    if same(&actual, &expected) {
        Ok(())
    } else {
        let m = concat(
            &concat(&concat(&chars_of("Checksum mismatch: expected "), &expected), &chars_of(", got ")),
            &actual,
        );
        Err(string_of(&m))
    }
}

/// What is said of a registry written in a newer format than this build
/// reads.
pub open spec fn too_new_message(version: u32) -> Seq<char> {
    "the registry is written in version "@ + decimal(version as nat) + ", and this aeris reads up to 1"@
}

/// A registry read, kept only if it is written in a format this build
/// reads.
pub fn checked_registry(registry: Registry) -> (r: Result<Registry, String>)
    ensures
        registry.registry.version <= REGISTRY_VERSION ==> r == Ok::<Registry, String>(registry),
        registry.registry.version > REGISTRY_VERSION ==> (r matches Err(m) && m@ == too_new_message(
            registry.registry.version,
        )),
{
    if registry.registry.version > REGISTRY_VERSION {
        let v = decimal_of(registry.registry.version as u64);
        let m = concat(
            &concat(&chars_of("the registry is written in version "), &v),
            &chars_of(", and this aeris reads up to 1"),
        );
        return Err(string_of(&m));
    }
    Ok(registry)
}

/// Whether a copy is old enough to be worth replacing. `age` is how long
/// ago it was read, in nanoseconds, or nothing when there is no copy or its
/// age cannot be told; both of those count as stale.
pub open spec fn stale(age: Option<u128>, within: u128) -> bool {
    match age {
        Some(a) => a > within,
        None => true,
    }
}

/// Whether the copy on disk is old enough to be worth replacing.
///
/// No copy at all counts as stale, and so does one whose age cannot be told.
pub fn cache_is_stale(age: Option<u128>, within: u128) -> (r: bool)
    ensures
        r == stale(age, within),
{
    match age {
        Some(a) => a > within,
        None => true,
    }
}

/// Whether any of the registries is old enough to be worth reading again,
/// given the age of each one's copy.
pub fn any_stale(ages: &Vec<Option<u128>>, within: u128) -> (r: bool)
    ensures
        r == exists|i: int| 0 <= i < ages@.len() && stale(#[trigger] ages@[i], within),
{
    let mut i: usize = 0;
    while i < ages.len()
        invariant
            i <= ages@.len(),
            forall|j: int| 0 <= j < i ==> !stale(#[trigger] ages@[j], within),
        decreases ages@.len() - i,
    {
        if cache_is_stale(ages[i], within) {
            return true;
        }
        i = i + 1;
    }
    false
}

/// Every entry, said to come from the registry called `source`.
pub open spec fn all_tagged(es: Seq<PluginEntryView>, source: Seq<char>) -> Seq<PluginEntryView> {
    es.map_values(|e: PluginEntryView| tagged(e, source))
}

/// The listings of the registries that could be read, each entry said to
/// come from the registry it was read from, in the order the registries are
/// named.
pub open spec fn read_listings(sources: Seq<Source>, fetched: Seq<Result<Registry, String>>) -> Seq<
    Seq<PluginEntryView>,
>
    decreases fetched.len(),
{
    if fetched.len() == 0 || sources.len() == 0 {
        seq![]
    } else {
        let prev = read_listings(sources.drop_last(), fetched.drop_last());
        match fetched.last() {
            Ok(r) => prev.push(all_tagged(entries_of(r.plugins@), source_name(sources.last()))),
            Err(_) => prev,
        }
    }
}

/// One line for each registry that could not be read: its name, and why.
pub open spec fn read_errors(sources: Seq<Source>, fetched: Seq<Result<Registry, String>>) -> Seq<
    Seq<char>,
>
    decreases fetched.len(),
{
    if fetched.len() == 0 || sources.len() == 0 {
        seq![]
    } else {
        let prev = read_errors(sources.drop_last(), fetched.drop_last());
        match fetched.last() {
            Ok(_) => prev,
            Err(e) => prev.push(source_name(sources.last()) + ": "@ + e@),
        }
    }
}

/// Read every registry named, as one listing.
///
/// `fetched` holds what reading each source gave, in the order the sources
/// are named. A registry named earlier is trusted first: where two offer
/// the same adapter, the earlier one is what is on offer and the later is
/// left out. A registry that cannot be read does not take the others down
/// with it; it is named in the errors instead.
pub fn fetch_all(sources: &Vec<Source>, fetched: Vec<Result<Registry, String>>) -> (r: (
    Vec<PluginEntry>,
    Vec<String>,
))
    requires
        sources@.len() == fetched@.len(),
    ensures
        entries_of(r.0@) == merged(read_listings(sources@, fetched@)),
        strings_of(r.1@) == read_errors(sources@, fetched@),
{
    let mut listings: Vec<Vec<PluginEntry>> = Vec::new();
    let mut errors: Vec<String> = Vec::new();
    let ghost all = fetched@;
    let mut i: usize = 0;
    for result in it: fetched
        invariant
            it.seq() == all,
            all.len() == sources@.len(),
            i == it.index(),
            listings_of(listings@) == read_listings(sources@.take(i as int), all.take(i as int)),
            strings_of(errors@) == read_errors(sources@.take(i as int), all.take(i as int)),
    {
        assert(sources@.take(i + 1).drop_last() =~= sources@.take(i as int));
        assert(all.take(i + 1).drop_last() =~= all.take(i as int));
        assert(all.take(i + 1).last() == result);
        assert(sources@.take(i + 1).last() == sources@[i as int]);
        assert(i < sources.len());
        let name = sources[i].name();
        match result {
            Ok(registry) => {
                let ghost plugins = entries_of(registry.plugins@);
                let tagged_entries = from(name.as_str(), registry.plugins);
                assert(entries_of(tagged_entries@) =~= all_tagged(plugins, name@));
                let ghost before = listings_of(listings@);
                listings.push(tagged_entries);
                assert(listings_of(listings@) =~= before.push(all_tagged(plugins, name@)));
            },
            Err(e) => {
                let ghost before = strings_of(errors@);
                let line = cat(cat(name.as_str(), ": ").as_str(), e.as_str());
                errors.push(line);
                assert(strings_of(errors@) =~= before.push(name@ + ": "@ + e@));
            },
        }
        i = i + 1;
    }
    assert(sources@.take(i as int) =~= sources@);
    assert(all.take(i as int) =~= all);
    (merge(listings), errors)
}

/// The listings of the registries that have a copy on disk, each entry said
/// to come from its registry.
pub open spec fn kept_listings(sources: Seq<Source>, cached: Seq<Option<(Registry, i128)>>) -> Seq<
    Seq<PluginEntryView>,
>
    decreases cached.len(),
{
    if cached.len() == 0 || sources.len() == 0 {
        seq![]
    } else {
        let prev = kept_listings(sources.drop_last(), cached.drop_last());
        match cached.last() {
            Some((r, _)) => prev.push(all_tagged(entries_of(r.plugins@), source_name(sources.last()))),
            None => prev,
        }
    }
}

/// When the oldest of the copies was read, if there is any copy.
pub open spec fn oldest_read(cached: Seq<Option<(Registry, i128)>>) -> Option<i128>
    decreases cached.len(),
{
    if cached.len() == 0 {
        None
    } else {
        let prev = oldest_read(cached.drop_last());
        match cached.last() {
            Some((_, t)) => match prev {
                Some(p) => Some(if p < t {
                    p
                } else {
                    t
                }),
                None => Some(t),
            },
            None => prev,
        }
    }
}

/// The registries already read, as one listing, and when the oldest of
/// them was read.
///
/// `cached` holds each source's copy on disk and when it was read, in
/// nanoseconds from the Unix epoch, or nothing where there is no copy, in
/// the order the sources are named.
pub fn cached_all(sources: &Vec<Source>, cached: Vec<Option<(Registry, i128)>>) -> (r: (
    Vec<PluginEntry>,
    Option<i128>,
))
    requires
        sources@.len() == cached@.len(),
    ensures
        entries_of(r.0@) == merged(kept_listings(sources@, cached@)),
        r.1 == oldest_read(cached@),
{
    let mut listings: Vec<Vec<PluginEntry>> = Vec::new();
    let mut oldest: Option<i128> = None;
    let ghost all = cached@;
    let mut i: usize = 0;
    for kept in it: cached
        invariant
            it.seq() == all,
            all.len() == sources@.len(),
            i == it.index(),
            listings_of(listings@) == kept_listings(sources@.take(i as int), all.take(i as int)),
            oldest == oldest_read(all.take(i as int)),
    {
        assert(sources@.take(i + 1).drop_last() =~= sources@.take(i as int));
        assert(all.take(i + 1).drop_last() =~= all.take(i as int));
        assert(all.take(i + 1).last() == kept);
        assert(sources@.take(i + 1).last() == sources@[i as int]);
        assert(i < sources.len());
        match kept {
            Some((registry, read_at)) => {
                let name = sources[i].name();
                let ghost plugins = entries_of(registry.plugins@);
                let tagged_entries = from(name.as_str(), registry.plugins);
                assert(entries_of(tagged_entries@) =~= all_tagged(plugins, name@));
                let ghost before = listings_of(listings@);
                listings.push(tagged_entries);
                assert(listings_of(listings@) =~= before.push(all_tagged(plugins, name@)));
                oldest = match oldest {
                    Some(seen) => Some(if seen < read_at {
                        seen
                    } else {
                        read_at
                    }),
                    None => Some(read_at),
                };
            },
            None => {},
        }
        i = i + 1;
    }
    assert(sources@.take(i as int) =~= sources@);
    assert(all.take(i as int) =~= all);
    (merge(listings), oldest)
}

/// The newer version an installed adapter could be updated to: the version
/// the registry offers, when one is installed, the offer names a version,
/// and that version is a different one and at least as late.
pub open spec fn update_offered(offered: Seq<char>, installed: Option<Seq<char>>) -> Option<Seq<char>> {
    match installed {
        None => None,
        Some(v) => if offered.len() > 0 && offered != v && is_at_least(offered, v) {
            Some(offered)
        } else {
            None
        },
    }
}

/// The newer version an installed adapter could be updated to, if any.
///
/// `installed` is the version the manifest on disk gives, or nothing when
/// the adapter is not installed or its manifest gives none.
pub fn update_for(entry: &PluginEntry, installed: Option<String>) -> (r: Option<String>)
    ensures
        opt_of(r) == update_offered(entry.version@, opt_of(installed)),
{
    match installed {
        None => None,
        Some(v) => {
            if !entry.version.as_str().is_empty() && !(entry.version == v) && at_least(
                entry.version.as_str(),
                v.as_str(),
            ) {
                Some(entry.version.clone())
            } else {
                None
            }
        },
    }
}

/// What is said of an entry that names no manifest to fetch.
pub open spec fn no_manifest_message(id: Seq<char>) -> Seq<char> {
    id + " offers no manifest"@
}

/// Where an adapter's manifest is fetched from, or why there is nowhere.
pub fn manifest_source(entry: &PluginEntry) -> (r: Result<String, String>)
    ensures
        entry.manifest_url@.len() > 0 ==> (r matches Ok(u) && u@ == entry.manifest_url@),
        entry.manifest_url@.len() == 0 ==> (r matches Err(m) && m@ == no_manifest_message(entry.id@)),
{
    if entry.manifest_url.as_str().is_empty() {
        return Err(cat(entry.id.as_str(), " offers no manifest"));
    }
    Ok(entry.manifest_url.clone())
}

/// `std::str::from_utf8`: the text some bytes encode, when they are valid
/// UTF-8, which is when std gives back `Ok`.
#[verifier::external_body]
fn utf8_text(bytes: &[u8]) -> (r: Option<String>)
    ensures
        r is Some <==> valid_utf8(bytes@),
        r matches Some(t) ==> t@ == decode_utf8(bytes@),
{
    match std::str::from_utf8(bytes) {
        Ok(text) => Some(text.to_owned()),
        Err(_) => None,
    }
}

/// What is said of a manifest whose bytes are not text.
pub open spec fn not_text_message(id: Seq<char>) -> Seq<char> {
    id + " sent a manifest that is not text"@
}

/// Whether the checksum an entry lists is one to hold a download to: it
/// lists none when the field is empty.
pub open spec fn checksum_holds(entry: PluginEntryView, bytes: Seq<u8>) -> bool {
    entry.manifest_checksum_sha256.len() == 0 || hex(sha256(bytes)) == entry.manifest_checksum_sha256
}

/// A manifest as it was fetched, held to the checksum the registry lists
/// for it, if it lists one, and read as text.
pub fn accept_manifest(entry: &PluginEntry, manifest: &[u8]) -> (r: Result<String, String>)
    ensures
        r is Ok <==> checksum_holds(entry@, manifest@) && valid_utf8(manifest@),
        r matches Ok(t) ==> t@ == decode_utf8(manifest@),
        !checksum_holds(entry@, manifest@) ==> (r matches Err(m) && m@ == mismatch_message(
            entry.manifest_checksum_sha256@,
            hex(sha256(manifest@)),
        )),
        checksum_holds(entry@, manifest@) && !valid_utf8(manifest@) ==> (r matches Err(m) && m@
            == not_text_message(entry.id@)),
{
    if !entry.manifest_checksum_sha256.as_str().is_empty() {
        verify_checksum(manifest, entry.manifest_checksum_sha256.as_str())?;
    }
    match utf8_text(manifest) {
        Some(text) => Ok(text),
        None => Err(cat(entry.id.as_str(), " sent a manifest that is not text")),
    }
}

/// What is said when a manifest calls its adapter by another id than the
/// registry does.
pub open spec fn other_id_message(listed: Seq<char>, parsed: Seq<char>) -> Seq<char> {
    "the registry calls this "@ + listed + " and the manifest calls it "@ + parsed
}

/// Whether a manifest is the adapter the registry offered under that id.
pub fn same_adapter(entry: &PluginEntry, manifest_id: &str) -> (r: Result<(), String>)
    ensures
        r is Ok <==> manifest_id@ == entry.id@,
        r matches Err(m) ==> m@ == other_id_message(entry.id@, manifest_id@),
{
    let listed = chars_of(entry.id.as_str());
    let parsed = chars_of(manifest_id);
    if same(&listed, &parsed) {
        return Ok(());
    }
    let m = concat(
        &concat(&concat(&chars_of("the registry calls this "), &listed), &chars_of(" and the manifest calls it ")),
        &parsed,
    );
    Err(string_of(&m))
}

/// An update is never the version already installed, and never an older
/// one: what is offered differs from what is installed and is at least as
/// late.
pub proof fn an_update_is_a_later_version(offered: Seq<char>, installed: Seq<char>)
    ensures
        update_offered(offered, Some(installed)) matches Some(v) ==> v == offered && v != installed
            && is_at_least(v, installed),
        update_offered(installed, Some(installed)) is None,
        update_offered(offered, None) is None,
{
}

/// A registry that cannot be read does not take the others down with it:
/// every registry named is either offered as a listing or named in the
/// errors, and no registry is both.
pub proof fn every_registry_is_offered_or_named(
    sources: Seq<Source>,
    fetched: Seq<Result<Registry, String>>,
)
    requires
        sources.len() == fetched.len(),
    ensures
        read_listings(sources, fetched).len() + read_errors(sources, fetched).len() == fetched.len(),
        read_listings(sources, fetched).len() == fetched.filter(|r: Result<Registry, String>| r is Ok).len(),
    decreases fetched.len(),
{
    reveal_with_fuel(Seq::filter, 1);
    if fetched.len() > 0 {
        every_registry_is_offered_or_named(sources.drop_last(), fetched.drop_last());
        assert(fetched.drop_last() =~= fetched.take(fetched.len() - 1));
    }
}

/// An update is offered exactly when one is owed: the offered version names
/// something, is not the installed one, and is at least as late; and what
/// is offered is then the registry's version itself.
pub proof fn an_update_is_offered_exactly_when_later(offered: Seq<char>, installed: Seq<char>)
    ensures
        update_offered(offered, Some(installed)) is Some <==> (offered.len() > 0 && offered
            != installed && is_at_least(offered, installed)),
        update_offered(offered, Some(installed)) matches Some(v) ==> v == offered,
{
}

/// The host of an address ends at the first `/` after `://`: for any
/// scheme but `file`, an address written as the scheme, `://`, a non-empty
/// host without `/`, and then nothing or a path starting with `/`, is
/// named after that host alone.
pub proof fn the_host_ends_at_the_first_slash(
    url: Seq<char>,
    scheme: Seq<char>,
    host: Seq<char>,
    path: Seq<char>,
)
    requires
        url == scheme + "://"@ + host + path,
        find(url, "://"@) == Some(scheme.len() as int),
        scheme != "file"@,
        host.len() > 0,
        forall|j: int| 0 <= j < host.len() ==> host[j] != '/',
        path.len() == 0 || path[0] == '/',
    ensures
        host_name(url) == host,
{
    reveal_strlit("://");
    let k = scheme.len() as int;
    assert(url.take(k) =~= scheme);
    let rest = url.skip(k + "://"@.len());
    assert(rest =~= host + path);
    lemma_index_of_is(rest, '/', host.len() as int);
    assert(rest.take(host.len() as int) =~= host);
}

} // verus!
