//! What the Browse page says and offers, decided from where a search stands
//! and what is known of each package it found.

use vstd::prelude::*;
use crate::desktop::{found, Desktop};
use crate::display::{day_of, on_day};
use crate::icons::{is_fetchable, IconIndex, IconMap};
use crate::registry::remote;
use crate::table::Table;
use crate::text::{cat, chars_of, decimal, decimal_of, opt_of, same, string_of, strings_of};

verus! {

/// Whether opening the page loads the list of what is held: Browse says
/// which results are held, so it needs that list even when Installed has
/// not been opened.
pub fn should_load_installed(loaded: bool, loading: bool) -> (r: bool)
    ensures
        r == (!loaded && !loading),
{
    !loaded && !loading
}

/// What a change in the search box asks for.
#[derive(Debug, Clone, Copy, PartialEq, Eq, Structural)]
pub enum QueryChange {
    /// The box still says what was searched for.
    Unchanged,
    /// Search for what it says now.
    Search,
    /// The box was emptied: drop the search.
    Abandon,
}

/// What the text in the search box asks for, against what was last
/// searched for.
pub fn on_query(typed: &str, searched: &str) -> (r: QueryChange)
    ensures
        r == if typed@ == searched@ {
            QueryChange::Unchanged
        } else if typed@.len() > 0 {
            QueryChange::Search
        } else {
            QueryChange::Abandon
        },
{
    let t = chars_of(typed);
    if same(&t, &chars_of(searched)) {
        QueryChange::Unchanged
    } else if t.len() > 0 {
        QueryChange::Search
    } else {
        QueryChange::Abandon
    }
}

/// The line beside the filter that says how a search went.
pub open spec fn count_text(loading: bool, count: nat) -> Seq<char> {
    if loading {
        "Searching..."@
    } else if count == 0 {
        Seq::empty()
    } else if count == 1 {
        "1 package found"@
    } else {
        decimal(count) + " packages found"@
    }
}

/// The line that says how a search went: nothing before it has found
/// anything, and the number found with the noun agreeing with it after.
pub fn result_count_text(loading: bool, count: usize) -> (r: String)
    ensures
        r@ == count_text(loading, count as nat),
{
    if loading {
        return "Searching...".to_string();
    }
    if count == 0 {
        return String::new();
    }
    let n = string_of(&decimal_of(count as u64));
    if count == 1 {
        proof {
            reveal_strlit("1 package found");
            reveal_strlit(" package found");
            assert(decimal(1) =~= seq!['1']);
        }
        cat(n.as_str(), " package found")
    } else {
        cat(n.as_str(), " packages found")
    }
}

/// Whether a manager is among those named.
pub open spec fn named(names: Seq<String>, id: Seq<char>) -> bool {
    exists|i: int| 0 <= i < names.len() && #[trigger] names[i]@ == id
}

fn is_named(names: &Vec<String>, id: &str) -> (r: bool)
    ensures
        r == named(names@, id@),
{
    let want = chars_of(id);
    let mut i: usize = 0;
    while i < names.len()
        invariant
            i <= names@.len(),
            want@ == id@,
            forall|j: int| 0 <= j < i ==> (#[trigger] names@[j])@ != id@,
        decreases names@.len() - i,
    {
        if same(&chars_of(names[i].as_str()), &want) {
            return true;
        }
        i = i + 1;
    }
    false
}

/// Whether the search is narrowed at all: some manager that could be asked
/// was picked.
pub open spec fn narrowed(searchable: Seq<String>, asked_for: Seq<String>) -> bool {
    exists|i: int| 0 <= i < searchable.len() && named(asked_for, #[trigger] searchable[i]@)
}

/// The row of managers a search can be narrowed to: nothing where there is
/// at most one, so no choice to make; else, for each, whether it is asked.
/// With nothing picked every manager answers, so every chip reads as on.
pub fn manager_filter(searchable: &Vec<String>, asked_for: &Vec<String>) -> (r: Option<Vec<bool>>)
    ensures
        searchable@.len() <= 1 ==> r is None,
        searchable@.len() > 1 ==> (r matches Some(chips) && chips@.len() == searchable@.len()
            && forall|i: int|
            0 <= i < chips@.len() ==> #[trigger] chips@[i] == (!narrowed(searchable@, asked_for@)
                || named(asked_for@, searchable@[i]@))),
{
    if searchable.len() <= 1 {
        return None;
    }
    let mut any = false;
    let mut i: usize = 0;
    while i < searchable.len()
        invariant
            i <= searchable@.len(),
            any == exists|j: int| 0 <= j < i && named(asked_for@, #[trigger] searchable@[j]@),
        decreases searchable@.len() - i,
    {
        if is_named(asked_for, searchable[i].as_str()) {
            any = true;
        }
        i = i + 1;
    }
    let mut chips: Vec<bool> = Vec::new();
    let mut k: usize = 0;
    while k < searchable.len()
        invariant
            k <= searchable@.len(),
            chips@.len() == k,
            any == narrowed(searchable@, asked_for@),
            forall|j: int|
                0 <= j < k ==> #[trigger] chips@[j] == (!any || named(asked_for@, searchable@[j]@)),
        decreases searchable@.len() - k,
    {
        let asking = !any || is_named(asked_for, searchable[k].as_str());
        chips.push(asking);
        k = k + 1;
    }
    Some(chips)
}

/// What the page shows in place of results: a heading, and under it what
/// went wrong where something did.
pub open spec fn browse_message(
    loading: bool,
    error: Option<Seq<char>>,
    has_results: bool,
    has_searched: bool,
) -> Option<(Seq<char>, Option<Seq<char>>)> {
    if loading {
        Some(("Searching..."@, None))
    } else if error is Some {
        Some(("Search failed"@, error))
    } else if !has_results {
        if has_searched {
            Some(("No packages found"@, None))
        } else {
            Some(("Type to search for packages"@, None))
        }
    } else {
        None
    }
}

/// What the page shows in place of results, or `None` where the results
/// themselves are listed.
pub fn results_content(loading: bool, error: &Option<String>, has_results: bool, has_searched: bool) -> (r:
    Option<(String, Option<String>)>)
    ensures
        match r {
            Some((head, under)) => browse_message(loading, opt_of(*error), has_results, has_searched)
                == Some((head@, opt_of(under))),
            None => browse_message(loading, opt_of(*error), has_results, has_searched) is None,
        },
{
    if loading {
        Some(("Searching...".to_string(), None))
    } else if let Some(err) = error {
        Some(("Search failed".to_string(), Some(err.clone())))
    } else if !has_results {
        if has_searched {
            Some(("No packages found".to_string(), None))
        } else {
            Some(("Type to search for packages".to_string(), None))
        }
    } else {
        None
    }
}

/// The banner shown when an install failed.
pub fn install_failed(err: &str) -> (r: String)
    ensures
        r@ == "Install failed: "@ + err@,
{
    cat("Install failed: ", err)
}

/// Whether a package a search answered with is one already held: by its own
/// word, or because the list of what is held names it by its id or by its
/// name. The list is asked too, since a manager may not report what it
/// already has, or may answer no for a package held under metadata that has
/// since changed.
pub fn is_held(installed: bool, held: &Vec<String>, by_id: &str, by_name: &str) -> (r: bool)
    ensures
        r == (installed || named(held@, by_id@) || named(held@, by_name@)),
{
    installed || is_named(held, by_id) || is_named(held, by_name)
}

/// Whether a package's card shows it being installed: an install is running,
/// and it is of this package or has reported on it.
pub fn is_installing(installing: &Option<String>, package_id: &str, reported: bool) -> (r: bool)
    ensures
        r == match *installing {
            Some(p) => p@ == package_id@ || reported,
            None => false,
        },
{
    match installing {
        Some(p) => same(&chars_of(p.as_str()), &chars_of(package_id)) || reported,
        None => false,
    }
}

/// What a package's card offers on its right.
pub enum InstallStatus {
    /// A note that a newer version is out.
    UpdateAvailable,
    /// A note that it is held.
    Installed,
    /// The install is running; the status it gives.
    Working(String),
    /// Nothing: the manager has no command to install with.
    Hidden,
    /// A button that installs it.
    Install,
}

/// What a package's card offers, first match winning: that an update is
/// out for a held package, that it is held, how its install goes (or
/// "Installing..." before that is reported), nothing where it cannot be
/// installed, else the Install button.
pub fn install_status(
    installed: bool,
    update_available: bool,
    held: bool,
    installing: bool,
    status: Option<String>,
    can_install: bool,
) -> (r: InstallStatus)
    ensures
        installed && update_available ==> r is UpdateAvailable,
        !(installed && update_available) && held ==> r is Installed,
        !(installed && update_available) && !held && installing ==> (r matches InstallStatus::Working(
            label,
        ) && label@ == match status {
            Some(s) => s@,
            None => "Installing..."@,
        }),
        !(installed && update_available) && !held && !installing && !can_install ==> r is Hidden,
        !(installed && update_available) && !held && !installing && can_install ==> r is Install,
{
    if installed && update_available {
        InstallStatus::UpdateAvailable
    } else if held {
        InstallStatus::Installed
    } else if installing {
        match status {
            Some(s) => InstallStatus::Working(s),
            None => InstallStatus::Working("Installing...".to_string()),
        }
    } else if !can_install {
        InstallStatus::Hidden
    } else {
        InstallStatus::Install
    }
}

/// The version the detail panel shows: the listing's, or, where the listing
/// gave none, what the lookup of that one package said. Nothing is shown
/// where both are empty.
pub fn shown_version(listed: &str, looked_up: &Option<String>) -> (r: String)
    ensures
        r@ == if listed@.len() > 0 {
            listed@
        } else {
            match *looked_up {
                Some(v) => v@,
                None => Seq::empty(),
            }
        },
{
    if !listed.is_empty() {
        return listed.to_string();
    }
    match looked_up {
        Some(v) => v.as_str().to_string(),
        None => String::new(),
    }
}

/// What a description says, or what stands in for one that is missing.
pub fn description_or(description: &Option<String>, missing: &str) -> (r: String)
    ensures
        r@ == match *description {
            Some(d) => d@,
            None => missing@,
        },
{
    match description {
        Some(d) => d.clone(),
        None => missing.to_string(),
    }
}

/// How the detail panel names whether the package is held.
pub fn held_label(installed: bool) -> (r: String)
    ensures
        r@ == if installed {
            "Installed"@
        } else {
            "Not installed"@
        },
{
    if installed {
        "Installed".to_string()
    } else {
        "Not installed".to_string()
    }
}

/// The two texts of the bar that acts on every picked package: how many are
/// picked, and the action with that number.
pub fn floating_action_bar(count: usize, action_label: &str) -> (r: (String, String))
    ensures
        r.0@ == decimal(count as nat) + " selected"@,
        r.1@ == action_label@ + " "@ + decimal(count as nat),
{
    let n = string_of(&decimal_of(count as u64));
    let picked = cat(n.as_str(), " selected");
    let front = cat(action_label, " ");
    (picked, cat(front.as_str(), n.as_str()))
}

/// What a listing says of a package beyond its name, as the detail panel
/// lists it.
pub struct PackageFacts {
    pub homepage: Option<String>,
    pub license: Option<String>,
    /// Its size, already written out for reading.
    pub size: Option<String>,
    pub category: Option<String>,
    pub tags: Vec<String>,
}

/// What looking up one package added to its listing.
pub struct DetailFacts {
    pub homepage: Option<String>,
    pub license: Option<String>,
    pub category: Option<String>,
    /// What kind of package the manager says it is.
    pub kind: Option<String>,
    pub source: Option<String>,
    /// When it was built, as a timestamp.
    pub build_date: Option<String>,
    /// Whatever else the manager reports, labelled as it asked.
    pub extra: Vec<(String, String)>,
}

/// A labelled row of the detail panel, as text.
pub open spec fn row_view(row: (String, String)) -> (Seq<char>, Seq<char>) {
    (row.0@, row.1@)
}

/// The rows of the detail panel, as text.
pub open spec fn rows_view(rows: Seq<(String, String)>) -> Seq<(Seq<char>, Seq<char>)> {
    rows.map_values(|row: (String, String)| row_view(row))
}

/// One row where there is something to put in it, else none.
pub open spec fn row_if(label: Seq<char>, value: Option<Seq<char>>) -> Seq<(Seq<char>, Seq<char>)> {
    match value {
        Some(v) => seq![(label, v)],
        None => Seq::empty(),
    }
}

/// Texts one after the other, with `sep` between each two.
pub open spec fn joined(items: Seq<Seq<char>>, sep: Seq<char>) -> Seq<char>
    decreases items.len(),
{
    if items.len() == 0 {
        Seq::empty()
    } else if items.len() == 1 {
        items[0]
    } else {
        joined(items.drop_last(), sep) + sep + items.last()
    }
}

/// Texts one after the other, with `sep` between each two.
pub fn join(items: &Vec<String>, sep: &str) -> (r: String)
    ensures
        r@ == joined(strings_of(items@), sep@),
{
    let mut out = String::new();
    let mut i: usize = 0;
    while i < items.len()
        invariant
            i <= items@.len(),
            out@ == joined(strings_of(items@.take(i as int)), sep@),
        decreases items@.len() - i,
    {
        proof {
            let next = strings_of(items@.take(i + 1));
            assert(next.drop_last() =~= strings_of(items@.take(i as int)));
            assert(next.last() == items@[i as int]@);
        }
        if i == 0 {
            out = items[0].as_str().to_string();
        } else {
            let front = cat(out.as_str(), sep);
            out = cat(front.as_str(), items[i].as_str());
        }
        i = i + 1;
    }
    assert(items@.take(i as int) =~= items@);
    out
}

/// The rows the listing itself fills: Homepage, License, Size and Category
/// where it gave them, and Tags, joined, where it gave any.
pub open spec fn listing_rows_of(p: PackageFacts) -> Seq<(Seq<char>, Seq<char>)> {
    row_if("Homepage"@, opt_of(p.homepage)) + row_if("License"@, opt_of(p.license)) + row_if(
        "Size"@,
        opt_of(p.size),
    ) + row_if("Category"@, opt_of(p.category)) + if p.tags@.len() > 0 {
        seq![("Tags"@, joined(strings_of(p.tags@), ", "@))]
    } else {
        Seq::empty()
    }
}

fn push_if(rows: &mut Vec<(String, String)>, label: &str, value: &Option<String>)
    ensures
        rows_view(final(rows)@) == rows_view(old(rows)@) + row_if(label@, opt_of(*value)),
{
    let ghost before = old(rows)@;
    if let Some(v) = value {
        rows.push((label.to_string(), v.as_str().to_string()));
        assert(rows_view(rows@) =~= rows_view(before) + row_if(label@, opt_of(*value)));
    } else {
        assert(rows_view(rows@) =~= rows_view(before) + row_if(label@, opt_of(*value)));
    }
}

/// The rows the detail panel shows of what the listing said.
pub fn listing_rows(p: &PackageFacts) -> (r: Vec<(String, String)>)
    ensures
        rows_view(r@) == listing_rows_of(*p),
{
    let mut rows: Vec<(String, String)> = Vec::new();
    assert(rows_view(rows@) =~= Seq::empty());
    push_if(&mut rows, "Homepage", &p.homepage);
    push_if(&mut rows, "License", &p.license);
    push_if(&mut rows, "Size", &p.size);
    push_if(&mut rows, "Category", &p.category);
    if p.tags.len() > 0 {
        rows.push(("Tags".to_string(), join(&p.tags, ", ")));
    }
    assert(rows_view(rows@) =~= listing_rows_of(*p));
    rows
}

/// The day a build date names, where there is one.
pub open spec fn day_if(o: Option<String>) -> Option<Seq<char>> {
    match o {
        Some(d) => Some(day_of(d@)),
        None => None,
    }
}

/// Where the listing left a row empty, what the lookup said for it.
pub open spec fn unless_listed(listed: Option<String>, found: Option<String>) -> Option<Seq<char>> {
    if listed is None {
        opt_of(found)
    } else {
        None
    }
}

/// The rows a lookup adds to what the listing already showed: Homepage,
/// License and Category only where the listing gave none, then Type,
/// Source and the day of the build, then whatever else the manager
/// reported, last, since nothing here can judge how it ranks.
pub open spec fn added_rows_of(p: PackageFacts, d: DetailFacts) -> Seq<(Seq<char>, Seq<char>)> {
    row_if("Homepage"@, unless_listed(p.homepage, d.homepage)) + row_if(
        "License"@,
        unless_listed(p.license, d.license),
    ) + row_if("Category"@, unless_listed(p.category, d.category)) + row_if(
        "Type"@,
        opt_of(d.kind),
    ) + row_if("Source"@, opt_of(d.source)) + row_if("Build date"@, day_if(d.build_date))
        + rows_view(d.extra@)
}

fn push_unless(
    rows: &mut Vec<(String, String)>,
    label: &str,
    listed: &Option<String>,
    found: &Option<String>,
)
    ensures
        rows_view(final(rows)@) == rows_view(old(rows)@) + row_if(label@, unless_listed(*listed, *found)),
{
    if listed.is_none() {
        push_if(rows, label, found);
    } else {
        assert(rows_view(rows@) =~= rows_view(old(rows)@) + row_if(
            label@,
            unless_listed(*listed, *found),
        ));
    }
}

/// The rows a lookup of one package adds to the detail panel.
pub fn added_rows(p: &PackageFacts, d: &DetailFacts) -> (r: Vec<(String, String)>)
    ensures
        rows_view(r@) == added_rows_of(*p, *d),
{
    let mut rows: Vec<(String, String)> = Vec::new();
    assert(rows_view(rows@) =~= Seq::empty());
    push_unless(&mut rows, "Homepage", &p.homepage, &d.homepage);
    push_unless(&mut rows, "License", &p.license, &d.license);
    push_unless(&mut rows, "Category", &p.category, &d.category);
    push_if(&mut rows, "Type", &d.kind);
    push_if(&mut rows, "Source", &d.source);
    let ghost before = rows@;
    if let Some(date) = &d.build_date {
        rows.push(("Build date".to_string(), on_day(date.as_str())));
    }
    assert(rows_view(rows@) =~= rows_view(before) + row_if("Build date"@, day_if(d.build_date)));
    let ghost start = rows@;
    let mut i: usize = 0;
    while i < d.extra.len()
        invariant
            i <= d.extra@.len(),
            rows_view(rows@) =~= rows_view(start) + rows_view(d.extra@.take(i as int)),
        decreases d.extra@.len() - i,
    {
        let ghost was = rows@;
        let (label, value) = &d.extra[i];
        rows.push((label.as_str().to_string(), value.as_str().to_string()));
        assert(rows_view(rows@) =~= rows_view(was).push(row_view(d.extra@[i as int])));
        assert(rows_view(d.extra@.take(i + 1)) =~= rows_view(d.extra@.take(i as int)).push(
            row_view(d.extra@[i as int]),
        ));
        i = i + 1;
    }
    assert(d.extra@.take(i as int) =~= d.extra@);
    rows
}

/// What the lower part of the detail panel holds: a note while the lookup
/// of the package runs or where it failed, else the rows it added.
pub fn lookup_section(
    p: &PackageFacts,
    loading: bool,
    error: &Option<String>,
    detail: &Option<DetailFacts>,
) -> (r: (Option<String>, Vec<(String, String)>))
    ensures
        loading ==> opt_of(r.0) == Some("Loading details..."@) && r.1@.len() == 0,
        !loading && error is Some ==> opt_of(r.0) == opt_of(*error) && r.1@.len() == 0,
        !loading && error is None ==> r.0 is None && match *detail {
            Some(d) => rows_view(r.1@) == added_rows_of(*p, d),
            None => r.1@.len() == 0,
        },
{
    if loading {
        (Some("Loading details...".to_string()), Vec::new())
    } else if let Some(err) = error {
        (Some(err.as_str().to_string()), Vec::new())
    } else {
        match detail {
            Some(d) => (None, added_rows(p, d)),
            None => (None, Vec::new()),
        }
    }
}

/// What the detail panel offers beside Close.
pub enum DetailButton {
    /// Nothing: the package is held, or its manager cannot install.
    Hidden,
    /// The install is running; the short status it gives.
    Working(String),
    /// A button that installs it.
    Install,
}

/// Whether an install of the package is still going: one that has
/// reported and not finished, or the one just started for it. A record
/// left by work that already finished does not count.
pub open spec fn still_installing(status: Option<(String, bool)>, installing: Option<String>, id: Seq<
    char,
>) -> bool {
    (status matches Some((_, finished)) && !finished) || (installing matches Some(p) && p@ == id)
}

/// What the detail panel offers: nothing for a held package or one its
/// manager cannot install, the short status while an install is still
/// going (or "Installing..." before one is reported), else Install.
/// `status` is the short label of the install's last report and whether
/// it finished.
pub fn detail_install(
    installed: bool,
    can_install: bool,
    status: &Option<(String, bool)>,
    installing: &Option<String>,
    package_id: &str,
) -> (r: DetailButton)
    ensures
        installed || !can_install ==> r is Hidden,
        !installed && can_install && still_installing(*status, *installing, package_id@) ==> (
        r matches DetailButton::Working(label) && label@ == match *status {
            Some((short, _)) => short@,
            None => "Installing..."@,
        }),
        !installed && can_install && !still_installing(*status, *installing, package_id@) ==> r is Install,
{
    if installed || !can_install {
        return DetailButton::Hidden;
    }
    let running = match status {
        Some((_, finished)) => !*finished,
        None => false,
    };
    let this_one = match installing {
        Some(p) => same(&chars_of(p.as_str()), &chars_of(package_id)),
        None => false,
    };
    if running || this_one {
        match status {
            Some((short, _)) => DetailButton::Working(short.as_str().to_string()),
            None => DetailButton::Working("Installing...".to_string()),
        }
    } else {
        DetailButton::Install
    }
}

/// How many icons may be fetched at once.
pub const ICONS_AT_ONCE: usize = 4;

/// The icons wanted for a list of packages, in the order the packages
/// come: the icon of each, unless it was fetched already or asked for.
pub open spec fn wanted_of(
    map: IconMap,
    packages: Seq<(String, String)>,
    fetched: Table<String>,
    asked: Seq<String>,
) -> Seq<Seq<char>>
    decreases packages.len(),
{
    if packages.len() == 0 {
        Seq::empty()
    } else {
        let icon = map.icon_for(packages.last().0@, packages.last().1@);
        wanted_of(map, packages.drop_last(), fetched, asked) + if fetched.entry(icon) is None
            && !named(asked, icon) {
            seq![icon]
        } else {
            Seq::empty()
        }
    }
}

/// The icons to ask for, given the (manager, package) pairs on show: the
/// icon each is drawn with, unless it was fetched already or asked for.
/// They come in the order of the list, so what is at its top arrives first.
pub fn want_icons_for(
    map: &IconMap,
    packages: &Vec<(String, String)>,
    fetched: &Table<String>,
    asked: &Vec<String>,
) -> (r: Vec<String>)
    ensures
        strings_of(r@) == wanted_of(*map, packages@, *fetched, asked@),
{
    let mut wanted: Vec<String> = Vec::new();
    let mut i: usize = 0;
    while i < packages.len()
        invariant
            i <= packages@.len(),
            strings_of(wanted@) == wanted_of(*map, packages@.take(i as int), *fetched, asked@),
        decreases packages@.len() - i,
    {
        assert(packages@.take(i + 1).drop_last() =~= packages@.take(i as int));
        let ghost was = wanted@;
        let (adapter, name) = &packages[i];
        let icon = map.icon_of(adapter.as_str(), name.as_str());
        if fetched.get(icon.as_str()).is_none() && !is_named(asked, icon.as_str()) {
            wanted.push(icon);
            assert(strings_of(wanted@) =~= strings_of(was).push(wanted@.last()@));
        }
        i = i + 1;
    }
    assert(packages@.take(i as int) =~= packages@);
    wanted
}

/// Whether an icon not kept here is worth queueing: the index publishes it,
/// or it is itself an address. Anything else (a command line tool, say) is
/// drawn as a package without a request going out.
pub fn worth_fetching(index: &IconIndex, icon: &str) -> (r: bool)
    ensures
        r == (index.url_for(icon@) is Some || remote(icon@)),
{
    index.url_of(icon).is_some() || is_fetchable(icon)
}

/// How many waiting icons to start now: as many as are waiting, up to what
/// may be in flight at once.
pub fn icons_to_start(in_flight: usize, waiting: usize) -> (r: usize)
    ensures
        in_flight >= ICONS_AT_ONCE ==> r == 0,
        in_flight < ICONS_AT_ONCE ==> r == if waiting < ICONS_AT_ONCE - in_flight {
            waiting as int
        } else {
            ICONS_AT_ONCE - in_flight
        },
{
    if in_flight >= ICONS_AT_ONCE {
        0
    } else if waiting < ICONS_AT_ONCE - in_flight {
        waiting
    } else {
        ICONS_AT_ONCE - in_flight
    }
}

/// The icon a package is drawn with: the one an installed application
/// named after it carries, else the published one fetched for it, else none
/// (a package is drawn in its place).
pub open spec fn icon_path_of(
    desktop: Desktop,
    fetched: Table<String>,
    map: IconMap,
    adapter: Seq<char>,
    name: Seq<char>,
) -> Option<Seq<char>> {
    match found(desktop.records(), name) {
        Some(e) if e.icon is Some => e.icon,
        _ => opt_of(fetched.entry(map.icon_for(adapter, name))),
    }
}

/// The icon a package is drawn with, if any.
pub fn package_icon(
    desktop: &Desktop,
    fetched: &Table<String>,
    map: &IconMap,
    adapter_id: &str,
    name: &str,
) -> (r: Option<String>)
    ensures
        opt_of(r) == icon_path_of(*desktop, *fetched, *map, adapter_id@, name@),
{
    if let Some(entry) = desktop.find(name) {
        if let Some(icon) = &entry.icon {
            return Some(icon.as_str().to_string());
        }
    }
    let icon = map.icon_of(adapter_id, name);
    match fetched.get(icon.as_str()) {
        Some(path) => Some(path.as_str().to_string()),
        None => None,
    }
}

/// With no manager picked the search is not narrowed, so every manager on
/// offer is asked and every chip reads as on.
pub proof fn with_nothing_picked_every_manager_is_asked(searchable: Seq<String>)
    ensures
        !narrowed(searchable, Seq::<String>::empty()),
{
}

/// An icon already fetched, or already asked for, is never asked for again:
/// each is fetched once and kept.
pub proof fn nothing_fetched_or_asked_is_wanted_again(
    map: IconMap,
    packages: Seq<(String, String)>,
    fetched: Table<String>,
    asked: Seq<String>,
)
    ensures
        forall|k: int|
            0 <= k < wanted_of(map, packages, fetched, asked).len() ==> fetched.entry(
                #[trigger] wanted_of(map, packages, fetched, asked)[k],
            ) is None && !named(asked, wanted_of(map, packages, fetched, asked)[k]),
    decreases packages.len(),
{
    if packages.len() > 0 {
        nothing_fetched_or_asked_is_wanted_again(map, packages.drop_last(), fetched, asked);
    }
}

} // verus!
