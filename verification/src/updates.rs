//! What the Updates page says and offers, decided from where the check stands.

use vstd::prelude::*;
use crate::privilege::PackageMode;
use crate::table::Table;
use crate::text::{cat, chars_of, opt_of, same};

verus! {

/// Something a manager cannot do that the Updates page would otherwise be
/// expected to offer, and the manager it is about.
#[derive(Debug, Clone)]
pub struct ManagerLimit {
    pub adapter_id: String,
    pub adapter_name: String,
    pub said: String,
    /// Whether updating everything it holds is still on the table.
    pub can_update_all: bool,
}

/// The page's title for the packages of a mode.
pub open spec fn title_of(mode: PackageMode) -> Seq<char> {
    match mode {
        PackageMode::User => "Updates (User)"@,
        PackageMode::System => "Updates (System)"@,
    }
}

/// The line under the title for the packages of a mode.
pub open spec fn subtitle_of(mode: PackageMode) -> Seq<char> {
    match mode {
        PackageMode::User => "Available updates for your user packages."@,
        PackageMode::System => "Available updates for system packages."@,
    }
}

/// The label of the button that syncs every manager's repositories.
pub open spec fn sync_label_of(syncing: bool) -> Seq<char> {
    if syncing {
        "Syncing..."@
    } else {
        "Sync"@
    }
}

/// The label of the sync button: it says so while a sync is running.
pub fn sync_label(syncing: bool) -> (r: String)
    ensures
        r@ == sync_label_of(syncing),
{
    if syncing {
        "Syncing...".to_string()
    } else {
        "Sync".to_string()
    }
}

/// The top of the page: its title, and which buttons it offers.
pub struct UpdatesHeader {
    pub title: String,
    pub subtitle: String,
    /// Whether Update All is offered.
    pub update_all: bool,
    /// Whether Check is offered.
    pub check: bool,
    pub sync_label: String,
}

/// Whether the page is busy: an update is running or a check is.
pub open spec fn busy(updating: Option<String>, loading: bool) -> bool {
    updating is Some || loading
}

/// The top of the page. Update All needs something to update, and neither
/// it nor Check is offered while the page is busy; Sync always is.
pub fn updates_header(
    mode: PackageMode,
    updating: &Option<String>,
    loading: bool,
    has_updates: bool,
    syncing: bool,
) -> (r: UpdatesHeader)
    ensures
        r.title@ == title_of(mode),
        r.subtitle@ == subtitle_of(mode),
        r.update_all == (has_updates && !busy(*updating, loading)),
        r.check == !busy(*updating, loading),
        r.sync_label@ == sync_label_of(syncing),
{
    let (title, subtitle) = match mode {
        PackageMode::User => (
            "Updates (User)".to_string(),
            "Available updates for your user packages.".to_string(),
        ),
        PackageMode::System => (
            "Updates (System)".to_string(),
            "Available updates for system packages.".to_string(),
        ),
    };
    let is_busy = updating.is_some() || loading;
    UpdatesHeader {
        title,
        subtitle,
        update_all: has_updates && !is_busy,
        check: !is_busy,
        sync_label: sync_label(syncing),
    }
}

/// Whether opening the page starts a check: only when none has been made
/// and none is running.
pub fn should_check(checked: bool, loading: bool) -> (r: bool)
    ensures
        r == (!checked && !loading),
{
    !checked && !loading
}

/// What the page says in place of the list, if anything.
pub open spec fn updates_message(
    loading: bool,
    error: Option<Seq<char>>,
    has_updates: bool,
    checked: bool,
) -> Option<Seq<char>> {
    if loading {
        Some("Checking for updates..."@)
    } else if error is Some {
        Some("Failed: "@ + error->0)
    } else if !has_updates {
        if checked {
            Some("All packages are up to date"@)
        } else {
            Some("Click Check to look for updates"@)
        }
    } else {
        None
    }
}

/// What the page says in place of the list of updates, or `None` where the
/// list itself is shown.
pub fn updates_content(loading: bool, error: &Option<String>, has_updates: bool, checked: bool) -> (r:
    Option<String>)
    ensures
        opt_of(r) == updates_message(loading, opt_of(*error), has_updates, checked),
{
    if loading {
        Some("Checking for updates...".to_string())
    } else if let Some(err) = error {
        Some(cat("Failed: ", err.as_str()))
    } else if !has_updates {
        if checked {
            Some("All packages are up to date".to_string())
        } else {
            Some("Click Check to look for updates".to_string())
        }
    } else {
        None
    }
}

/// What a note about a manager's limit offers beside what it says.
pub enum NoteAction {
    /// The manager is working on everything it holds; the status it gives.
    Working(String),
    /// A button that updates everything the manager holds.
    UpdateAll,
    /// Nothing.
    Nothing,
}

/// What a note about a manager's limit says, and what it offers: the
/// manager's own work while it runs, else updating everything it holds
/// where that is possible and the page is not busy.
pub fn limit_note(limit: &ManagerLimit, working: Option<String>, is_busy: bool) -> (r: (
    String,
    NoteAction,
))
    ensures
        r.0@ == limit.adapter_name@ + " "@ + limit.said@,
        r.1 == match working {
            Some(status) => NoteAction::Working(status),
            None => if limit.can_update_all && !is_busy {
                NoteAction::UpdateAll
            } else {
                NoteAction::Nothing
            },
        },
{
    let front = cat(limit.adapter_name.as_str(), " ");
    let said = cat(front.as_str(), limit.said.as_str());
    let action = match working {
        Some(status) => NoteAction::Working(status),
        None => if limit.can_update_all && !is_busy {
            NoteAction::UpdateAll
        } else {
            NoteAction::Nothing
        },
    };
    (said, action)
}

/// Whether a note shows what `limit` says and offers what it should: the
/// manager's own work while `working` says it runs, else updating
/// everything where that is possible and the page is not busy.
pub open spec fn note_for(
    note: (String, NoteAction),
    limit: ManagerLimit,
    working: Option<String>,
    is_busy: bool,
) -> bool {
    &&& note.0@ == limit.adapter_name@ + " "@ + limit.said@
    &&& match working {
        Some(status) => note.1 matches NoteAction::Working(label) && label@ == status@,
        None => if limit.can_update_all && !is_busy {
            note.1 is UpdateAll
        } else {
            note.1 is Nothing
        },
    }
}

/// The notes about what managers cannot do: none until a check has run,
/// then one for each limit, in order. `working` holds, by adapter id, the
/// status of work a manager is doing on everything it holds.
pub fn limit_notes(
    checked: bool,
    limits: &Vec<ManagerLimit>,
    working: &Table<String>,
    is_busy: bool,
) -> (r: Vec<(String, NoteAction)>)
    ensures
        !checked ==> r@.len() == 0,
        checked ==> r@.len() == limits@.len(),
        checked ==> forall|k: int|
            0 <= k < r@.len() ==> note_for(
                #[trigger] r@[k],
                limits@[k],
                working.entry(limits@[k].adapter_id@),
                is_busy,
            ),
{
    let mut notes: Vec<(String, NoteAction)> = Vec::new();
    if !checked {
        return notes;
    }
    let mut i: usize = 0;
    while i < limits.len()
        invariant
            i <= limits@.len(),
            notes@.len() == i,
            forall|k: int|
                0 <= k < i ==> note_for(
                    #[trigger] notes@[k],
                    limits@[k],
                    working.entry(limits@[k].adapter_id@),
                    is_busy,
                ),
        decreases limits@.len() - i,
    {
        let limit = &limits[i];
        let status = match working.get(limit.adapter_id.as_str()) {
            Some(l) => Some(l.as_str().to_string()),
            None => None,
        };
        let note = limit_note(limit, status, is_busy);
        notes.push(note);
        i = i + 1;
    }
    notes
}

/// What an update's card offers.
pub enum UpdateButton {
    /// Nothing: the manager cannot update one package on its own.
    Hidden,
    /// The update is running; the status it gives.
    Working(String),
    /// A button that updates the package.
    Update,
}

/// Whether a running update takes in the package `id`: one of that package,
/// one of everything, or a batch that has reported on it.
pub open spec fn covers(updating: Option<String>, id: Seq<char>, reported: bool) -> bool {
    match updating {
        Some(u) => u@ == id || u@ == "__all__"@ || (u@ == "__batch__"@ && reported),
        None => false,
    }
}

/// What an update's card offers: nothing where the manager cannot update
/// one package, the status while an update takes the package in (or
/// "Updating..." before one is reported), else the Update button.
pub fn update_button(
    can_update_one: bool,
    updating: &Option<String>,
    package_id: &str,
    status: Option<String>,
) -> (r: UpdateButton)
    ensures
        !can_update_one ==> r is Hidden,
        can_update_one && covers(*updating, package_id@, status is Some) ==> (r matches UpdateButton::Working(label)
            && label@ == match status {
            Some(s) => s@,
            None => "Updating..."@,
        }),
        can_update_one && !covers(*updating, package_id@, status is Some) ==> r is Update,
{
    if !can_update_one {
        return UpdateButton::Hidden;
    }
    let taken = match updating {
        Some(u) => {
            let running = chars_of(u.as_str());
            same(&running, &chars_of(package_id)) || same(&running, &chars_of("__all__")) || (same(
                &running,
                &chars_of("__batch__"),
            ) && status.is_some())
        },
        None => false,
    };
    if taken {
        match status {
            Some(s) => UpdateButton::Working(s),
            None => UpdateButton::Working("Updating...".to_string()),
        }
    } else {
        UpdateButton::Update
    }
}

} // verus!
