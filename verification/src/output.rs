//! What a manager wrote while it worked, kept per operation so that every
//! line can be read back whole, also after the work has ended.

use vstd::prelude::*;
use crate::table::Table;
use crate::text::{cat, chars_of, same};

verus! {

/// The lines each operation has written, and which one's panel is open.
pub struct OutputLogs {
    /// The lines written, by the key of the operation that wrote them.
    pub lines: Table<Vec<String>>,
    /// The operation whose lines are on show, if any.
    pub open: Option<String>,
}

/// Whether `key` names the open panel.
pub open spec fn is_open(open: Option<String>, key: Seq<char>) -> bool {
    match open {
        Some(k) => k@ == key,
        None => false,
    }
}

/// The marker after a status that has lines to show: up while they are
/// shown, down while they can be opened.
pub open spec fn fold_marker(open: bool) -> Seq<char> {
    if open {
        " ▴"@
    } else {
        " ▾"@
    }
}

impl OutputLogs {
    /// Whether the operation under `key` has written anything worth offering.
    pub open spec fn wrote(&self, key: Seq<char>) -> bool {
        match self.lines.entry(key) {
            Some(v) => v@.len() > 0,
            None => false,
        }
    }

    /// Whether the output for an operation is worth offering at all.
    pub fn has_output(&self, key: &str) -> (r: bool)
        ensures
            r == self.wrote(key@),
    {
        match self.lines.get(key) {
            Some(v) => v.len() > 0,
            None => false,
        }
    }

    /// Whether the panel of the operation under `key` is the open one.
    pub fn output_is_open(&self, key: &str) -> (r: bool)
        ensures
            r == is_open(self.open, key@),
    {
        match &self.open {
            Some(k) => same(&chars_of(k.as_str()), &chars_of(key)),
            None => false,
        }
    }

    /// What a card shows while it works: the status alone, or, once the
    /// manager has said something, the status with a marker saying whether
    /// what it said is open.
    pub fn status_text(&self, key: &str, label: &str) -> (r: String)
        ensures
            r@ == if self.wrote(key@) {
                label@ + fold_marker(is_open(self.open, key@))
            } else {
                label@
            },
    {
        if !self.has_output(key) {
            return label.to_string();
        }
        if self.output_is_open(key) {
            cat(label, " ▴")
        } else {
            cat(label, " ▾")
        }
    }
}

/// The title of a package's output panel: whose package, then which.
pub fn output_title(adapter_id: &str, name: &str) -> (r: String)
    ensures
        r@ == adapter_id@ + " · "@ + name@,
{
    let front = cat(adapter_id, " · ");
    cat(front.as_str(), name)
}

} // verus!
