//! The newest modification time at or under a declared path.

use crate::error::fault_at;
use crate::error::Error;
use crate::error::ErrorView;
use crate::error::IoFault;
use crate::error::IoFaultView;
use crate::error::ResultExt;
use crate::file::File;
use crate::file::FileView;
use crate::file::Timestamp;
use vstd::prelude::*;

verus! {

/// One thing met while walking a declared path and all that lies under it.
#[derive(Debug, PartialEq, Eq)]
pub enum Visit {
    /// The walk itself could not go on.
    Blocked(IoFault),
    /// An entry whose metadata could not be read.
    Unreadable { path: String, fault: IoFault },
    /// An entry with its metadata: whether it is a regular file, and what
    /// asking for the time of its last modification gave.
    Entry { path: String, is_file: bool, modified: Result<Timestamp, IoFault> },
}

/// A [`Visit`] with its strings as sequences of characters.
pub enum VisitView {
    Blocked(IoFaultView),
    Unreadable { path: Seq<char>, fault: IoFaultView },
    Entry { path: Seq<char>, is_file: bool, modified: Result<Timestamp, IoFaultView> },
}

impl View for Visit {
    type V = VisitView;

    open spec fn view(&self) -> VisitView {
        match self {
            Visit::Blocked(fault) => VisitView::Blocked(fault@),
            Visit::Unreadable { path, fault } => VisitView::Unreadable {
                path: path@,
                fault: fault@,
            },
            Visit::Entry { path, is_file, modified } => VisitView::Entry {
                path: path@,
                is_file: *is_file,
                modified: match modified {
                    Ok(time) => Ok(*time),
                    Err(fault) => Err(fault@),
                },
            },
        }
    }
}

impl VisitView {
    /// Whether this is a regular file whose time was read without fault.
    pub open spec fn is_regular_file(self) -> bool {
        self matches VisitView::Entry { is_file, modified, .. } && is_file && modified is Ok
    }

    /// Whether the walk goes on after this visit: it is an entry, and if
    /// it is a regular file its time was read. The time of anything else
    /// is not looked at.
    pub open spec fn is_read(self) -> bool {
        self matches VisitView::Entry { is_file, modified, .. } && (is_file ==> modified is Ok)
    }

    /// The time of a regular file.
    pub open spec fn stamp(self) -> Timestamp
        recommends
            self.is_regular_file(),
    {
        self->Entry_modified->Ok_0
    }
}

/// The views of a walk's visits, in the order of the walk.
pub open spec fn visit_views(visits: Seq<Visit>) -> Seq<VisitView> {
    visits.map_values(|v: Visit| v@)
}

/// What looking up one declared path gave, seen through views.
pub type Resolved = Result<FileView, ErrorView>;

/// The view of one lookup.
pub open spec fn resolution_view(r: Result<File, Error>) -> Resolved {
    match r {
        Ok(file) => Ok(file@),
        Err(e) => Err(e@),
    }
}

/// The views of the lookups made so far, in the order they were asked for.
pub open spec fn resolutions(rs: Seq<Result<File, Error>>) -> Seq<Resolved> {
    rs.map_values(|r: Result<File, Error>| resolution_view(r))
}

/// The stamp after one more regular file: one that is later than the
/// stamp held, at full resolution, takes its place.
pub open spec fn later_of(held: FileView, path: Seq<char>, modified: Timestamp) -> FileView {
    if modified.later_than(held.modified) {
        FileView { modified, path }
    } else {
        held
    }
}

/// Folds the visits from the `k`-th on into the stamp held so far. Only
/// regular files count; the time of anything else is not looked at. The
/// first fault ends the walk: one of the walk itself is reported at `root`,
/// one of an entry at that entry's path.
pub open spec fn newest_from(
    root: Seq<char>,
    visits: Seq<VisitView>,
    k: nat,
    held: FileView,
) -> Resolved
    decreases visits.len() - k,
{
    if k >= visits.len() {
        Ok(held)
    } else {
        match visits[k as int] {
            VisitView::Blocked(fault) => Err(fault_at(root, fault)),
            VisitView::Unreadable { path, fault } => Err(fault_at(path, fault)),
            VisitView::Entry { path, is_file, modified } => if !is_file {
                newest_from(root, visits, k + 1, held)
            } else {
                match modified {
                    Ok(time) => newest_from(root, visits, k + 1, later_of(held, path, time)),
                    Err(fault) => Err(fault_at(path, fault)),
                }
            },
        }
    }
}

/// The stamp of the declared path `root` before anything was visited.
pub open spec fn unvisited(root: Seq<char>) -> FileView {
    FileView { modified: Timestamp { secs: 0, nanos: 0 }, path: root }
}

/// The stamp of `root` for a walk that made `visits`.
pub open spec fn find_newest_spec(root: Seq<char>, visits: Seq<VisitView>) -> Resolved {
    newest_from(root, visits, 0, unvisited(root))
}

/// Finds the newest regular file among the visits of a walk of `path`.
///
/// Returns that file's path and modification time. A walk that met no
/// regular file gives `path` itself with the epoch as its time.
pub fn find_newest(path: &str, visits: &Vec<Visit>) -> (r: Result<File, Error>)
    ensures
        resolution_view(r) == find_newest_spec(path@, visit_views(visits@)),
{
    let ghost all = visit_views(visits@);
    let mut newest = File { modified: Timestamp::epoch(), path: path.to_owned() };
    let mut k: usize = 0;
    while k < visits.len()
        invariant
            all == visit_views(visits@),
            k <= visits.len(),
            find_newest_spec(path@, all) == newest_from(path@, all, k as nat, newest@),
        decreases visits.len() - k,
    {
        match &visits[k] {
            Visit::Blocked(fault) => {
                let walked: Result<File, IoFault> = Err(fault.clone());
                return walked.map_err_path_context(path.to_owned());
            },
            Visit::Unreadable { path: at, fault } => {
                let read: Result<File, IoFault> = Err(fault.clone());
                return read.map_err_path_context(at.clone());
            },
            Visit::Entry { path: at, is_file, modified } => {
                if *is_file {
                    match modified {
                        Ok(time) => {
                            if time.is_later_than(&newest.modified) {
                                newest = File { modified: *time, path: at.clone() };
                            }
                        },
                        Err(fault) => {
                            let timed: Result<File, IoFault> = Err(fault.clone());
                            return timed.map_err_path_context(at.clone());
                        },
                    }
                }
            },
        }
        k = k + 1;
    }
    Ok(newest)
}

/// Whether the walk met no fault: every visit is an entry, and the time
/// of every regular file was read.
pub open spec fn all_read(visits: Seq<VisitView>) -> bool {
    forall|k: int| 0 <= k < visits.len() ==> (#[trigger] visits[k]).is_read()
}

/// The fold never goes back in time: what it ends with is not earlier
/// than what it held, nor than any regular file from the `k`-th visit on.
/// What it ends with is what it held, or one of those regular files.
pub proof fn lemma_newest_from_is_latest(
    root: Seq<char>,
    visits: Seq<VisitView>,
    k: nat,
    held: FileView,
)
    requires
        k <= visits.len(),
        all_read(visits),
    ensures
        newest_from(root, visits, k, held) matches Ok(found) && !held.modified.later_than(
            found.modified,
        ) && (forall|m: int|
            k <= m < visits.len() && (#[trigger] visits[m]).is_regular_file()
                ==> !visits[m].stamp().later_than(found.modified)) && (found == held
            || exists|m: int|
            k <= m < visits.len() && (#[trigger] visits[m]).is_regular_file() && found == (
            FileView { modified: visits[m].stamp(), path: visits[m]->Entry_path })),
    decreases visits.len() - k,
{
    if k < visits.len() {
        let visit = visits[k as int];
        assert(visit.is_read());
        let next = if visit.is_regular_file() {
            later_of(held, visit->Entry_path, visit.stamp())
        } else {
            held
        };
        lemma_newest_from_is_latest(root, visits, k + 1, next);
        let found = newest_from(root, visits, k, held)->Ok_0;
        if found == next && next != held {
            assert(visits[k as int].is_regular_file());
        }
    }
}

/// The stamp of a declared path is that of the latest regular file at or
/// under it: no regular file that the walk met is later, and the stamp is
/// that of one of them, or the epoch at the declared path where the walk
/// met none later than the epoch.
pub proof fn lemma_find_newest_is_latest(root: Seq<char>, visits: Seq<VisitView>)
    requires
        all_read(visits),
    ensures
        find_newest_spec(root, visits) matches Ok(found) && (forall|m: int|
            0 <= m < visits.len() && (#[trigger] visits[m]).is_regular_file()
                ==> !visits[m].stamp().later_than(found.modified)) && (found == unvisited(
            root,
        ) || exists|m: int|
            0 <= m < visits.len() && (#[trigger] visits[m]).is_regular_file() && found == (
            FileView { modified: visits[m].stamp(), path: visits[m]->Entry_path })),
{
    lemma_newest_from_is_latest(root, visits, 0, unvisited(root));
}

/// A regular file anywhere under a declared path counts for the path: if
/// the file is newer than `other` at whole seconds, so is the path.
pub proof fn lemma_nested_file_makes_path_newer(
    root: Seq<char>,
    visits: Seq<VisitView>,
    at: int,
    other: FileView,
)
    requires
        all_read(visits),
        0 <= at < visits.len(),
        visits[at].is_regular_file(),
        visits[at].stamp().secs > other.modified.secs,
    ensures
        find_newest_spec(root, visits) matches Ok(found) && found.newer_than(other),
{
    lemma_find_newest_is_latest(root, visits);
}

/// A walk that meets no regular file gives the declared path with the
/// epoch as its time, which is "nothing found" and no error.
pub proof fn lemma_no_regular_file_is_unset(root: Seq<char>, visits: Seq<VisitView>)
    requires
        all_read(visits),
        forall|m: int| 0 <= m < visits.len() ==> !(#[trigger] visits[m]).is_regular_file(),
    ensures
        find_newest_spec(root, visits) == Ok::<FileView, ErrorView>(unvisited(root)),
        unvisited(root).same_second(FileView::unset()),
{
    lemma_find_newest_is_latest(root, visits);
}

/// The first fault ends the walk: every visit before it having been read,
/// a fault of the walk is reported at the declared path, and a fault of
/// an entry, or of the time of a regular file, at that entry's path.
pub proof fn lemma_first_fault_is_reported(
    root: Seq<char>,
    visits: Seq<VisitView>,
    k: nat,
    held: FileView,
    at: nat,
)
    requires
        k <= at < visits.len(),
        forall|m: int| k <= m < at ==> (#[trigger] visits[m]).is_read(),
        !visits[at as int].is_read(),
    ensures
        newest_from(root, visits, k, held) == (match visits[at as int] {
            VisitView::Blocked(fault) => Err::<FileView, ErrorView>(fault_at(root, fault)),
            VisitView::Unreadable { path, fault } => Err(fault_at(path, fault)),
            VisitView::Entry { path, modified, .. } => Err(fault_at(path, modified->Err_0)),
        }),
    decreases visits.len() - k,
{
    if k < at {
        let visit = visits[k as int];
        assert(visit.is_read());
        let next = if visit.is_regular_file() {
            later_of(held, visit->Entry_path, visit.stamp())
        } else {
            held
        };
        lemma_first_fault_is_reported(root, visits, k + 1, next, at);
    }
}

} // verus!
