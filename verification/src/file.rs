//! Modification stamps of declared paths, compared at whole seconds.

use core::cmp::Ordering;
use vstd::prelude::*;
use vstd::std_specs::cmp::PartialEqSpecImpl;
use vstd::std_specs::cmp::PartialOrdSpecImpl;

verus! {

/// A point in time, counted from the epoch.
#[derive(Clone, Copy, Debug, PartialEq, Eq, Structural)]
pub struct Timestamp {
    /// Whole seconds since the epoch.
    pub secs: u64,
    /// The part of a second that follows, in nanoseconds.
    pub nanos: u32,
}

impl Timestamp {
    /// Whether `self` lies after `other`, at full resolution.
    pub open spec fn later_than(self, other: Timestamp) -> bool {
        self.secs > other.secs || (self.secs == other.secs && self.nanos > other.nanos)
    }

    /// The epoch itself: the stamp of a path for which nothing was found.
    pub fn epoch() -> (t: Timestamp)
        ensures
            t == (Timestamp { secs: 0, nanos: 0 }),
    {
        Timestamp { secs: 0, nanos: 0 }
    }

    /// Whether `self` lies after `other`, at full resolution.
    pub fn is_later_than(&self, other: &Timestamp) -> (later: bool)
        ensures
            later == self.later_than(*other),
    {
        self.secs > other.secs || (self.secs == other.secs && self.nanos > other.nanos)
    }
}

/// The whole seconds of a stamp: what two files are compared by.
pub fn round_to_s(ts: Timestamp) -> (secs: u64)
    ensures
        secs == ts.secs,
{
    ts.secs
}

/// A declared path with the latest modification time found at or under it.
#[derive(Debug)]
pub struct File {
    pub modified: Timestamp,
    pub path: String,
}

/// A [`File`] with its path as a sequence of characters.
pub struct FileView {
    pub modified: Timestamp,
    pub path: Seq<char>,
}

impl FileView {
    /// The stamp that stands for "nothing found": the epoch and no path.
    pub open spec fn unset() -> FileView {
        FileView { modified: Timestamp { secs: 0, nanos: 0 }, path: Seq::<char>::empty() }
    }

    /// Whether `self` was modified in a later second than `other`.
    pub open spec fn newer_than(self, other: FileView) -> bool {
        self.modified.secs > other.modified.secs
    }

    /// Whether both were modified within the same second.
    pub open spec fn same_second(self, other: FileView) -> bool {
        self.modified.secs == other.modified.secs
    }
}

impl View for File {
    type V = FileView;

    open spec fn view(&self) -> FileView {
        FileView { modified: self.modified, path: self.path@ }
    }
}

impl Clone for File {
    fn clone(&self) -> (copy: File)
        ensures
            copy@ == self@,
    {
        File { modified: self.modified, path: self.path.clone() }
    }
}

impl Default for File {
    fn default() -> (file: File)
        ensures
            file@ == FileView::unset(),
    {
        File { modified: Timestamp::epoch(), path: String::new() }
    }
}

impl PartialEq for File {
    fn eq(&self, other: &File) -> (same: bool) {
        round_to_s(self.modified) == round_to_s(other.modified)
    }
}

impl PartialEqSpecImpl for File {
    open spec fn obeys_eq_spec() -> bool {
        true
    }

    open spec fn eq_spec(&self, other: &File) -> bool {
        self@.same_second(other@)
    }
}

impl PartialOrd for File {
    fn partial_cmp(&self, other: &File) -> (order: Option<Ordering>) {
        let a: u64 = round_to_s(self.modified);
        let b: u64 = round_to_s(other.modified);
        if a < b {
            Some(Ordering::Less)
        } else if a == b {
            Some(Ordering::Equal)
        } else {
            Some(Ordering::Greater)
        }
    }
}

impl PartialOrdSpecImpl for File {
    open spec fn obeys_partial_cmp_spec() -> bool {
        true
    }

    open spec fn partial_cmp_spec(&self, other: &File) -> Option<Ordering> {
        if other@.newer_than(self@) {
            Some(Ordering::Less)
        } else if self@.same_second(other@) {
            Some(Ordering::Equal)
        } else {
            Some(Ordering::Greater)
        }
    }
}

/// Comparing at whole seconds is total: of two stamps, exactly one of
/// "older", "same second" and "newer" holds, whatever the paths are.
pub proof fn lemma_order_is_total(a: FileView, b: FileView)
    ensures
        a.newer_than(b) || a.same_second(b) || b.newer_than(a),
        !(a.newer_than(b) && a.same_second(b)),
        !(a.newer_than(b) && b.newer_than(a)),
        !(b.newer_than(a) && a.same_second(b)),
{
}

} // verus!
