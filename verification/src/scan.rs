//! What a walk over the board root and the trash found.
//!
//! The caller lists the directories and reads what it can of each board
//! document. Which of them count as boards, and under what name and time, is
//! decided here.

use crate::board_id::{is_valid_board_id, valid_board_id};
use vstd::prelude::*;

verus! {

/// One directory below the board root, or below the trash.
#[derive(Debug, Clone, PartialEq, Eq)]
pub struct DirEntry {
    /// The directory's own name.
    pub dir_name: String,
    /// Whether it holds a board document.
    pub has_document: bool,
    /// The name inside the document, where the document could be read.
    pub board_name: Option<String>,
    /// When the document was last modified, in milliseconds, where known.
    pub modified: Option<i64>,
}

/// The view of a [`DirEntry`].
pub struct DirView {
    pub dir_name: Seq<char>,
    pub has_document: bool,
    pub board_name: Option<Seq<char>>,
    pub modified: Option<i64>,
}

impl View for DirEntry {
    type V = DirView;

    open spec fn view(&self) -> DirView {
        DirView {
            dir_name: self.dir_name@,
            has_document: self.has_document,
            board_name: match self.board_name {
                Some(name) => Some(name@),
                None => None,
            },
            modified: self.modified,
        }
    }
}

/// The views of a sequence of directories.
pub open spec fn dir_views(dirs: Seq<DirEntry>) -> Seq<DirView> {
    dirs.map_values(|d: DirEntry| d@)
}

/// The directories of the board root and of the trash.
#[derive(Debug, Clone, PartialEq, Eq)]
pub struct DiskScan {
    pub active: Vec<DirEntry>,
    pub trashed: Vec<DirEntry>,
}

/// The view of a [`DiskScan`].
pub struct ScanView {
    pub active: Seq<DirView>,
    pub trashed: Seq<DirView>,
}

impl View for DiskScan {
    type V = ScanView;

    open spec fn view(&self) -> ScanView {
        ScanView { active: dir_views(self.active@), trashed: dir_views(self.trashed@) }
    }
}

/// A board as seen on disk: its identifier, its name and its time.
pub struct Sighting {
    pub id: Seq<char>,
    pub name: Seq<char>,
    pub stamp: i64,
}

/// A directory counts as a board where its name is a valid identifier and it
/// holds a board document.
pub open spec fn is_board_dir(dir: DirView) -> bool {
    valid_board_id(dir.dir_name) && dir.has_document
}

/// How a board directory is seen: under the document's name, or under the
/// identifier where the document gave none; at the document's time, or at
/// `now` where that is unknown.
pub open spec fn sighting_of(dir: DirView, now: i64) -> Sighting {
    Sighting {
        id: dir.dir_name,
        name: match dir.board_name {
            Some(name) => name,
            None => dir.dir_name,
        },
        stamp: match dir.modified {
            Some(t) => t,
            None => now,
        },
    }
}

/// The boards among `dirs`, in order.
pub open spec fn sightings(dirs: Seq<DirView>, now: i64) -> Seq<Sighting> {
    dirs.filter(|d: DirView| is_board_dir(d)).map_values(|d: DirView| sighting_of(d, now))
}

/// The identifiers among the sightings.
pub open spec fn sighted_ids(seen: Seq<Sighting>) -> Set<Seq<char>> {
    Set::new(|id: Seq<char>| exists|i: int| 0 <= i < seen.len() && (#[trigger] seen[i]).id == id)
}

/// One more directory adds its sighting where it is a board, and nothing
/// where it is not.
pub proof fn lemma_sightings_push(dirs: Seq<DirView>, dir: DirView, now: i64)
    ensures
        sightings(dirs.push(dir), now) == if is_board_dir(dir) {
            sightings(dirs, now).push(sighting_of(dir, now))
        } else {
            sightings(dirs, now)
        },
{
    dirs.lemma_filter_push(dir, |d: DirView| is_board_dir(d));
    dirs.filter(|d: DirView| is_board_dir(d)).lemma_push_map_commute(
        |d: DirView| sighting_of(d, now),
        dir,
    );
}

/// Whether `dir` counts as a board.
pub fn dir_is_board(dir: &DirEntry) -> (counts: bool)
    ensures
        counts == is_board_dir(dir@),
{
    dir.has_document && is_valid_board_id(dir.dir_name.as_str())
}

/// The name under which a board directory is seen.
pub fn sighted_name(dir: &DirEntry) -> (name: String)
    ensures
        name@ == sighting_of(dir@, 0).name,
{
    match &dir.board_name {
        Some(name) => name.clone(),
        None => dir.dir_name.clone(),
    }
}

/// The time at which a board directory is seen.
pub fn sighted_stamp(dir: &DirEntry, now: i64) -> (stamp: i64)
    ensures
        stamp == sighting_of(dir@, now).stamp,
{
    match dir.modified {
        Some(t) => t,
        None => now,
    }
}

} // verus!
