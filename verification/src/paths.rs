//! Where the store keeps its files.
//!
//! Paths are texts with `/` between their parts. Every path below the board
//! root is made here, so that the layout stands in one place:
//! the index beside the boards, one directory for each board with its
//! document, its chat and its assets, and the trash with the same shape.

use vstd::prelude::*;
use vstd::string::StringExecFns;

verus! {

/// `base` and `part` with a `/` between them.
pub open spec fn joined(base: Seq<char>, part: Seq<char>) -> Seq<char> {
    base + "/"@ + part
}

/// `base` and `part` with a `/` between them.
pub fn join(base: &str, part: &str) -> (path: String)
    ensures
        path@ == joined(base@, part@),
{
    let mut path = base.to_string();
    path.append("/");
    path.append(part);
    path
}

/// The path of the temporary file that is written before `path` is
/// replaced by it.
pub open spec fn temp_path(path: Seq<char>) -> Seq<char> {
    path + ".tmp"@
}

/// A write that never leaves a half-written file behind: the bytes go to
/// `tmp` first, then `tmp` takes the place of `dest`.
#[derive(Debug, Clone, PartialEq, Eq)]
pub struct AtomicWrite {
    pub tmp: String,
    pub dest: String,
}

/// The atomic write of the file at `path`: its temporary file lies beside
/// it, under its name with `.tmp` appended.
pub fn atomic_write(path: &str) -> (plan: AtomicWrite)
    ensures
        plan.dest@ == path@,
        plan.tmp@ == temp_path(path@),
{
    let mut tmp = path.to_string();
    tmp.append(".tmp");
    AtomicWrite { tmp, dest: path.to_string() }
}

/// The board root and the index file in it.
#[derive(Debug, Clone, PartialEq, Eq)]
pub struct AppPaths {
    pub root_dir: String,
    pub index_file: String,
}

impl AppPaths {
    /// The paths of the store below the user's documents directory.
    pub fn new(documents_dir: &str) -> (paths: AppPaths)
        ensures
            paths.root_dir@ == joined(joined(documents_dir@, "LANA"@), "boards"@),
            paths.index_file@ == joined(paths.root_dir@, "boards.json"@),
    {
        let app_dir = join(documents_dir, "LANA");
        let root_dir = join(app_dir.as_str(), "boards");
        let index_file = join(root_dir.as_str(), "boards.json");
        AppPaths { root_dir, index_file }
    }
}

/// The paths of one board.
#[derive(Debug, Clone, PartialEq, Eq)]
pub struct BoardPaths {
    /// The directory of the board.
    pub dir: String,
    /// The board document.
    pub file: String,
    /// The temporary file written before the document is replaced.
    pub tmp: String,
    /// The directory of the board's assets.
    pub assets_dir: String,
}

/// The paths of the board `board_id` below `root_dir`.
pub fn board_paths(root_dir: &str, board_id: &str) -> (paths: BoardPaths)
    ensures
        paths.dir@ == joined(root_dir@, board_id@),
        paths.file@ == joined(paths.dir@, "board.json"@),
        paths.tmp@ == joined(paths.dir@, "board.json.tmp"@),
        paths.assets_dir@ == joined(paths.dir@, "assets"@),
{
    let dir = join(root_dir, board_id);
    let file = join(dir.as_str(), "board.json");
    let tmp = join(dir.as_str(), "board.json.tmp");
    let assets_dir = join(dir.as_str(), "assets");
    BoardPaths { dir, file, tmp, assets_dir }
}

/// The trash below `root_dir`.
pub fn trash_dir(root_dir: &str) -> (path: String)
    ensures
        path@ == joined(root_dir@, "trash"@),
{
    join(root_dir, "trash")
}

/// The directory of the board `board_id` while it lies in the trash.
pub fn trashed_board_dir(root_dir: &str, board_id: &str) -> (path: String)
    ensures
        path@ == joined(joined(root_dir@, "trash"@), board_id@),
{
    let trash = trash_dir(root_dir);
    join(trash.as_str(), board_id)
}

/// The chat transcript of the board in `board_dir`.
pub fn chat_file(board_dir: &str) -> (path: String)
    ensures
        path@ == joined(board_dir@, "chat.json"@),
{
    join(board_dir, "chat.json")
}

} // verus!
