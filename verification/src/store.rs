//! The commands of the board store: create, save, load, delete, restore and
//! emptying the trash.
//!
//! Each function decides what a command does to the index and which document
//! is to be written; moving directories and writing files is left to the
//! caller, who reports what it found on disk as plain values.

use crate::board_id::{is_valid_board_id, valid_board_id};
use crate::error::StoreError;
use crate::index::{
    active_entries, board_name_or_default, ensure_board_index_contains, find_board,
    marked_deleted, name_or_untitled, position, remove_trashed, untitled, upserted,
};
use crate::paths::{board_paths, joined};
use crate::model::{
    empty_board, empty_board_view, Board, BoardIndex, BoardMeta, BoardView, MetaView,
};
use crate::new_id::{
    base_id, candidate_id, generate_board_id, is_first_free, is_taken, name_views,
};
use crate::text::{clean_text, trimmed};
use vstd::prelude::*;

verus! {

/// The name a new board gets: the given one without surrounding whitespace,
/// or "Untitled" where nothing is left of it.
pub open spec fn board_name_for(name: Seq<char>) -> Seq<char> {
    if trimmed(name).len() == 0 {
        untitled()
    } else {
        trimmed(name)
    }
}

/// The index entry of a board created at `now`.
pub open spec fn created_entry(id: Seq<char>, name: Seq<char>, now: i64) -> MetaView {
    MetaView { id, name: board_name_for(name), updated_at: now, deleted_at: None }
}

/// What a delete does to the entries: the first entry with the identifier is
/// marked deleted at `now`. It is refused for an invalid identifier, and for
/// one that names no active board.
pub open spec fn delete_outcome(boards: Seq<MetaView>, id: Seq<char>, now: i64) -> Result<
    Seq<MetaView>,
    StoreError,
> {
    if !valid_board_id(id) {
        Err(StoreError::InvalidIdentifier)
    } else {
        match position(boards, id) {
            Some(i) if boards[i].deleted_at is None => Ok(marked_deleted(boards, i, now)),
            _ => Err(StoreError::NotFound),
        }
    }
}

/// Whether a restore may go ahead, given what lies on disk.
pub open spec fn restore_check(id: Seq<char>, in_trash: bool, in_root: bool) -> Result<
    (),
    StoreError,
> {
    if !valid_board_id(id) {
        Err(StoreError::InvalidIdentifier)
    } else if !in_trash {
        Err(StoreError::NotFound)
    } else if in_root {
        Err(StoreError::AlreadyExists)
    } else {
        Ok(())
    }
}

/// The name under which a restored board is indexed: the name in its
/// document, or its identifier where the document gave none.
pub open spec fn restored_name(id: Seq<char>, document_name: Option<Seq<char>>) -> Seq<char> {
    match document_name {
        Some(name) => name,
        None => id,
    }
}

/// What a save does to the entries: the board is upserted under the
/// document's name. It is refused for an invalid identifier, for a document
/// that carries another identifier, and for a board that lies in the trash.
pub open spec fn save_outcome(boards: Seq<MetaView>, id: Seq<char>, board: BoardView, now: i64) -> Result<
    Seq<MetaView>,
    StoreError,
> {
    if !valid_board_id(id) {
        Err(StoreError::InvalidIdentifier)
    } else if board.id != id {
        Err(StoreError::IdMismatch)
    } else {
        match position(boards, id) {
            Some(i) if boards[i].deleted_at is Some => Err(StoreError::AlreadyDeleted),
            _ => Ok(upserted(boards, id, board.name, now)),
        }
    }
}

/// What a load returns, and whether the document is to be written back: a
/// stored document comes back under the identifier it was asked by; where
/// none could be read, an empty one takes its place.
pub open spec fn load_outcome(id: Seq<char>, fallback_name: Seq<char>, stored: Option<BoardView>) -> (
    BoardView,
    bool,
) {
    match stored {
        Some(board) => (
            BoardView { id, name: board.name, cards: board.cards, columns: board.columns },
            board.id != id,
        ),
        None => (empty_board_view(id, fallback_name), true),
    }
}

/// What creating a board returns.
#[derive(Debug, Clone, PartialEq, Eq)]
pub struct Created {
    /// The index with the new entry appended.
    pub index: BoardIndex,
    /// The new entry.
    pub meta: BoardMeta,
    /// The document to write for the new board.
    pub document: Board,
}

/// Creates a board named `name` at `now`.
///
/// The board gets the first free identifier after `board-<now>`; `taken`
/// lists the names in use below the board root. The index gets an active
/// entry for it at its end.
pub fn create_board(index: BoardIndex, taken: &Vec<String>, name: &str, now: i64) -> (created:
    Created)
    ensures
        valid_board_id(created.meta@.id),
        !is_taken(index@.boards, name_views(taken@), created.meta@.id),
        exists|k: nat|
            is_first_free(index@.boards, name_views(taken@), base_id(now), k)
                && created.meta@.id == candidate_id(base_id(now), k),
        created.meta@ == created_entry(created.meta@.id, name@, now),
        created.index@.version == index@.version,
        created.index@.boards == index@.boards.push(created.meta@),
        created.document@ == empty_board_view(created.meta@.id, board_name_for(name@)),
{
    let id = generate_board_id(&index, taken, now);
    let board_name = match clean_text(name) {
        Some(text) => text,
        None => "Untitled".to_string(),
    };
    let document = empty_board(id.as_str(), board_name.as_str());
    let meta = BoardMeta {
        id: id.clone(),
        name: board_name.clone(),
        updated_at: now,
        deleted_at: None,
    };
    let entry = BoardMeta { id, name: board_name, updated_at: now, deleted_at: None };
    let ghost before = index@.boards;
    let mut next = index;
    next.boards.push(entry);
    assert(next@.boards == before.push(meta@));
    Created { index: next, meta, document }
}

/// Moves a board to the trash: its entry is marked deleted at `now`.
///
/// Refused with `InvalidIdentifier` for an invalid identifier, and with
/// `NotFound` where the index holds no active board of that identifier.
pub fn delete_board(index: BoardIndex, board_id: &str, now: i64) -> (result: Result<
    BoardIndex,
    StoreError,
>)
    ensures
        match result {
            Ok(next) => next@.version == index@.version && delete_outcome(
                index@.boards,
                board_id@,
                now,
            ) == Ok::<Seq<MetaView>, StoreError>(next@.boards),
            Err(e) => delete_outcome(index@.boards, board_id@, now) == Err::<
                Seq<MetaView>,
                StoreError,
            >(e),
        },
{
    if !is_valid_board_id(board_id) {
        return Err(StoreError::InvalidIdentifier);
    }
    let ghost before = index@.boards;
    match find_board(&index.boards, board_id) {
        Some(i) => {
            if index.boards[i].deleted_at.is_some() {
                return Err(StoreError::NotFound);
            }
            let entry = BoardMeta {
                id: index.boards[i].id.clone(),
                name: index.boards[i].name.clone(),
                updated_at: index.boards[i].updated_at,
                deleted_at: Some(now),
            };
            let mut next = index;
            next.boards.set(i, entry);
            assert(next@.boards == marked_deleted(before, i as int, now));
            Ok(next)
        },
        None => Err(StoreError::NotFound),
    }
}

/// Whether the board may be restored: `in_trash` says whether the trash
/// holds a directory of that name, `in_root` whether the board root does.
///
/// Refused with `InvalidIdentifier` for an invalid identifier, with
/// `NotFound` where the trash holds no such board, and with `AlreadyExists`
/// where an active board of that identifier is in the way.
pub fn restore_board(board_id: &str, in_trash: bool, in_root: bool) -> (result: Result<
    (),
    StoreError,
>)
    ensures
        result == restore_check(board_id@, in_trash, in_root),
{
    if !is_valid_board_id(board_id) {
        Err(StoreError::InvalidIdentifier)
    } else if !in_trash {
        Err(StoreError::NotFound)
    } else if in_root {
        Err(StoreError::AlreadyExists)
    } else {
        Ok(())
    }
}

/// The index after a board came back from the trash: its entry is active
/// again, under the name of its document, stamped `now`.
pub fn index_after_restore(
    index: BoardIndex,
    board_id: &str,
    document_name: Option<&str>,
    now: i64,
) -> (next: BoardIndex)
    ensures
        next@.version == index@.version,
        next@.boards == upserted(
            index@.boards,
            board_id@,
            restored_name(
                board_id@,
                match document_name {
                    Some(name) => Some(name@),
                    None => None,
                },
            ),
            now,
        ),
        index.wf() ==> next.wf(),
{
    let name = match document_name {
        Some(name) => name,
        None => board_id,
    };
    ensure_board_index_contains(index, board_id, name, now)
}

/// The index after the trash was emptied: the trashed entries are gone.
pub fn empty_trash(index: &BoardIndex) -> (next: BoardIndex)
    ensures
        next@.version == index@.version,
        next@.boards == active_entries(index@.boards),
{
    remove_trashed(index)
}

/// Saves a document under `board_id`: where it is accepted, the result is
/// the index with the board upserted under the document's name.
///
/// Refused with `InvalidIdentifier` for an invalid identifier, with
/// `IdMismatch` where the document carries another identifier, and with
/// `AlreadyDeleted` where the index marks the board as deleted.
pub fn save_board(index: BoardIndex, board_id: &str, board: &Board, now: i64) -> (result: Result<
    BoardIndex,
    StoreError,
>)
    ensures
        match result {
            Ok(next) => next@.version == index@.version && save_outcome(
                index@.boards,
                board_id@,
                board@,
                now,
            ) == Ok::<Seq<MetaView>, StoreError>(next@.boards),
            Err(e) => save_outcome(index@.boards, board_id@, board@, now) == Err::<
                Seq<MetaView>,
                StoreError,
            >(e),
        },
{
    if !is_valid_board_id(board_id) {
        return Err(StoreError::InvalidIdentifier);
    }
    if board.id != board_id.to_string() {
        return Err(StoreError::IdMismatch);
    }
    match find_board(&index.boards, board_id) {
        Some(i) => {
            if index.boards[i].deleted_at.is_some() {
                return Err(StoreError::AlreadyDeleted);
            }
        },
        None => {},
    }
    Ok(ensure_board_index_contains(index, board_id, board.name.as_str(), now))
}

/// Loads the document of `board_id`: `stored` is what the document file
/// held, `None` where it could not be parsed; `fallback_name` names the
/// board where a fresh document has to be made.
///
/// A stored document is returned under `board_id` whatever identifier it
/// carried. Where none could be read, an empty document takes its place.
/// The flag says whether the returned document is to be written back.
pub fn load_board(board_id: &str, fallback_name: &str, stored: Option<Board>) -> (result: Result<
    (Board, bool),
    StoreError,
>)
    ensures
        match result {
            Ok(loaded) => valid_board_id(board_id@) && (loaded.0@, loaded.1) == load_outcome(
                board_id@,
                fallback_name@,
                match stored {
                    Some(board) => Some(board@),
                    None => None,
                },
            ),
            Err(e) => e == StoreError::InvalidIdentifier && !valid_board_id(board_id@),
        },
{
    if !is_valid_board_id(board_id) {
        return Err(StoreError::InvalidIdentifier);
    }
    match stored {
        Some(board) => {
            let wanted = board_id.to_string();
            if board.id == wanted {
                Ok((board, false))
            } else {
                let fixed = Board {
                    id: wanted,
                    name: board.name,
                    cards: board.cards,
                    columns: board.columns,
                };
                Ok((fixed, true))
            }
        },
        None => Ok((empty_board(board_id, fallback_name), true)),
    }
}

/// The asset directory of a board, and the index with the board in it.
///
/// Refused with `InvalidIdentifier` for an invalid identifier. Else the
/// board is upserted under the name that the index held for it, or
/// "Untitled", and the directory is `<root>/<id>/assets`.
pub fn get_assets_dir(index: BoardIndex, root_dir: &str, board_id: &str, now: i64) -> (result:
    Result<(String, BoardIndex), StoreError>)
    ensures
        match result {
            Ok(found) => {
                &&& valid_board_id(board_id@)
                &&& found.0@ == joined(joined(root_dir@, board_id@), "assets"@)
                &&& found.1@.version == index@.version
                &&& found.1@.boards == upserted(
                    index@.boards,
                    board_id@,
                    name_or_untitled(index@.boards, board_id@),
                    now,
                )
            },
            Err(e) => e == StoreError::InvalidIdentifier && !valid_board_id(board_id@),
        },
{
    if !is_valid_board_id(board_id) {
        return Err(StoreError::InvalidIdentifier);
    }
    let name = board_name_or_default(&index, board_id);
    let next = ensure_board_index_contains(index, board_id, name.as_str(), now);
    Ok((board_paths(root_dir, board_id).assets_dir, next))
}

} // verus!
