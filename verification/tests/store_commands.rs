use lana_boards::error::StoreError;
use lana_boards::index::{list_boards, list_trashed_boards};
use lana_boards::model::{Board, BoardIndex, BoardMeta};
use lana_boards::reconcile::read_index;
use lana_boards::scan::{DirEntry, DiskScan};
use lana_boards::store::{
    create_board, delete_board, empty_trash, get_assets_dir, index_after_restore, load_board,
    restore_board, save_board,
};

fn meta(id: &str, name: &str, updated_at: i64, deleted_at: Option<i64>) -> BoardMeta {
    BoardMeta { id: id.to_string(), name: name.to_string(), updated_at, deleted_at }
}

fn index_of(boards: Vec<BoardMeta>) -> BoardIndex {
    BoardIndex { version: 1, boards }
}

fn board(id: &str, name: &str, cards: Vec<&str>) -> Board {
    Board {
        id: id.to_string(),
        name: name.to_string(),
        cards: cards.into_iter().map(|c| c.to_string()).collect(),
        columns: vec![],
    }
}

fn dir(name: &str, board_name: &str, modified: i64) -> DirEntry {
    DirEntry {
        dir_name: name.to_string(),
        has_document: true,
        board_name: Some(board_name.to_string()),
        modified: Some(modified),
    }
}

#[test]
fn create_board_appends_an_active_entry() {
    let index = index_of(vec![meta("a", "A", 1, None)]);
    let created = create_board(index, &vec!["a".to_string()], "  Trip ", 1000);
    assert_eq!(created.meta, meta("board-1000", "Trip", 1000, None));
    assert_eq!(created.index.boards, vec![meta("a", "A", 1, None), meta("board-1000", "Trip", 1000, None)]);
    assert_eq!(created.document, board("board-1000", "Trip", vec![]));
}

#[test]
fn create_board_names_a_blank_board_untitled() {
    let created = create_board(index_of(vec![]), &vec![], " \t", 5);
    assert_eq!(created.meta.name, "Untitled");
    assert_eq!(created.document.name, "Untitled");
}

#[test]
fn create_board_avoids_ids_on_disk() {
    let created = create_board(index_of(vec![]), &vec!["board-5".to_string()], "X", 5);
    assert_eq!(created.meta.id, "board-5-1");
}

#[test]
fn delete_board_marks_the_entry() {
    let index = index_of(vec![meta("a", "A", 1, None), meta("b", "B", 2, None)]);
    let next = delete_board(index, "b", 77).unwrap();
    assert_eq!(next.boards, vec![meta("a", "A", 1, None), meta("b", "B", 2, Some(77))]);
}

#[test]
fn delete_board_on_an_unknown_id_is_not_found() {
    let index = index_of(vec![meta("a", "A", 1, None)]);
    assert_eq!(delete_board(index, "nope", 1), Err(StoreError::NotFound));
    assert_eq!(delete_board(index_of(vec![]), "a", 1), Err(StoreError::NotFound));
}

#[test]
fn delete_board_on_a_trashed_board_is_not_found() {
    let index = index_of(vec![meta("a", "A", 1, Some(4))]);
    assert_eq!(delete_board(index, "a", 9), Err(StoreError::NotFound));
}

#[test]
fn delete_board_rejects_an_invalid_id() {
    let index = index_of(vec![meta("a", "A", 1, None)]);
    assert_eq!(delete_board(index, "../a", 1), Err(StoreError::InvalidIdentifier));
}

#[test]
fn restore_board_checks_id_trash_and_root_in_that_order() {
    assert_eq!(restore_board("a", true, false), Ok(()));
    assert_eq!(restore_board("a", true, true), Err(StoreError::AlreadyExists));
    assert_eq!(restore_board("a", false, false), Err(StoreError::NotFound));
    assert_eq!(restore_board("a", false, true), Err(StoreError::NotFound));
    assert_eq!(restore_board("a/b", true, false), Err(StoreError::InvalidIdentifier));
    assert_eq!(restore_board("", false, true), Err(StoreError::InvalidIdentifier));
}

#[test]
fn index_after_restore_revives_the_entry() {
    let index = index_of(vec![meta("a", "A", 1, Some(4))]);
    let next = index_after_restore(index, "a", Some("Trip"), 50);
    assert_eq!(next.boards, vec![meta("a", "Trip", 50, None)]);
    let next = index_after_restore(index_of(vec![]), "a", None, 50);
    assert_eq!(next.boards, vec![meta("a", "a", 50, None)]);
}

#[test]
fn empty_trash_drops_the_trashed_entries() {
    let index = index_of(vec![meta("a", "A", 1, Some(4)), meta("b", "B", 2, None)]);
    assert_eq!(empty_trash(&index).boards, vec![meta("b", "B", 2, None)]);
}

#[test]
fn save_board_upserts_under_the_document_name() {
    let index = index_of(vec![meta("a", "A", 1, None)]);
    let next = save_board(index, "a", &board("a", "Renamed", vec!["{}"]), 9).unwrap();
    assert_eq!(next.boards, vec![meta("a", "Renamed", 9, None)]);
    let next = save_board(index_of(vec![]), "n", &board("n", "New", vec![]), 9).unwrap();
    assert_eq!(next.boards, vec![meta("n", "New", 9, None)]);
}

#[test]
fn save_board_rejects_mismatch_deleted_and_invalid() {
    let index = index_of(vec![meta("a", "A", 1, Some(3))]);
    assert_eq!(save_board(index.clone(), "a", &board("b", "B", vec![]), 9), Err(StoreError::IdMismatch));
    assert_eq!(save_board(index.clone(), "a", &board("a", "A", vec![]), 9), Err(StoreError::AlreadyDeleted));
    assert_eq!(save_board(index.clone(), "a b", &board("a b", "A", vec![]), 9), Err(StoreError::InvalidIdentifier));
    assert_eq!(save_board(index, "a b", &board("x", "A", vec![]), 9), Err(StoreError::InvalidIdentifier));
}

#[test]
fn load_board_returns_what_was_saved() {
    let saved = board("a", "A", vec!["{\"id\":\"c1\"}"]);
    assert!(save_board(index_of(vec![]), "a", &saved, 1).is_ok());
    assert_eq!(load_board("a", "Untitled", Some(saved.clone())), Ok((saved, false)));
}

#[test]
fn load_board_corrects_the_id_and_asks_for_a_rewrite() {
    let stored = board("old", "A", vec!["{}"]);
    assert_eq!(load_board("new", "Untitled", Some(stored)), Ok((board("new", "A", vec!["{}"]), true)));
}

#[test]
fn load_board_starts_over_when_nothing_could_be_read() {
    assert_eq!(load_board("a", "Trip", None), Ok((board("a", "Trip", vec![]), true)));
}

#[test]
fn load_board_rejects_an_invalid_id() {
    assert_eq!(load_board("a/..", "x", None), Err(StoreError::InvalidIdentifier));
}

#[test]
fn assets_dir_of_a_board() {
    let index = index_of(vec![meta("a", "A", 1, None)]);
    let (dir, next) = get_assets_dir(index, "/docs/LANA/boards", "a", 5).unwrap();
    assert_eq!(dir, "/docs/LANA/boards/a/assets");
    assert_eq!(next.boards, vec![meta("a", "A", 5, None)]);
    let (_, next) = get_assets_dir(index_of(vec![]), "/r", "n", 5).unwrap();
    assert_eq!(next.boards, vec![meta("n", "Untitled", 5, None)]);
    assert_eq!(get_assets_dir(index_of(vec![]), "/r", "..", 5), Err(StoreError::InvalidIdentifier));
}

#[test]
fn a_board_goes_to_the_trash_and_back_and_is_removed_for_good() {
    let mut active: Vec<DirEntry> = vec![];
    let mut trashed: Vec<DirEntry> = vec![];
    let scan_of = |a: &Vec<DirEntry>, t: &Vec<DirEntry>| DiskScan { active: a.clone(), trashed: t.clone() };

    let (index, _) = read_index(None, &scan_of(&active, &trashed), 1000);
    let created = create_board(index, &vec![], "Trip", 1000);
    assert_eq!(created.meta.id, "board-1000");
    active.push(dir("board-1000", "Trip", 1000));
    let index = created.index;

    let document = board("board-1000", "Trip", vec!["{\"id\":\"card-1\"}"]);
    let index = save_board(index, "board-1000", &document, 1001).unwrap();
    active[0].modified = Some(1001);

    let index = delete_board(index, "board-1000", 1002).unwrap();
    trashed.push(active.remove(0));
    assert_eq!(list_trashed_boards(&index), vec![meta("board-1000", "Trip", 1001, Some(1002))]);
    assert!(list_boards(&index).is_empty());

    assert_eq!(restore_board("board-1000", true, false), Ok(()));
    active.push(trashed.remove(0));
    let (index, _) = read_index(Some(index), &scan_of(&active, &trashed), 1003);
    let index = index_after_restore(index, "board-1000", Some("Trip"), 1003);
    assert_eq!(list_boards(&index), vec![meta("board-1000", "Trip", 1003, None)]);
    assert!(list_trashed_boards(&index).is_empty());
    assert_eq!(load_board("board-1000", "Trip", Some(document.clone())), Ok((document, false)));

    let index = delete_board(index, "board-1000", 1004).unwrap();
    trashed.push(active.remove(0));
    let index = empty_trash(&index);
    trashed.clear();
    assert!(list_trashed_boards(&index).is_empty());
    assert!(list_boards(&index).is_empty());
    let (index, _) = read_index(Some(index), &scan_of(&active, &trashed), 1005);
    assert!(index.boards.is_empty());
}

#[test]
fn every_board_has_one_entry_in_its_place_after_a_run_of_commands() {
    let mut index = index_of(vec![]);
    let mut active: Vec<String> = vec![];
    let mut trashed: Vec<String> = vec![];
    for now in 0..6 {
        let created = create_board(index, &active, "B", now / 2);
        active.push(created.meta.id.clone());
        index = created.index;
    }
    for id in ["board-0", "board-1-1", "missing"] {
        if let Ok(next) = delete_board(index.clone(), id, 50) {
            index = next;
            active.retain(|a| a != id);
            trashed.push(id.to_string());
        }
    }
    for id in ["board-0", "board-2"] {
        let in_trash = trashed.iter().any(|t| t == id);
        let in_root = active.iter().any(|a| a == id);
        if restore_board(id, in_trash, in_root).is_ok() {
            trashed.retain(|t| t != id);
            active.push(id.to_string());
            index = index_after_restore(index, id, None, 60);
        }
    }
    for id in active.iter().chain(trashed.iter()) {
        let entries: Vec<&BoardMeta> = index.boards.iter().filter(|b| &b.id == id).collect();
        assert_eq!(entries.len(), 1, "{}", id);
        assert_eq!(entries[0].deleted_at.is_some(), trashed.contains(id), "{}", id);
    }
    assert_eq!(index.boards.len(), active.len() + trashed.len());
    assert!(active.iter().all(|a| !trashed.contains(a)));
}

#[test]
fn store_errors_have_messages() {
    assert_eq!(StoreError::InvalidIdentifier.message(), "invalid board id");
    assert_eq!(StoreError::NotFound.message(), "board not found");
    assert_eq!(StoreError::AlreadyExists.message(), "board already exists");
    assert_eq!(StoreError::AlreadyDeleted.message(), "board is deleted");
    assert_eq!(StoreError::IdMismatch.message(), "board id mismatch");
    assert_eq!(StoreError::InvalidPayload.message(), "base64 decode failed");
}

#[test]
fn the_trash_listing_shows_the_name_of_the_saved_document() {
    let created = create_board(index_of(vec![meta("a", "A", 1, None)]), &vec![], "Trip", 10);
    let id = created.meta.id.clone();
    let index = save_board(created.index, &id, &board(&id, "Journey", vec!["{}"]), 11).unwrap();
    let index = delete_board(index, &id, 12).unwrap();
    assert_eq!(list_trashed_boards(&index), vec![meta(&id, "Journey", 11, Some(12))]);
    assert_eq!(list_boards(&index), vec![meta("a", "A", 1, None)]);
}
