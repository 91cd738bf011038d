use lana_boards::chat::{load_chat, model_is_named, save_chat, ChatEntry, ChatStore, CHAT_VERSION};
use lana_boards::clock::{millis_from_clock, now_millis};
use lana_boards::error::StoreError;
use lana_boards::paths::{
    atomic_write, board_paths, chat_file, join, trash_dir, trashed_board_dir, AppPaths,
};

#[test]
fn board_paths_follow_the_layout() {
    let paths = board_paths("/docs/LANA/boards", "board-1");
    assert_eq!(paths.dir, "/docs/LANA/boards/board-1");
    assert_eq!(paths.file, "/docs/LANA/boards/board-1/board.json");
    assert_eq!(paths.tmp, "/docs/LANA/boards/board-1/board.json.tmp");
    assert_eq!(paths.assets_dir, "/docs/LANA/boards/board-1/assets");
    assert_eq!(chat_file(&paths.dir), "/docs/LANA/boards/board-1/chat.json");
}

#[test]
fn app_paths_lie_below_the_documents_directory() {
    let paths = AppPaths::new("/home/u/Documents");
    assert_eq!(paths.root_dir, "/home/u/Documents/LANA/boards");
    assert_eq!(paths.index_file, "/home/u/Documents/LANA/boards/boards.json");
}

#[test]
fn trash_paths() {
    assert_eq!(trash_dir("/r"), "/r/trash");
    assert_eq!(trashed_board_dir("/r", "b"), "/r/trash/b");
    assert_eq!(join("a", "b"), "a/b");
}

#[test]
fn atomic_write_goes_through_a_sibling_temporary_file() {
    let plan = atomic_write("/r/boards.json");
    assert_eq!(plan.dest, "/r/boards.json");
    assert_eq!(plan.tmp, "/r/boards.json.tmp");
}

#[test]
fn stamps_of_clock_readings() {
    assert_eq!(millis_from_clock(None), 0);
    assert_eq!(millis_from_clock(Some(0)), 0);
    assert_eq!(millis_from_clock(Some(1700000000000)), 1700000000000);
    assert_eq!(millis_from_clock(Some(i64::MAX as u128)), i64::MAX);
    assert_eq!(millis_from_clock(Some(i64::MAX as u128 + 1)), i64::MIN);
    assert_eq!(millis_from_clock(Some(u64::MAX as u128)), -1);
    assert_eq!(millis_from_clock(Some(u64::MAX as u128 + 1)), 0);
    for m in [5u128, 1 << 63, (1 << 64) + 7, u128::MAX, (3 << 64) - 2] {
        assert_eq!(millis_from_clock(Some(m)), m as i64);
    }
}

#[test]
fn now_is_after_the_year_two_thousand() {
    assert!(now_millis() > 946_684_800_000);
}

#[test]
fn a_board_without_chat_has_the_empty_transcript() {
    let chat = load_chat("board-1", None).unwrap();
    assert_eq!(chat, ChatStore::empty());
    assert_eq!(chat.version, CHAT_VERSION);
    assert_eq!(chat.version, 1);
    assert!(chat.messages.is_empty());
    assert_eq!(chat.summary, None);
    assert_eq!(chat.summary_up_to, 0);
    assert_eq!(chat.last_session_id, None);
}

#[test]
fn a_stored_transcript_comes_back_as_it_is() {
    let stored = ChatStore {
        version: 3,
        messages: vec![ChatEntry {
            id: "m1".to_string(),
            role: "user".to_string(),
            content: "hi".to_string(),
            created_at: 5,
            session_id: Some("s".to_string()),
        }],
        summary: Some("sum".to_string()),
        summary_up_to: 1,
        last_session_id: None,
    };
    assert_eq!(load_chat("board-1", Some(stored.clone())), Ok(stored));
}

#[test]
fn chat_commands_reject_an_invalid_id() {
    assert_eq!(load_chat("a/b", None), Err(StoreError::InvalidIdentifier));
    assert_eq!(save_chat("a/b"), Err(StoreError::InvalidIdentifier));
    assert_eq!(save_chat("board-1"), Ok(()));
}

#[test]
fn a_model_name_must_hold_more_than_whitespace() {
    assert!(model_is_named("llama3"));
    assert!(model_is_named(" x "));
    assert!(!model_is_named(""));
    assert!(!model_is_named("  \n"));
}
