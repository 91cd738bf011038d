//! The chat transcript kept beside a board, and the checks made before a
//! chat request is passed on.

use crate::board_id::{is_valid_board_id, valid_board_id};
use crate::error::StoreError;
use crate::text::{clean_text, trimmed};
use vstd::prelude::*;

verus! {

/// The transcript version written by this library.
pub const CHAT_VERSION: u32 = 1;

/// One message of a transcript.
#[derive(Debug, Clone, PartialEq, Eq)]
pub struct ChatEntry {
    pub id: String,
    pub role: String,
    pub content: String,
    pub created_at: i64,
    pub session_id: Option<String>,
}

/// The transcript of a board. The store keeps it as it is handed in.
#[derive(Debug, Clone, PartialEq, Eq)]
pub struct ChatStore {
    pub version: u32,
    pub messages: Vec<ChatEntry>,
    pub summary: Option<String>,
    pub summary_up_to: usize,
    pub last_session_id: Option<String>,
}

impl ChatStore {
    /// Whether this is the transcript of a board without chat.
    pub open spec fn is_empty(&self) -> bool {
        &&& self.version == CHAT_VERSION
        &&& self.messages@.len() == 0
        &&& self.summary is None
        &&& self.summary_up_to == 0
        &&& self.last_session_id is None
    }

    /// The transcript of a board without chat.
    pub fn empty() -> (chat: ChatStore)
        ensures
            chat.is_empty(),
    {
        ChatStore {
            version: CHAT_VERSION,
            messages: Vec::new(),
            summary: None,
            summary_up_to: 0,
            last_session_id: None,
        }
    }
}

/// Loads the transcript of `board_id`: `stored` is what the transcript file
/// held, `None` where the board has none yet.
///
/// Refused with `InvalidIdentifier` for an invalid identifier. A stored
/// transcript is returned as it is; a board without one gets the empty
/// transcript.
pub fn load_chat(board_id: &str, stored: Option<ChatStore>) -> (result: Result<
    ChatStore,
    StoreError,
>)
    ensures
        match result {
            Ok(chat) => valid_board_id(board_id@) && match stored {
                Some(kept) => chat == kept,
                None => chat.is_empty(),
            },
            Err(e) => e == StoreError::InvalidIdentifier && !valid_board_id(board_id@),
        },
{
    if !is_valid_board_id(board_id) {
        return Err(StoreError::InvalidIdentifier);
    }
    match stored {
        Some(chat) => Ok(chat),
        None => Ok(ChatStore::empty()),
    }
}

/// Whether the transcript of `board_id` may be written.
///
/// Refused with `InvalidIdentifier` for an invalid identifier.
pub fn save_chat(board_id: &str) -> (result: Result<(), StoreError>)
    ensures
        result == if valid_board_id(board_id@) {
            Ok::<(), StoreError>(())
        } else {
            Err::<(), StoreError>(StoreError::InvalidIdentifier)
        },
{
    if is_valid_board_id(board_id) {
        Ok(())
    } else {
        Err(StoreError::InvalidIdentifier)
    }
}

/// Whether a chat request names its model: the name holds more than
/// whitespace.
pub fn model_is_named(model: &str) -> (named: bool)
    ensures
        named == (trimmed(model@).len() > 0),
{
    clean_text(model).is_some()
}

} // verus!
