//! The data that the store keeps: board metadata, the board index and board
//! documents, each with the mathematical view that the contracts speak of.

use vstd::prelude::*;

verus! {

/// The index version written by this library.
pub const INDEX_VERSION: u32 = 1;

/// What the index records of one board.
///
/// A board without `deleted_at` is active. One with it lies in the trash, and
/// the value is both the time of deletion and the `updated_at` shown for it.
#[derive(Debug, Clone, PartialEq, Eq)]
pub struct BoardMeta {
    pub id: String,
    pub name: String,
    pub updated_at: i64,
    pub deleted_at: Option<i64>,
}

/// The view of a [`BoardMeta`].
pub struct MetaView {
    pub id: Seq<char>,
    pub name: Seq<char>,
    pub updated_at: i64,
    pub deleted_at: Option<i64>,
}

impl View for BoardMeta {
    type V = MetaView;

    open spec fn view(&self) -> MetaView {
        MetaView {
            id: self.id@,
            name: self.name@,
            updated_at: self.updated_at,
            deleted_at: self.deleted_at,
        }
    }
}

impl BoardMeta {
    /// A copy of this entry.
    pub fn duplicate(&self) -> (copy: BoardMeta)
        ensures
            copy@ == self@,
    {
        BoardMeta {
            id: self.id.clone(),
            name: self.name.clone(),
            updated_at: self.updated_at,
            deleted_at: self.deleted_at,
        }
    }
}

/// The views of a sequence of entries.
pub open spec fn meta_views(entries: Seq<BoardMeta>) -> Seq<MetaView> {
    entries.map_values(|m: BoardMeta| m@)
}

/// The cache of board metadata, kept in one file beside the boards.
#[derive(Debug, Clone, PartialEq, Eq)]
pub struct BoardIndex {
    pub version: u32,
    pub boards: Vec<BoardMeta>,
}

/// The view of a [`BoardIndex`].
pub struct IndexView {
    pub version: u32,
    pub boards: Seq<MetaView>,
}

impl View for BoardIndex {
    type V = IndexView;

    open spec fn view(&self) -> IndexView {
        IndexView { version: self.version, boards: meta_views(self.boards@) }
    }
}

/// No two entries carry the same identifier.
pub open spec fn unique_ids(boards: Seq<MetaView>) -> bool {
    forall|i: int, j: int|
        0 <= i < j < boards.len() ==> (#[trigger] boards[i]).id != (#[trigger] boards[j]).id
}

impl BoardIndex {
    /// The index invariant: at most one entry for each identifier.
    pub open spec fn wf(&self) -> bool {
        unique_ids(self@.boards)
    }
}

/// A board document. The cards and columns are carried as they were
/// written, one text each; this library never looks inside them.
#[derive(Debug, Clone, PartialEq, Eq)]
pub struct Board {
    pub id: String,
    pub name: String,
    pub cards: Vec<String>,
    pub columns: Vec<String>,
}

/// The view of a [`Board`].
pub struct BoardView {
    pub id: Seq<char>,
    pub name: Seq<char>,
    pub cards: Seq<Seq<char>>,
    pub columns: Seq<Seq<char>>,
}

/// The views of a sequence of texts.
pub open spec fn text_views(texts: Seq<String>) -> Seq<Seq<char>> {
    texts.map_values(|s: String| s@)
}

impl View for Board {
    type V = BoardView;

    open spec fn view(&self) -> BoardView {
        BoardView {
            id: self.id@,
            name: self.name@,
            cards: text_views(self.cards@),
            columns: text_views(self.columns@),
        }
    }
}

/// The document of a board that holds nothing yet.
pub open spec fn empty_board_view(id: Seq<char>, name: Seq<char>) -> BoardView {
    BoardView { id, name, cards: Seq::empty(), columns: Seq::empty() }
}

/// The document of a board that holds nothing yet.
pub fn empty_board(id: &str, name: &str) -> (board: Board)
    ensures
        board@ == empty_board_view(id@, name@),
{
    let board = Board {
        id: id.to_string(),
        name: name.to_string(),
        cards: Vec::new(),
        columns: Vec::new(),
    };
    assert(board@.cards == Seq::<Seq<char>>::empty());
    assert(board@.columns == Seq::<Seq<char>>::empty());
    board
}

/// The name given to a column whose stored form carries none.
pub fn default_column_name() -> (name: String)
    ensures
        name@ == "List"@,
{
    "List".to_string()
}

} // verus!
