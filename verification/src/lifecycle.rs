//! What holds of the store over its whole life.
//!
//! The commands of [`crate::store`] decide what happens to the index; the
//! caller moves the directories. Here both are put side by side: a world
//! holds the index entries and the names of the directories in the board
//! root and in the trash, and a command takes one world to the next, the
//! directories moved as the command's result asks. The laws below are
//! proved of that.

use crate::error::StoreError;
use crate::board_id::valid_board_id;
use crate::index::{
    active_entries, lemma_filter_keeps_ids, lemma_position, lemma_push_keeps_ids,
    lemma_update_keeps_ids, newest_first, position, trashed_entries, upserted,
};
use crate::model::{unique_ids, BoardView, MetaView};
use crate::store::{
    created_entry, delete_outcome, load_outcome, restore_check, restored_name, save_outcome,
};
use vstd::prelude::*;

verus! {

/// The index entries together with what lies on disk.
pub struct World {
    /// The entries of the index.
    pub boards: Seq<MetaView>,
    /// The names of the board directories in the board root.
    pub active: Set<Seq<char>>,
    /// The names of the board directories in the trash.
    pub trashed: Set<Seq<char>>,
}

/// Whether an entry claims the place where its board lies.
pub open spec fn in_place(entry: MetaView, world: World) -> bool {
    if entry.deleted_at is Some {
        world.trashed.contains(entry.id)
    } else {
        world.active.contains(entry.id)
    }
}

/// Index and disk agree: no board lies both in the root and in the trash,
/// every board on disk has exactly one entry, and every entry is marked
/// deleted exactly when its board lies in the trash.
pub open spec fn consistent(world: World) -> bool {
    &&& unique_ids(world.boards)
    &&& world.active.disjoint(world.trashed)
    &&& forall|i: int| 0 <= i < world.boards.len() ==> in_place(#[trigger] world.boards[i], world)
    &&& forall|id: Seq<char>|
        world.active.contains(id) || world.trashed.contains(id) ==> #[trigger] position(
            world.boards,
            id,
        ) is Some
}

/// A command that moves a board.
pub enum Command {
    /// A board is created under the identifier that was generated for it.
    Create { id: Seq<char>, name: Seq<char>, now: i64 },
    /// A board is moved to the trash.
    Delete { id: Seq<char>, now: i64 },
    /// A board is moved back from the trash.
    Restore { id: Seq<char>, document_name: Option<Seq<char>>, now: i64 },
    /// Everything in the trash is removed.
    EmptyTrash,
}

/// The world after a command. A command that is refused changes nothing.
/// A board is created only under an identifier that is free in the index
/// and in the board root, as generated identifiers are.
pub open spec fn step(world: World, command: Command) -> World {
    match command {
        Command::Create { id, name, now } => {
            if position(world.boards, id) is None && !world.active.contains(id) {
                World {
                    boards: world.boards.push(created_entry(id, name, now)),
                    active: world.active.insert(id),
                    trashed: world.trashed,
                }
            } else {
                world
            }
        },
        Command::Delete { id, now } => match delete_outcome(world.boards, id, now) {
            Ok(boards) => World {
                boards,
                active: world.active.remove(id),
                trashed: world.trashed.insert(id),
            },
            Err(_) => world,
        },
        Command::Restore { id, document_name, now } => match restore_check(
            id,
            world.trashed.contains(id),
            world.active.contains(id),
        ) {
            Ok(_) => World {
                boards: upserted(world.boards, id, restored_name(id, document_name), now),
                active: world.active.insert(id),
                trashed: world.trashed.remove(id),
            },
            Err(_) => world,
        },
        Command::EmptyTrash => World {
            boards: active_entries(world.boards),
            active: world.active,
            trashed: Set::empty(),
        },
    }
}

/// The world after a sequence of commands.
pub open spec fn run(world: World, commands: Seq<Command>) -> World
    decreases commands.len(),
{
    if commands.len() == 0 {
        world
    } else {
        step(run(world, commands.drop_last()), commands.last())
    }
}

/// Creating a board keeps index and disk in agreement.
proof fn lemma_create_keeps_consistent(world: World, id: Seq<char>, name: Seq<char>, now: i64)
    requires
        consistent(world),
    ensures
        consistent(step(world, Command::Create { id, name, now })),
{
    let next = step(world, Command::Create { id, name, now });
    if position(world.boards, id) is None && !world.active.contains(id) {
        let entry = created_entry(id, name, now);
        lemma_push_keeps_ids(world.boards, entry);
        assert(!world.trashed.contains(id));
        assert forall|i: int| 0 <= i < next.boards.len() implies in_place(
            #[trigger] next.boards[i],
            next,
        ) by {
            if i < world.boards.len() {
                assert(in_place(world.boards[i], world));
            }
        }
    }
}

/// Deleting a board keeps index and disk in agreement.
proof fn lemma_delete_keeps_consistent(world: World, id: Seq<char>, now: i64)
    requires
        consistent(world),
    ensures
        consistent(step(world, Command::Delete { id, now })),
{
    let next = step(world, Command::Delete { id, now });
    if delete_outcome(world.boards, id, now) is Ok {
        lemma_position(world.boards, id);
        let at = position(world.boards, id).unwrap();
        lemma_update_keeps_ids(world.boards, at, next.boards[at]);
        assert(in_place(world.boards[at], world));
        assert forall|i: int| 0 <= i < next.boards.len() implies in_place(
            #[trigger] next.boards[i],
            next,
        ) by {
            if i != at {
                assert(in_place(world.boards[i], world));
                assert(world.boards[i].id != world.boards[at].id);
            }
        }
        assert forall|other: Seq<char>|
            next.active.contains(other) || next.trashed.contains(other) implies #[trigger] position(
            next.boards,
            other,
        ) is Some by {
            assert(position(world.boards, other) is Some);
        }
    }
}

/// Restoring a board keeps index and disk in agreement.
proof fn lemma_restore_keeps_consistent(
    world: World,
    id: Seq<char>,
    document_name: Option<Seq<char>>,
    now: i64,
)
    requires
        consistent(world),
    ensures
        consistent(step(world, Command::Restore { id, document_name, now })),
{
    let next = step(world, Command::Restore { id, document_name, now });
    if restore_check(id, world.trashed.contains(id), world.active.contains(id)) is Ok {
        lemma_position(world.boards, id);
        assert(position(world.boards, id) is Some);
        let at = position(world.boards, id).unwrap();
        lemma_update_keeps_ids(world.boards, at, next.boards[at]);
        assert forall|i: int| 0 <= i < next.boards.len() implies in_place(
            #[trigger] next.boards[i],
            next,
        ) by {
            if i != at {
                assert(in_place(world.boards[i], world));
                assert(world.boards[i].id != world.boards[at].id);
            }
        }
        assert forall|other: Seq<char>|
            next.active.contains(other) || next.trashed.contains(other) implies #[trigger] position(
            next.boards,
            other,
        ) is Some by {
            assert(position(world.boards, other) is Some);
        }
    }
}

/// Emptying the trash keeps index and disk in agreement.
proof fn lemma_empty_trash_keeps_consistent(world: World)
    requires
        consistent(world),
    ensures
        consistent(step(world, Command::EmptyTrash)),
{
    let next = step(world, Command::EmptyTrash);
    let keep = |m: MetaView| m.deleted_at is None;
    lemma_filter_keeps_ids(world.boards, keep);
    assert forall|i: int| 0 <= i < next.boards.len() implies in_place(
        #[trigger] next.boards[i],
        next,
    ) by {
        let entry = next.boards[i];
        world.boards.lemma_filter_pred(keep, i);
        lemma_position(next.boards, entry.id);
        assert(position(next.boards, entry.id) is Some);
        lemma_position(world.boards, entry.id);
        let k = position(world.boards, entry.id).unwrap();
        assert(in_place(world.boards[k], world));
    }
    assert forall|id: Seq<char>|
        next.active.contains(id) || next.trashed.contains(id) implies #[trigger] position(
        next.boards,
        id,
    ) is Some by {
        assert(position(world.boards, id) is Some);
        lemma_position(world.boards, id);
        let k = position(world.boards, id).unwrap();
        assert(in_place(world.boards[k], world));
    }
}

/// Every command keeps index and disk in agreement: afterwards each board
/// lies in at most one of root and trash, and the index holds exactly one
/// entry for it, marked deleted exactly when it lies in the trash.
pub proof fn lemma_step_keeps_consistent(world: World, command: Command)
    requires
        consistent(world),
    ensures
        consistent(step(world, command)),
{
    match command {
        Command::Create { id, name, now } => lemma_create_keeps_consistent(world, id, name, now),
        Command::Delete { id, now } => lemma_delete_keeps_consistent(world, id, now),
        Command::Restore { id, document_name, now } => lemma_restore_keeps_consistent(
            world,
            id,
            document_name,
            now,
        ),
        Command::EmptyTrash => lemma_empty_trash_keeps_consistent(world),
    }
}

/// After any sequence of commands index and disk still agree.
pub proof fn lemma_run_keeps_consistent(world: World, commands: Seq<Command>)
    requires
        consistent(world),
    ensures
        consistent(run(world, commands)),
    decreases commands.len(),
{
    if commands.len() > 0 {
        lemma_run_keeps_consistent(world, commands.drop_last());
        lemma_step_keeps_consistent(run(world, commands.drop_last()), commands.last());
    }
}

/// A document that was saved under an identifier loads unchanged from it:
/// where the save is accepted, loading what was written returns the same
/// document and asks for no rewrite.
pub proof fn lemma_save_then_load(
    boards: Seq<MetaView>,
    id: Seq<char>,
    board: BoardView,
    fallback_name: Seq<char>,
    now: i64,
)
    requires
        save_outcome(boards, id, board, now) is Ok,
    ensures
        load_outcome(id, fallback_name, Some(board)) == (board, false),
{
}

/// Deleting a board that the index does not know is refused with
/// `NotFound`, given a valid identifier.
pub proof fn lemma_delete_unknown(boards: Seq<MetaView>, id: Seq<char>, now: i64)
    requires
        valid_board_id(id),
        position(boards, id) is None,
    ensures
        delete_outcome(boards, id, now) == Err::<Seq<MetaView>, StoreError>(StoreError::NotFound),
{
}

/// Restoring a board while an active board of the same identifier exists
/// is refused with `AlreadyExists`, given a valid identifier and a board
/// in the trash.
pub proof fn lemma_restore_collision(id: Seq<char>)
    requires
        valid_board_id(id),
    ensures
        restore_check(id, true, true) == Err::<(), StoreError>(StoreError::AlreadyExists),
{
}

/// A board that was created, saved and then deleted shows in the trash
/// and not among the active boards: its entry carries the name of the
/// saved document and the time of the deletion, and where the trash held
/// nothing before, the trash listing holds this entry alone.
pub proof fn lemma_deleted_board_is_listed(
    boards: Seq<MetaView>,
    id: Seq<char>,
    name: Seq<char>,
    document: BoardView,
    created_at: i64,
    saved_at: i64,
    deleted_at: i64,
)
    requires
        valid_board_id(id),
        position(boards, id) is None,
        document.id == id,
    ensures
        ({
            let created = boards.push(created_entry(id, name, created_at));
            let entry = MetaView {
                id,
                name: document.name,
                updated_at: saved_at,
                deleted_at: Some(deleted_at),
            };
            &&& save_outcome(created, id, document, saved_at) is Ok
            &&& delete_outcome(save_outcome(created, id, document, saved_at)->Ok_0, id, deleted_at)
                == Ok::<Seq<MetaView>, StoreError>(boards.push(entry))
            &&& trashed_entries(boards.push(entry)) == trashed_entries(boards).push(entry)
            &&& active_entries(boards.push(entry)) == active_entries(boards)
            &&& trashed_entries(boards).len() == 0 ==> newest_first(
                trashed_entries(boards.push(entry)),
            ) == seq![entry]
        }),
{
    let first = created_entry(id, name, created_at);
    let created = boards.push(first);
    let kept = MetaView { id, name: document.name, updated_at: saved_at, deleted_at: None };
    let entry = MetaView {
        id,
        name: document.name,
        updated_at: saved_at,
        deleted_at: Some(deleted_at),
    };
    let at = boards.len() as int;
    lemma_push_keeps_ids(boards, first);
    assert(position(created, id) == Some(at));
    let saved = upserted(created, id, document.name, saved_at);
    assert(saved == boards.push(kept));
    lemma_push_keeps_ids(boards, kept);
    assert(position(saved, id) == Some(at));
    assert(saved.update(at, entry) == boards.push(entry));
    boards.lemma_filter_push(entry, |m: MetaView| m.deleted_at is Some);
    boards.lemma_filter_push(entry, |m: MetaView| m.deleted_at is None);
    if trashed_entries(boards).len() == 0 {
        let listed = trashed_entries(boards.push(entry));
        assert(listed == seq![entry]);
        assert(listed.drop_last() == Seq::<MetaView>::empty());
        assert(newest_first(listed.drop_last()) == Seq::<MetaView>::empty());
        assert(Seq::<MetaView>::empty().insert(0, entry) == seq![entry]);
    }
}

/// A board that comes back from the trash shows among the active boards
/// again, and after another deletion emptying the trash removes it for
/// good: no entry with its identifier is left.
pub proof fn lemma_restored_board_is_listed(
    boards: Seq<MetaView>,
    id: Seq<char>,
    trashed: MetaView,
    document_name: Option<Seq<char>>,
    restored_at: i64,
    deleted_at: i64,
)
    requires
        valid_board_id(id),
        position(boards, id) is None,
        trashed.id == id,
    ensures
        ({
            let back = MetaView {
                id,
                name: restored_name(id, document_name),
                updated_at: restored_at,
                deleted_at: None,
            };
            let gone = MetaView {
                id,
                name: back.name,
                updated_at: restored_at,
                deleted_at: Some(deleted_at),
            };
            &&& upserted(boards.push(trashed), id, back.name, restored_at) == boards.push(back)
            &&& active_entries(boards.push(back)) == active_entries(boards).push(back)
            &&& trashed_entries(boards.push(back)) == trashed_entries(boards)
            &&& delete_outcome(boards.push(back), id, deleted_at) == Ok::<
                Seq<MetaView>,
                StoreError,
            >(boards.push(gone))
            &&& active_entries(boards.push(gone)) == active_entries(boards)
            &&& position(active_entries(boards.push(gone)), id) is None
        }),
{
    let back = MetaView {
        id,
        name: restored_name(id, document_name),
        updated_at: restored_at,
        deleted_at: None,
    };
    let gone = MetaView {
        id,
        name: back.name,
        updated_at: restored_at,
        deleted_at: Some(deleted_at),
    };
    let at = boards.len() as int;
    lemma_push_keeps_ids(boards, trashed);
    assert(position(boards.push(trashed), id) == Some(at));
    assert(boards.push(trashed).update(at, back) == boards.push(back));
    lemma_push_keeps_ids(boards, back);
    assert(boards.push(back).update(at, gone) == boards.push(gone));
    boards.lemma_filter_push(back, |m: MetaView| m.deleted_at is Some);
    boards.lemma_filter_push(back, |m: MetaView| m.deleted_at is None);
    boards.lemma_filter_push(gone, |m: MetaView| m.deleted_at is None);
    let active = active_entries(boards);
    lemma_position(active, id);
    if position(active, id) is Some {
        let k = position(active, id).unwrap();
        assert(active.contains(active[k]));
        boards.lemma_filter_contains_rev(|m: MetaView| m.deleted_at is None, active[k]);
        let j = choose|j: int| 0 <= j < boards.len() && boards[j] == active[k];
        lemma_position(boards, id);
        assert(boards[j].id == id);
    }
}

} // verus!
