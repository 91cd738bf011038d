//! Operations on the board index: lookup, upsert, soft delete, purge and the
//! two listings.
//!
//! The functions are total: they accept an index that holds an identifier
//! twice, and then act on the first entry that carries it. Each of them keeps
//! a well-formed index well-formed.

use crate::model::{meta_views, unique_ids, BoardIndex, BoardMeta, MetaView};
use vstd::prelude::*;

verus! {

/// The name used for a board that the index does not know.
pub open spec fn untitled() -> Seq<char> {
    "Untitled"@
}

/// The position of the first entry with identifier `id`.
pub open spec fn position(boards: Seq<MetaView>, id: Seq<char>) -> Option<int>
    decreases boards.len(),
{
    if boards.len() == 0 {
        None
    } else {
        match position(boards.drop_last(), id) {
            Some(i) => Some(i),
            None => if boards.last().id == id {
                Some(boards.len() - 1)
            } else {
                None
            },
        }
    }
}

/// `position` finds the first entry with the identifier, and finds none only
/// where no entry has it.
pub proof fn lemma_position(boards: Seq<MetaView>, id: Seq<char>)
    ensures
        match position(boards, id) {
            Some(i) => {
                &&& 0 <= i < boards.len()
                &&& boards[i].id == id
                &&& forall|j: int| 0 <= j < i ==> (#[trigger] boards[j]).id != id
            },
            None => forall|j: int| 0 <= j < boards.len() ==> (#[trigger] boards[j]).id != id,
        },
    decreases boards.len(),
{
    if boards.len() > 0 {
        let front = boards.drop_last();
        lemma_position(front, id);
        assert(forall|j: int| 0 <= j < front.len() ==> front[j] == boards[j]);
    }
}

/// The first entry with the identifier is what `position` returns.
pub proof fn lemma_position_is(boards: Seq<MetaView>, id: Seq<char>, i: int)
    requires
        0 <= i < boards.len(),
        boards[i].id == id,
        forall|j: int| 0 <= j < i ==> (#[trigger] boards[j]).id != id,
    ensures
        position(boards, id) == Some(i),
{
    lemma_position(boards, id);
}

/// Where no entry has the identifier, `position` returns `None`.
pub proof fn lemma_position_none(boards: Seq<MetaView>, id: Seq<char>)
    requires
        forall|j: int| 0 <= j < boards.len() ==> (#[trigger] boards[j]).id != id,
    ensures
        position(boards, id) is None,
{
    lemma_position(boards, id);
}

/// The entries after an upsert: the first entry with the identifier gets the
/// name and the time and becomes active; where there is none, a new active
/// entry is appended.
pub open spec fn upserted(boards: Seq<MetaView>, id: Seq<char>, name: Seq<char>, now: i64) -> Seq<
    MetaView,
> {
    match position(boards, id) {
        Some(i) => boards.update(
            i,
            MetaView { id: boards[i].id, name, updated_at: now, deleted_at: None },
        ),
        None => boards.push(MetaView { id, name, updated_at: now, deleted_at: None }),
    }
}

/// The entries after a soft delete of the first entry with the identifier.
pub open spec fn marked_deleted(boards: Seq<MetaView>, i: int, now: i64) -> Seq<MetaView> {
    boards.update(
        i,
        MetaView {
            id: boards[i].id,
            name: boards[i].name,
            updated_at: boards[i].updated_at,
            deleted_at: Some(now),
        },
    )
}

/// The active entries, in index order.
pub open spec fn active_entries(boards: Seq<MetaView>) -> Seq<MetaView> {
    boards.filter(|m: MetaView| m.deleted_at is None)
}

/// The trashed entries, in index order.
pub open spec fn trashed_entries(boards: Seq<MetaView>) -> Seq<MetaView> {
    boards.filter(|m: MetaView| m.deleted_at is Some)
}

/// The name that the index holds for `id`, or "Untitled".
pub open spec fn name_or_untitled(boards: Seq<MetaView>, id: Seq<char>) -> Seq<char> {
    match position(boards, id) {
        Some(i) => boards[i].name,
        None => untitled(),
    }
}

/// Replacing an entry by one with the same identifier moves no identifier.
pub proof fn lemma_update_keeps_ids(boards: Seq<MetaView>, i: int, entry: MetaView)
    requires
        0 <= i < boards.len(),
        entry.id == boards[i].id,
    ensures
        unique_ids(boards) ==> unique_ids(boards.update(i, entry)),
        forall|id: Seq<char>| position(boards.update(i, entry), id) == position(boards, id),
{
    let after = boards.update(i, entry);
    assert forall|id: Seq<char>| position(after, id) == position(boards, id) by {
        lemma_position(boards, id);
        lemma_position(after, id);
        match position(boards, id) {
            Some(k) => {
                assert(after[k].id == id);
                assert forall|j: int| 0 <= j < k implies (#[trigger] after[j]).id != id by {
                    assert(boards[j].id != id);
                }
                lemma_position_is(after, id, k);
            },
            None => {
                assert forall|j: int| 0 <= j < after.len() implies (#[trigger] after[j]).id
                    != id by {
                    assert(boards[j].id != id);
                }
                lemma_position_none(after, id);
            },
        }
    }
    if unique_ids(boards) {
        assert forall|a: int, b: int| 0 <= a < b < after.len() implies (#[trigger] after[a]).id != (
        #[trigger] after[b]).id by {
            assert(boards[a].id != boards[b].id);
        }
    }
}

/// An upsert keeps the index invariant.
pub proof fn lemma_upsert_keeps_unique(
    boards: Seq<MetaView>,
    id: Seq<char>,
    name: Seq<char>,
    now: i64,
)
    requires
        unique_ids(boards),
    ensures
        unique_ids(upserted(boards, id, name, now)),
{
    lemma_position(boards, id);
    match position(boards, id) {
        Some(i) => {
            lemma_update_keeps_ids(
                boards,
                i,
                MetaView { id: boards[i].id, name, updated_at: now, deleted_at: None },
            );
        },
        None => {
            let entry = MetaView { id, name, updated_at: now, deleted_at: None };
            let after = boards.push(entry);
            assert forall|a: int, b: int| 0 <= a < b < after.len() implies (#[trigger] after[a]).id
                != (#[trigger] after[b]).id by {
                if b < boards.len() {
                    assert(boards[a].id != boards[b].id);
                } else {
                    assert(boards[a].id != id);
                }
            }
        },
    }
}

/// Appending an entry with a new identifier keeps the entries unique, and
/// moves no entry.
pub proof fn lemma_push_keeps_ids(boards: Seq<MetaView>, entry: MetaView)
    ensures
        position(boards, entry.id) is None && unique_ids(boards) ==> unique_ids(
            boards.push(entry),
        ),
        forall|id: Seq<char>|
            position(boards.push(entry), id) == match position(boards, id) {
                Some(i) => Some(i),
                None => if entry.id == id {
                    Some(boards.len() as int)
                } else {
                    None
                },
            },
{
    let after = boards.push(entry);
    assert(after.drop_last() == boards);
    assert(after.last() == entry);
    if position(boards, entry.id) is None && unique_ids(boards) {
        lemma_position(boards, entry.id);
        assert forall|a: int, b: int| 0 <= a < b < after.len() implies (#[trigger] after[a]).id != (
        #[trigger] after[b]).id by {
            if b < boards.len() {
                assert(boards[a].id != boards[b].id);
            } else {
                assert(boards[a].id != entry.id);
            }
        }
    }
}

/// Keeping the entries that meet a condition keeps the entries unique, and
/// keeps exactly those identifiers whose entry meets the condition.
pub proof fn lemma_filter_keeps_ids(boards: Seq<MetaView>, keep: spec_fn(MetaView) -> bool)
    requires
        unique_ids(boards),
    ensures
        unique_ids(boards.filter(keep)),
        forall|id: Seq<char>|
            match position(boards, id) {
                Some(i) if keep(boards[i]) => {
                    &&& #[trigger] position(boards.filter(keep), id) is Some
                    &&& boards.filter(keep)[position(boards.filter(keep), id).unwrap()]
                        == boards[i]
                },
                _ => #[trigger] position(boards.filter(keep), id) is None,
            },
    decreases boards.len(),
{
    if boards.len() == 0 {
        assert(boards.filter(keep) == boards);
    } else {
        let front = boards.drop_last();
        let last = boards.last();
        let kept = front.filter(keep);
        let out = boards.filter(keep);
        assert(boards == front.push(last));
        assert(unique_ids(front)) by {
            assert forall|a: int, b: int| 0 <= a < b < front.len() implies (#[trigger] front[a]).id
                != (#[trigger] front[b]).id by {
                assert(boards[a].id != boards[b].id);
            }
        }
        lemma_filter_keeps_ids(front, keep);
        front.lemma_filter_push(last, keep);
        lemma_push_keeps_ids(kept, last);
        lemma_position(front, last.id);
        assert(position(front, last.id) is None) by {
            if position(front, last.id) is Some {
                let i = position(front, last.id).unwrap();
                assert(boards[i].id == boards[boards.len() - 1].id);
            }
        }
        assert(position(kept, last.id) is None);
        assert forall|id: Seq<char>|
            match position(boards, id) {
                Some(i) if keep(boards[i]) => {
                    &&& #[trigger] position(out, id) is Some
                    &&& out[position(out, id).unwrap()] == boards[i]
                },
                _ => #[trigger] position(out, id) is None,
            } by {
            lemma_position(front, id);
            lemma_position(kept, id);
            match position(front, id) {
                Some(i) => {
                    assert(front[i] == boards[i]);
                    if keep(front[i]) {
                        let k = position(kept, id).unwrap();
                        if keep(last) {
                            assert(out[k] == kept[k]);
                        }
                    }
                },
                None => {},
            }
        }
    }
}

/// The position of the first entry of `boards` with identifier `id`.
pub fn find_board(boards: &Vec<BoardMeta>, id: &str) -> (found: Option<usize>)
    ensures
        match found {
            Some(i) => i < boards.len() && position(meta_views(boards@), id@) == Some(i as int),
            None => position(meta_views(boards@), id@) is None,
        },
{
    let wanted = id.to_string();
    let ghost views = meta_views(boards@);
    let mut i: usize = 0;
    while i < boards.len()
        invariant
            i <= boards.len(),
            wanted@ == id@,
            views == meta_views(boards@),
            forall|j: int| 0 <= j < i ==> (#[trigger] views[j]).id != id@,
        decreases boards.len() - i,
    {
        if boards[i].id == wanted {
            proof {
                lemma_position_is(views, id@, i as int);
            }
            return Some(i);
        }
        i += 1;
    }
    proof {
        lemma_position_none(views, id@);
    }
    None
}

/// The name that `index` holds for `board_id`, or "Untitled" where it holds
/// none.
pub fn board_name_or_default(index: &BoardIndex, board_id: &str) -> (name: String)
    ensures
        name@ == name_or_untitled(index@.boards, board_id@),
{
    match find_board(&index.boards, board_id) {
        Some(i) => index.boards[i].name.clone(),
        None => "Untitled".to_string(),
    }
}

/// Makes sure that `index` holds an active entry for `board_id` with this
/// name, stamped `now`.
///
/// The first entry with the identifier gets the name and the time and loses
/// its deletion mark; where there is none, an entry is appended.
pub fn ensure_board_index_contains(
    index: BoardIndex,
    board_id: &str,
    board_name: &str,
    now: i64,
) -> (next: BoardIndex)
    ensures
        next@.version == index@.version,
        next@.boards == upserted(index@.boards, board_id@, board_name@, now),
        index.wf() ==> next.wf(),
{
    let mut next = index;
    let ghost before = next@.boards;
    proof {
        if unique_ids(before) {
            lemma_upsert_keeps_unique(before, board_id@, board_name@, now);
        }
        lemma_position(before, board_id@);
    }
    match find_board(&next.boards, board_id) {
        Some(i) => {
            let entry = BoardMeta {
                id: next.boards[i].id.clone(),
                name: board_name.to_string(),
                updated_at: now,
                deleted_at: None,
            };
            next.boards.set(i, entry);
            assert(next@.boards == upserted(before, board_id@, board_name@, now));
        },
        None => {
            let entry = BoardMeta {
                id: board_id.to_string(),
                name: board_name.to_string(),
                updated_at: now,
                deleted_at: None,
            };
            next.boards.push(entry);
            assert(next@.boards == upserted(before, board_id@, board_name@, now));
        },
    }
    next
}

/// The active boards of `index`, in index order.
pub fn list_boards(index: &BoardIndex) -> (boards: Vec<BoardMeta>)
    ensures
        meta_views(boards@) == active_entries(index@.boards),
{
    let ghost views = meta_views(index.boards@);
    let mut out: Vec<BoardMeta> = Vec::new();
    let mut i: usize = 0;
    assert(views.take(0) == Seq::<MetaView>::empty());
    while i < index.boards.len()
        invariant
            i <= index.boards.len(),
            views == meta_views(index.boards@),
            meta_views(out@) == active_entries(views.take(i as int)),
        decreases index.boards.len() - i,
    {
        proof {
            assert(views.take(i + 1) == views.take(i as int).push(views[i as int]));
            views.take(i as int).lemma_filter_push(
                views[i as int],
                |m: MetaView| m.deleted_at is None,
            );
        }
        if index.boards[i].deleted_at.is_none() {
            let ghost shown = meta_views(out@);
            out.push(index.boards[i].duplicate());
            assert(meta_views(out@) == shown.push(views[i as int]));
        }
        i += 1;
    }
    assert(views.take(i as int) == views);
    out
}

/// The time by which a trashed entry is ordered; zero for an active one.
pub open spec fn deletion_time(entry: MetaView) -> int {
    match entry.deleted_at {
        Some(t) => t as int,
        None => 0,
    }
}

/// Where an entry deleted at `time` goes into `sorted`: before the first
/// entry that was not deleted later.
pub open spec fn insertion_point(sorted: Seq<MetaView>, time: int) -> int
    decreases sorted.len(),
{
    if sorted.len() == 0 || deletion_time(sorted[0]) <= time {
        0
    } else {
        1 + insertion_point(sorted.drop_first(), time)
    }
}

/// The entries ordered by deletion time, newest first; of two entries
/// deleted at the same time, the later one of `entries` comes first.
pub open spec fn newest_first(entries: Seq<MetaView>) -> Seq<MetaView>
    decreases entries.len(),
{
    if entries.len() == 0 {
        Seq::empty()
    } else {
        let rest = newest_first(entries.drop_last());
        rest.insert(insertion_point(rest, deletion_time(entries.last())), entries.last())
    }
}

/// Whether the deletion times never rise along the sequence.
pub open spec fn is_newest_first(entries: Seq<MetaView>) -> bool {
    forall|i: int, j: int|
        0 <= i < j < entries.len() ==> deletion_time(#[trigger] entries[i]) >= deletion_time(
            #[trigger] entries[j],
        )
}

/// The insertion point lies within the sequence, after every entry deleted
/// later and at an entry that was not.
pub proof fn lemma_insertion_point(sorted: Seq<MetaView>, time: int)
    ensures
        0 <= insertion_point(sorted, time) <= sorted.len(),
        forall|i: int|
            0 <= i < insertion_point(sorted, time) ==> deletion_time(#[trigger] sorted[i]) > time,
        insertion_point(sorted, time) < sorted.len() ==> deletion_time(
            sorted[insertion_point(sorted, time)],
        ) <= time,
    decreases sorted.len(),
{
    if !(sorted.len() == 0 || deletion_time(sorted[0]) <= time) {
        let rest = sorted.drop_first();
        lemma_insertion_point(rest, time);
        assert forall|i: int| 0 <= i < insertion_point(sorted, time) implies deletion_time(
            #[trigger] sorted[i],
        ) > time by {
            if i > 0 {
                assert(sorted[i] == rest[i - 1]);
            }
        }
        if insertion_point(sorted, time) < sorted.len() {
            assert(sorted[insertion_point(sorted, time)] == rest[insertion_point(rest, time)]);
        }
    }
}

/// `newest_first` orders by deletion time, newest first, and neither loses
/// nor invents an entry.
pub proof fn lemma_newest_first(entries: Seq<MetaView>)
    ensures
        is_newest_first(newest_first(entries)),
        newest_first(entries).to_multiset() == entries.to_multiset(),
        newest_first(entries).len() == entries.len(),
    decreases entries.len(),
{
    broadcast use vstd::seq_lib::group_to_multiset_ensures;

    if entries.len() == 0 {
        assert(newest_first(entries) == entries);
    } else {
        let front = entries.drop_last();
        let last = entries.last();
        let rest = newest_first(front);
        let at = insertion_point(rest, deletion_time(last));
        lemma_newest_first(front);
        lemma_insertion_point(rest, deletion_time(last));
        let out = rest.insert(at, last);
        assert forall|i: int, j: int| 0 <= i < j < out.len() implies deletion_time(
            #[trigger] out[i],
        ) >= deletion_time(#[trigger] out[j]) by {
            if j < at {
                assert(out[i] == rest[i] && out[j] == rest[j]);
            } else if j == at {
                assert(out[i] == rest[i]);
            } else if i < at {
                assert(out[i] == rest[i] && out[j] == rest[j - 1]);
                if at < rest.len() {
                    assert(deletion_time(rest[at]) <= deletion_time(last));
                    if j - 1 > at {
                        assert(deletion_time(rest[at]) >= deletion_time(rest[j - 1]));
                    }
                }
            } else if i == at {
                assert(out[j] == rest[j - 1]);
                if j - 1 > at {
                    assert(deletion_time(rest[at]) >= deletion_time(rest[j - 1]));
                }
            } else {
                assert(out[i] == rest[i - 1] && out[j] == rest[j - 1]);
            }
        }
        assert(entries == front.push(last));
        assert(out.to_multiset() == rest.to_multiset().insert(last));
        assert(entries.to_multiset() == front.to_multiset().insert(last));
    }
}

/// The first position of `sorted` whose entry was not deleted after `time`.
fn find_insertion_point(sorted: &Vec<BoardMeta>, time: i64) -> (at: usize)
    ensures
        at == insertion_point(meta_views(sorted@), time as int),
        at <= sorted.len(),
{
    let ghost views = meta_views(sorted@);
    let mut at: usize = 0;
    assert(views.skip(0) == views);
    while at < sorted.len() && deleted_time_of(&sorted[at]) > time
        invariant
            at <= sorted.len(),
            views == meta_views(sorted@),
            insertion_point(views, time as int) == at + insertion_point(
                views.skip(at as int),
                time as int,
            ),
        decreases sorted.len() - at,
    {
        proof {
            assert(views.skip(at as int)[0] == sorted[at as int]@);
            assert(views.skip(at as int).drop_first() == views.skip(at + 1));
        }
        at += 1;
    }
    proof {
        if at < sorted.len() {
            assert(views.skip(at as int)[0] == sorted[at as int]@);
        }
    }
    at
}

/// The time by which `entry` is ordered in the trash listing.
fn deleted_time_of(entry: &BoardMeta) -> (time: i64)
    ensures
        time == deletion_time(entry@),
{
    match entry.deleted_at {
        Some(t) => t,
        None => 0,
    }
}

/// The trashed boards of `index`, the one deleted last first.
pub fn list_trashed_boards(index: &BoardIndex) -> (boards: Vec<BoardMeta>)
    ensures
        meta_views(boards@) == newest_first(trashed_entries(index@.boards)),
        is_newest_first(meta_views(boards@)),
{
    let ghost views = meta_views(index.boards@);
    let mut out: Vec<BoardMeta> = Vec::new();
    let mut i: usize = 0;
    assert(views.take(0) == Seq::<MetaView>::empty());
    while i < index.boards.len()
        invariant
            i <= index.boards.len(),
            views == meta_views(index.boards@),
            meta_views(out@) == newest_first(trashed_entries(views.take(i as int))),
        decreases index.boards.len() - i,
    {
        proof {
            assert(views.take(i + 1) == views.take(i as int).push(views[i as int]));
            views.take(i as int).lemma_filter_push(
                views[i as int],
                |m: MetaView| m.deleted_at is Some,
            );
        }
        if index.boards[i].deleted_at.is_some() {
            let ghost shown = meta_views(out@);
            let ghost kept = trashed_entries(views.take(i as int));
            let entry = index.boards[i].duplicate();
            let at = find_insertion_point(&out, deleted_time_of(&entry));
            out.insert(at, entry);
            proof {
                let next = kept.push(views[i as int]);
                assert(next.drop_last() == kept);
                assert(next.last() == views[i as int]);
                assert(meta_views(out@) == shown.insert(at as int, views[i as int]));
            }
        }
        i += 1;
    }
    proof {
        assert(views.take(i as int) == views);
        lemma_newest_first(trashed_entries(views));
    }
    out
}

/// The index without its trashed entries.
pub fn remove_trashed(index: &BoardIndex) -> (next: BoardIndex)
    ensures
        next@.version == index@.version,
        next@.boards == active_entries(index@.boards),
{
    BoardIndex { version: index.version, boards: list_boards(index) }
}

} // verus!
