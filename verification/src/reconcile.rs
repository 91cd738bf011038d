//! Bringing the index in line with the directories on disk.
//!
//! The directories are the truth about which boards exist; the index is a
//! cache of their names and times. A rebuild makes the index from a scan
//! alone. A sync takes in what the scan saw and drops every entry whose place
//! on disk, active or trashed, was not seen.

use crate::index::{
    find_board, lemma_filter_keeps_ids, lemma_position, lemma_position_is, lemma_push_keeps_ids,
    lemma_update_keeps_ids, position,
};
use crate::model::{
    meta_views, unique_ids, BoardIndex, BoardMeta, IndexView, MetaView, INDEX_VERSION,
};
use crate::scan::{
    dir_is_board, dir_views, is_board_dir, lemma_sightings_push, sighted_ids, sighted_name,
    sighted_stamp, sighting_of, sightings, DirEntry, DirView, DiskScan, ScanView, Sighting,
};
use vstd::prelude::*;

verus! {

/// The entry that a sighting leaves where the index had none.
pub open spec fn fresh_entry(seen: Sighting, trashed: bool) -> MetaView {
    MetaView {
        id: seen.id,
        name: seen.name,
        updated_at: seen.stamp,
        deleted_at: if trashed {
            Some(seen.stamp)
        } else {
            None
        },
    }
}

/// The entry that a sighting makes of the one the index had: name and time
/// are taken from disk; a board seen in the trash is marked deleted at that
/// time, one seen among the active boards keeps whatever mark it had.
pub open spec fn merged_entry(entry: MetaView, seen: Sighting, trashed: bool) -> MetaView {
    MetaView {
        id: entry.id,
        name: seen.name,
        updated_at: seen.stamp,
        deleted_at: if trashed {
            Some(seen.stamp)
        } else {
            entry.deleted_at
        },
    }
}

/// The entries after one sighting was taken in.
pub open spec fn take_in(boards: Seq<MetaView>, seen: Sighting, trashed: bool) -> Seq<MetaView> {
    match position(boards, seen.id) {
        Some(i) => boards.update(i, merged_entry(boards[i], seen, trashed)),
        None => boards.push(fresh_entry(seen, trashed)),
    }
}

/// The entries after all sightings were taken in, in order.
pub open spec fn take_in_all(boards: Seq<MetaView>, seen: Seq<Sighting>, trashed: bool) -> Seq<
    MetaView,
>
    decreases seen.len(),
{
    if seen.len() == 0 {
        boards
    } else {
        take_in(take_in_all(boards, seen.drop_last(), trashed), seen.last(), trashed)
    }
}

/// Whether taking in the sightings altered the entries at any step.
pub open spec fn altered_by(boards: Seq<MetaView>, seen: Seq<Sighting>, trashed: bool) -> bool
    decreases seen.len(),
{
    if seen.len() == 0 {
        false
    } else {
        let before = take_in_all(boards, seen.drop_last(), trashed);
        altered_by(boards, seen.drop_last(), trashed) || take_in(before, seen.last(), trashed)
            != before
    }
}

/// Whether the place that an entry claims, the trash where it is marked
/// deleted and the board root where it is not, was seen on disk.
pub open spec fn is_located(entry: MetaView, active: Set<Seq<char>>, trashed: Set<Seq<char>>) -> bool {
    if entry.deleted_at is Some {
        trashed.contains(entry.id)
    } else {
        active.contains(entry.id)
    }
}

/// The entries whose claimed place was seen.
pub open spec fn pruned(boards: Seq<MetaView>, active: Set<Seq<char>>, trashed: Set<Seq<char>>) -> Seq<
    MetaView,
> {
    boards.filter(|m: MetaView| is_located(m, active, trashed))
}

/// The entries after a sync with the scan, and whether anything changed.
pub open spec fn synced(boards: Seq<MetaView>, scan: ScanView, now: i64) -> (Seq<MetaView>, bool) {
    let active = sightings(scan.active, now);
    let trashed = sightings(scan.trashed, now);
    let first = take_in_all(boards, active, false);
    let second = take_in_all(first, trashed, true);
    let last = pruned(second, sighted_ids(active), sighted_ids(trashed));
    (
        last,
        altered_by(boards, active, false) || altered_by(first, trashed, true) || last.len()
            != second.len(),
    )
}

/// The entries of an index made from the scan alone: the active boards in
/// scan order, then the trashed ones.
pub open spec fn rebuilt(scan: ScanView, now: i64) -> Seq<MetaView> {
    sightings(scan.active, now).map_values(|s: Sighting| fresh_entry(s, false)) + sightings(
        scan.trashed,
        now,
    ).map_values(|s: Sighting| fresh_entry(s, true))
}

/// What reading the index gives: a rebuild where no usable index was stored
/// or the stored one is empty, else a sync of the stored one. The flag says
/// whether the result is to be written back.
pub open spec fn index_read(stored: Option<IndexView>, scan: ScanView, now: i64) -> (IndexView, bool) {
    match stored {
        Some(index) if index.boards.len() > 0 => {
            let (boards, changed) = synced(index.boards, scan, now);
            (IndexView { version: index.version, boards }, changed)
        },
        _ => (IndexView { version: INDEX_VERSION, boards: rebuilt(scan, now) }, true),
    }
}

/// The entry that the index holds for an identifier.
pub open spec fn entry_of(boards: Seq<MetaView>, id: Seq<char>) -> Option<MetaView> {
    match position(boards, id) {
        Some(i) => Some(boards[i]),
        None => None,
    }
}

/// What a sighting makes of the entry that the index held, if any.
pub open spec fn taken_in(entry: Option<MetaView>, seen: Sighting, trashed: bool) -> MetaView {
    match entry {
        Some(e) => merged_entry(e, seen, trashed),
        None => fresh_entry(seen, trashed),
    }
}

/// Whether the index already says of a board what the sighting says.
pub open spec fn settled_on(boards: Seq<MetaView>, seen: Sighting, trashed: bool) -> bool {
    match entry_of(boards, seen.id) {
        Some(e) => e.name == seen.name && e.updated_at == seen.stamp && (trashed ==> e.deleted_at
            == Some(seen.stamp)),
        None => false,
    }
}

/// No identifier is sighted twice.
pub open spec fn distinct_sightings(seen: Seq<Sighting>) -> bool {
    forall|j: int, k: int|
        0 <= j < k < seen.len() ==> (#[trigger] seen[j]).id != (#[trigger] seen[k]).id
}

/// Taking in one sighting touches the entry of its board and no other.
pub proof fn lemma_take_in(boards: Seq<MetaView>, seen: Sighting, trashed: bool)
    requires
        unique_ids(boards),
    ensures
        unique_ids(take_in(boards, seen, trashed)),
        entry_of(take_in(boards, seen, trashed), seen.id) == Some(
            taken_in(entry_of(boards, seen.id), seen, trashed),
        ),
        forall|id: Seq<char>|
            id != seen.id ==> #[trigger] entry_of(take_in(boards, seen, trashed), id) == entry_of(
                boards,
                id,
            ),
        settled_on(boards, seen, trashed) ==> take_in(boards, seen, trashed) == boards,
{
    let after = take_in(boards, seen, trashed);
    lemma_position(boards, seen.id);
    match position(boards, seen.id) {
        Some(i) => {
            let entry = merged_entry(boards[i], seen, trashed);
            lemma_update_keeps_ids(boards, i, entry);
            assert forall|id: Seq<char>| id != seen.id implies #[trigger] entry_of(after, id)
                == entry_of(boards, id) by {
                lemma_position(boards, id);
            }
            if settled_on(boards, seen, trashed) {
                assert(entry == boards[i]);
                assert(after =~= boards);
            }
        },
        None => {
            lemma_push_keeps_ids(boards, fresh_entry(seen, trashed));
            assert forall|id: Seq<char>| id != seen.id implies #[trigger] entry_of(after, id)
                == entry_of(boards, id) by {
                lemma_position(boards, id);
            }
        },
    }
}

/// Taking in sightings of distinct boards gives each of them the entry
/// that its sighting makes, and touches no other entry.
pub proof fn lemma_take_in_all(boards: Seq<MetaView>, seen: Seq<Sighting>, trashed: bool)
    requires
        unique_ids(boards),
        distinct_sightings(seen),
    ensures
        unique_ids(take_in_all(boards, seen, trashed)),
        forall|k: int|
            0 <= k < seen.len() ==> entry_of(
                take_in_all(boards, seen, trashed),
                (#[trigger] seen[k]).id,
            ) == Some(taken_in(entry_of(boards, seen[k].id), seen[k], trashed)),
        forall|id: Seq<char>|
            !sighted_ids(seen).contains(id) ==> #[trigger] entry_of(
                take_in_all(boards, seen, trashed),
                id,
            ) == entry_of(boards, id),
    decreases seen.len(),
{
    if seen.len() > 0 {
        let front = seen.drop_last();
        let last = seen.last();
        let mid = take_in_all(boards, front, trashed);
        let out = take_in_all(boards, seen, trashed);
        assert(distinct_sightings(front)) by {
            assert forall|j: int, k: int| 0 <= j < k < front.len() implies (#[trigger] front[j]).id
                != (#[trigger] front[k]).id by {
                assert(seen[j].id != seen[k].id);
            }
        }
        lemma_take_in_all(boards, front, trashed);
        lemma_take_in(mid, last, trashed);
        assert(!sighted_ids(front).contains(last.id)) by {
            if sighted_ids(front).contains(last.id) {
                let j = choose|j: int| 0 <= j < front.len() && (#[trigger] front[j]).id == last.id;
                assert(seen[j].id != seen[seen.len() - 1].id);
            }
        }
        assert forall|k: int| 0 <= k < seen.len() implies entry_of(out, (#[trigger] seen[k]).id)
            == Some(taken_in(entry_of(boards, seen[k].id), seen[k], trashed)) by {
            if k < front.len() {
                assert(front[k] == seen[k]);
                assert(seen[k].id != seen[seen.len() - 1].id);
            }
        }
        assert forall|id: Seq<char>| !sighted_ids(seen).contains(id) implies #[trigger] entry_of(
            out,
            id,
        ) == entry_of(boards, id) by {
            assert(id != last.id) by {
                if id == last.id {
                    assert(seen[seen.len() - 1].id == id);
                }
            }
            assert(!sighted_ids(front).contains(id)) by {
                if sighted_ids(front).contains(id) {
                    let j = choose|j: int| 0 <= j < front.len() && (#[trigger] front[j]).id == id;
                    assert(seen[j].id == id);
                }
            }
        }
    }
}

/// Taking in sightings keeps the index invariant.
pub proof fn lemma_take_in_all_keeps_unique(
    boards: Seq<MetaView>,
    seen: Seq<Sighting>,
    trashed: bool,
)
    requires
        unique_ids(boards),
    ensures
        unique_ids(take_in_all(boards, seen, trashed)),
    decreases seen.len(),
{
    if seen.len() > 0 {
        lemma_take_in_all_keeps_unique(boards, seen.drop_last(), trashed);
        lemma_take_in(take_in_all(boards, seen.drop_last(), trashed), seen.last(), trashed);
    }
}

/// A sync keeps the index invariant, whatever the scan holds.
pub proof fn lemma_sync_keeps_unique(boards: Seq<MetaView>, scan: ScanView, now: i64)
    requires
        unique_ids(boards),
    ensures
        unique_ids(synced(boards, scan, now).0),
{
    let active = sightings(scan.active, now);
    let trashed = sightings(scan.trashed, now);
    let first = take_in_all(boards, active, false);
    let second = take_in_all(first, trashed, true);
    lemma_take_in_all_keeps_unique(boards, active, false);
    lemma_take_in_all_keeps_unique(first, trashed, true);
    lemma_filter_keeps_ids(
        second,
        |m: MetaView| is_located(m, sighted_ids(active), sighted_ids(trashed)),
    );
}

/// Taking in sightings that the index is settled on changes nothing.
pub proof fn lemma_settled_pass(boards: Seq<MetaView>, seen: Seq<Sighting>, trashed: bool)
    requires
        unique_ids(boards),
        forall|k: int| 0 <= k < seen.len() ==> settled_on(boards, #[trigger] seen[k], trashed),
    ensures
        take_in_all(boards, seen, trashed) == boards,
        !altered_by(boards, seen, trashed),
    decreases seen.len(),
{
    if seen.len() > 0 {
        let front = seen.drop_last();
        assert forall|k: int| 0 <= k < front.len() implies settled_on(
            boards,
            #[trigger] front[k],
            trashed,
        ) by {
            assert(front[k] == seen[k]);
        }
        lemma_settled_pass(boards, front, trashed);
        assert(settled_on(boards, seen[seen.len() - 1], trashed));
        lemma_take_in(boards, seen.last(), trashed);
    }
}

/// Keeping the entries that all meet the condition keeps all of them.
pub proof fn lemma_filter_all(boards: Seq<MetaView>, keep: spec_fn(MetaView) -> bool)
    requires
        forall|i: int| 0 <= i < boards.len() ==> keep(#[trigger] boards[i]),
    ensures
        boards.filter(keep) == boards,
    decreases boards.len(),
{
    if boards.len() == 0 {
        assert(boards.filter(keep) == boards);
    } else {
        let front = boards.drop_last();
        assert forall|i: int| 0 <= i < front.len() implies keep(#[trigger] front[i]) by {
            assert(front[i] == boards[i]);
        }
        lemma_filter_all(front, keep);
        front.lemma_filter_push(boards.last(), keep);
        assert(boards == front.push(boards.last()));
    }
}

/// The scans on which a sync comes to rest at once: no directory is
/// listed twice; a board that lies only in the board root is not marked
/// deleted in the index; and a board that lies both in the root and in the
/// trash is seen under the same name and time in both.
pub open spec fn settles(boards: Seq<MetaView>, scan: ScanView, now: i64) -> bool {
    let active = sightings(scan.active, now);
    let trashed = sightings(scan.trashed, now);
    &&& distinct_sightings(active)
    &&& distinct_sightings(trashed)
    &&& forall|k: int|
        0 <= k < active.len() && !sighted_ids(trashed).contains((#[trigger] active[k]).id)
            ==> match entry_of(boards, active[k].id) {
            Some(e) => e.deleted_at is None,
            None => true,
        }
    &&& forall|j: int, k: int|
        0 <= j < active.len() && 0 <= k < trashed.len() && (#[trigger] active[j]).id == (
        #[trigger] trashed[k]).id ==> active[j].name == trashed[k].name && active[j].stamp
            == trashed[k].stamp
}

/// A sync is idempotent: syncing its result once more with the same scan
/// changes nothing and asks for no write.
pub proof fn lemma_sync_is_idempotent(boards: Seq<MetaView>, scan: ScanView, now: i64)
    requires
        unique_ids(boards),
        settles(boards, scan, now),
    ensures
        unique_ids(synced(boards, scan, now).0),
        synced(synced(boards, scan, now).0, scan, now) == (synced(boards, scan, now).0, false),
{
    let active = sightings(scan.active, now);
    let trashed = sightings(scan.trashed, now);
    let ids_a = sighted_ids(active);
    let ids_t = sighted_ids(trashed);
    let keep = |m: MetaView| is_located(m, ids_a, ids_t);
    let first = take_in_all(boards, active, false);
    let second = take_in_all(first, trashed, true);
    let last = pruned(second, ids_a, ids_t);
    lemma_take_in_all(boards, active, false);
    lemma_take_in_all(first, trashed, true);
    lemma_filter_keeps_ids(second, keep);
    assert forall|k: int| 0 <= k < trashed.len() implies settled_on(
        last,
        #[trigger] trashed[k],
        true,
    ) by {
        let id = trashed[k].id;
        assert(ids_t.contains(id));
        let e = taken_in(entry_of(first, id), trashed[k], true);
        assert(entry_of(second, id) == Some(e));
        lemma_position(first, id);
        assert(e.id == id);
        assert(keep(e));
        assert(position(last, id) is Some);
    }
    assert forall|k: int| 0 <= k < active.len() implies settled_on(
        last,
        #[trigger] active[k],
        false,
    ) by {
        let id = active[k].id;
        assert(ids_a.contains(id));
        let e1 = taken_in(entry_of(boards, id), active[k], false);
        assert(entry_of(first, id) == Some(e1));
        lemma_position(boards, id);
        lemma_position(first, id);
        assert(e1.id == id);
        if ids_t.contains(id) {
            let j = choose|j: int| 0 <= j < trashed.len() && (#[trigger] trashed[j]).id == id;
            let e2 = taken_in(entry_of(first, id), trashed[j], true);
            assert(entry_of(second, id) == Some(e2));
            assert(keep(e2));
            assert(position(last, id) is Some);
        } else {
            assert(entry_of(second, id) == Some(e1));
            assert(e1.deleted_at is None);
            assert(keep(e1));
            assert(position(last, id) is Some);
        }
    }
    lemma_settled_pass(last, active, false);
    lemma_settled_pass(last, trashed, true);
    assert forall|i: int| 0 <= i < last.len() implies keep(#[trigger] last[i]) by {
        second.lemma_filter_pred(keep, i);
    }
    lemma_filter_all(last, keep);
}

/// A rebuilt index is at rest: where every board lies in one place only, a
/// rebuild gives an index that holds each board once, and a sync of it with
/// the same scan changes nothing and asks for no write.
pub proof fn lemma_rebuilt_is_settled(scan: ScanView, now: i64)
    requires
        distinct_sightings(sightings(scan.active, now) + sightings(scan.trashed, now)),
    ensures
        unique_ids(rebuilt(scan, now)),
        synced(rebuilt(scan, now), scan, now) == (rebuilt(scan, now), false),
{
    let active = sightings(scan.active, now);
    let trashed = sightings(scan.trashed, now);
    let all = active + trashed;
    let made = rebuilt(scan, now);
    let ids_a = sighted_ids(active);
    let ids_t = sighted_ids(trashed);
    let keep = |m: MetaView| is_located(m, ids_a, ids_t);
    assert(made.len() == all.len());
    assert forall|i: int| 0 <= i < made.len() implies (#[trigger] made[i]).id == all[i].id by {
        if i < active.len() {
            assert(made[i] == fresh_entry(active[i], false));
        } else {
            assert(made[i] == fresh_entry(trashed[i - active.len()], true));
        }
    }
    assert forall|a: int, b: int| 0 <= a < b < made.len() implies (#[trigger] made[a]).id != (
    #[trigger] made[b]).id by {
        assert(all[a].id != all[b].id);
    }
    assert forall|k: int| 0 <= k < active.len() implies settled_on(
        made,
        #[trigger] active[k],
        false,
    ) by {
        assert(all[k] == active[k]);
        assert forall|j: int| 0 <= j < k implies (#[trigger] made[j]).id != active[k].id by {
            assert(all[j].id != all[k].id);
        }
        lemma_position_is(made, active[k].id, k);
        assert(made[k] == fresh_entry(active[k], false));
    }
    assert forall|k: int| 0 <= k < trashed.len() implies settled_on(
        made,
        #[trigger] trashed[k],
        true,
    ) by {
        let at = active.len() + k;
        assert(all[at] == trashed[k]);
        assert forall|j: int| 0 <= j < at implies (#[trigger] made[j]).id != trashed[k].id by {
            assert(all[j].id != all[at].id);
        }
        lemma_position_is(made, trashed[k].id, at);
        assert(made[at] == fresh_entry(trashed[k], true));
    }
    lemma_settled_pass(made, active, false);
    lemma_settled_pass(made, trashed, true);
    assert forall|i: int| 0 <= i < made.len() implies keep(#[trigger] made[i]) by {
        if i < active.len() {
            assert(made[i] == fresh_entry(active[i], false));
            assert(ids_a.contains(active[i].id));
        } else {
            let k = i - active.len();
            assert(made[i] == fresh_entry(trashed[k], true));
            assert(ids_t.contains(trashed[k].id));
        }
    }
    lemma_filter_all(made, keep);
}

/// Takes the board directories among `dirs` into `boards`.
fn take_in_dirs(boards: &mut Vec<BoardMeta>, dirs: &Vec<DirEntry>, now: i64, trashed: bool) -> (changed:
    bool)
    ensures
        meta_views(final(boards)@) == take_in_all(
            meta_views(old(boards)@),
            sightings(dir_views(dirs@), now),
            trashed,
        ),
        changed == altered_by(meta_views(old(boards)@), sightings(dir_views(dirs@), now), trashed),
{
    let ghost start = meta_views(boards@);
    let ghost all = dir_views(dirs@);
    let mut changed = false;
    let mut i: usize = 0;
    assert(all.take(0) == Seq::<DirView>::empty());
    assert(sightings(Seq::<DirView>::empty(), now) == Seq::<Sighting>::empty());
    while i < dirs.len()
        invariant
            i <= dirs.len(),
            all == dir_views(dirs@),
            start == meta_views(old(boards)@),
            meta_views(boards@) == take_in_all(start, sightings(all.take(i as int), now), trashed),
            changed == altered_by(start, sightings(all.take(i as int), now), trashed),
        decreases dirs.len() - i,
    {
        let dir = &dirs[i];
        let ghost seen_before = sightings(all.take(i as int), now);
        let ghost before = meta_views(boards@);
        proof {
            assert(all.take(i + 1) == all.take(i as int).push(all[i as int]));
            lemma_sightings_push(all.take(i as int), all[i as int], now);
            assert(all[i as int] == dir@);
        }
        if dir_is_board(dir) {
            let ghost seen = sighting_of(dir@, now);
            proof {
                let next = seen_before.push(seen);
                assert(next.drop_last() == seen_before);
                assert(next.last() == seen);
                lemma_position(before, seen.id);
            }
            let name = sighted_name(dir);
            let stamp = sighted_stamp(dir, now);
            match find_board(boards, dir.dir_name.as_str()) {
                Some(k) => {
                    let deleted = if trashed {
                        Some(stamp)
                    } else {
                        boards[k].deleted_at
                    };
                    let same = boards[k].name == name && boards[k].updated_at == stamp
                        && same_time(boards[k].deleted_at, deleted);
                    if !same {
                        let entry = BoardMeta {
                            id: boards[k].id.clone(),
                            name,
                            updated_at: stamp,
                            deleted_at: deleted,
                        };
                        boards.set(k, entry);
                        assert(meta_views(boards@) == take_in(before, seen, trashed));
                        assert(meta_views(boards@)[k as int] != before[k as int]);
                        changed = true;
                    } else {
                        assert(before == take_in(before, seen, trashed));
                    }
                },
                None => {
                    let entry = BoardMeta {
                        id: dir.dir_name.clone(),
                        name,
                        updated_at: stamp,
                        deleted_at: if trashed {
                            Some(stamp)
                        } else {
                            None
                        },
                    };
                    boards.push(entry);
                    assert(meta_views(boards@) == take_in(before, seen, trashed));
                    assert(meta_views(boards@).len() != before.len());
                    changed = true;
                },
            }
        }
        i += 1;
    }
    assert(all.take(i as int) == all);
    changed
}

/// Whether two optional times are the same.
fn same_time(a: Option<i64>, b: Option<i64>) -> (same: bool)
    ensures
        same == (a == b),
{
    match (a, b) {
        (Some(x), Some(y)) => x == y,
        (None, None) => true,
        _ => false,
    }
}

/// Whether a board directory among `dirs` carries the name `id`.
fn was_seen(dirs: &Vec<DirEntry>, id: &String, now: i64) -> (seen: bool)
    ensures
        seen == sighted_ids(sightings(dir_views(dirs@), now)).contains(id@),
{
    let ghost all = dir_views(dirs@);
    let mut i: usize = 0;
    assert(all.take(0) == Seq::<DirView>::empty());
    assert(sightings(Seq::<DirView>::empty(), now) == Seq::<Sighting>::empty());
    while i < dirs.len()
        invariant
            i <= dirs.len(),
            all == dir_views(dirs@),
            !sighted_ids(sightings(all.take(i as int), now)).contains(id@),
        decreases dirs.len() - i,
    {
        let ghost seen_before = sightings(all.take(i as int), now);
        proof {
            assert(all.take(i + 1) == all.take(i as int).push(all[i as int]));
            lemma_sightings_push(all.take(i as int), all[i as int], now);
            assert(all[i as int] == dirs[i as int]@);
        }
        if dirs[i].dir_name == *id && dir_is_board(&dirs[i]) {
            proof {
                let next = seen_before.push(sighting_of(all[i as int], now));
                assert(next[seen_before.len() as int].id == id@);
                lemma_sighted_ids_grow(all, i + 1, now);
            }
            return true;
        }
        proof {
            if is_board_dir(all[i as int]) {
                let next = seen_before.push(sighting_of(all[i as int], now));
                assert forall|k: int| 0 <= k < next.len() implies (#[trigger] next[k]).id
                    != id@ by {
                    if k < seen_before.len() {
                        assert(seen_before[k] == next[k]);
                    }
                }
            }
        }
        i += 1;
    }
    assert(all.take(i as int) == all);
    false
}

/// What was sighted among the first directories is sighted among all.
proof fn lemma_sighted_ids_grow(dirs: Seq<DirView>, n: int, now: i64)
    requires
        0 <= n <= dirs.len(),
    ensures
        sighted_ids(sightings(dirs.take(n), now)).subset_of(sighted_ids(sightings(dirs, now))),
    decreases dirs.len() - n,
{
    if n < dirs.len() {
        lemma_sighted_ids_grow(dirs, n + 1, now);
        assert(dirs.take(n + 1) == dirs.take(n).push(dirs[n]));
        lemma_sightings_push(dirs.take(n), dirs[n], now);
        let small = sightings(dirs.take(n), now);
        let big = sightings(dirs.take(n + 1), now);
        assert forall|id: Seq<char>| sighted_ids(small).contains(id) implies sighted_ids(
            big,
        ).contains(id) by {
            let k = choose|k: int| 0 <= k < small.len() && (#[trigger] small[k]).id == id;
            assert(big[k] == small[k]);
        }
    } else {
        assert(dirs.take(n) == dirs);
    }
}

/// The entries of `boards` whose claimed place the scan saw.
fn prune(boards: &Vec<BoardMeta>, scan: &DiskScan, now: i64) -> (kept: Vec<BoardMeta>)
    ensures
        meta_views(kept@) == pruned(
            meta_views(boards@),
            sighted_ids(sightings(scan@.active, now)),
            sighted_ids(sightings(scan@.trashed, now)),
        ),
{
    let ghost views = meta_views(boards@);
    let ghost active = sighted_ids(sightings(scan@.active, now));
    let ghost trashed = sighted_ids(sightings(scan@.trashed, now));
    let mut kept: Vec<BoardMeta> = Vec::new();
    let mut i: usize = 0;
    assert(views.take(0) == Seq::<MetaView>::empty());
    while i < boards.len()
        invariant
            i <= boards.len(),
            views == meta_views(boards@),
            active == sighted_ids(sightings(scan@.active, now)),
            trashed == sighted_ids(sightings(scan@.trashed, now)),
            meta_views(kept@) == pruned(views.take(i as int), active, trashed),
        decreases boards.len() - i,
    {
        proof {
            assert(views.take(i + 1) == views.take(i as int).push(views[i as int]));
            views.take(i as int).lemma_filter_push(
                views[i as int],
                |m: MetaView| is_located(m, active, trashed),
            );
            assert(views[i as int] == boards[i as int]@);
        }
        let entry = &boards[i];
        let located = if entry.deleted_at.is_some() {
            was_seen(&scan.trashed, &entry.id, now)
        } else {
            was_seen(&scan.active, &entry.id, now)
        };
        if located {
            let ghost shown = meta_views(kept@);
            kept.push(entry.duplicate());
            assert(meta_views(kept@) == shown.push(views[i as int]));
        }
        i += 1;
    }
    assert(views.take(i as int) == views);
    kept
}

/// Brings `index` in line with what `scan` saw.
///
/// Every board directory of the scan is taken in: the first entry with its
/// identifier gets the name and time from disk, and a missing one is
/// appended; the active directories come first, then the trashed ones. Then
/// every entry whose claimed place was not seen is dropped. The flag says
/// whether anything changed, that is, whether the index is to be written.
pub fn sync_index_with_fs(index: BoardIndex, scan: &DiskScan, now: i64) -> (result: (
    BoardIndex,
    bool,
))
    ensures
        result.0@.version == index@.version,
        (result.0@.boards, result.1) == synced(index@.boards, scan@, now),
        index.wf() ==> result.0.wf(),
{
    proof {
        if index.wf() {
            lemma_sync_keeps_unique(index@.boards, scan@, now);
        }
    }
    let mut boards = index.boards;
    let changed_active = take_in_dirs(&mut boards, &scan.active, now, false);
    let changed_trashed = take_in_dirs(&mut boards, &scan.trashed, now, true);
    let kept = prune(&boards, scan, now);
    let dropped = kept.len() != boards.len();
    (
        BoardIndex { version: index.version, boards: kept },
        changed_active || changed_trashed || dropped,
    )
}

/// Appends an entry for every board directory among `dirs`.
fn append_dirs(out: &mut Vec<BoardMeta>, dirs: &Vec<DirEntry>, now: i64, trashed: bool)
    ensures
        meta_views(final(out)@) == meta_views(old(out)@) + sightings(
            dir_views(dirs@),
            now,
        ).map_values(|s: Sighting| fresh_entry(s, trashed)),
{
    let ghost start = meta_views(out@);
    let ghost all = dir_views(dirs@);
    let ghost fresh = |s: Sighting| fresh_entry(s, trashed);
    let mut i: usize = 0;
    assert(all.take(0) == Seq::<DirView>::empty());
    assert(sightings(Seq::<DirView>::empty(), now) == Seq::<Sighting>::empty());
    assert(start + Seq::<Sighting>::empty().map_values(fresh) == start);
    while i < dirs.len()
        invariant
            i <= dirs.len(),
            all == dir_views(dirs@),
            fresh == |s: Sighting| fresh_entry(s, trashed),
            meta_views(out@) == start + sightings(all.take(i as int), now).map_values(fresh),
        decreases dirs.len() - i,
    {
        let dir = &dirs[i];
        let ghost seen_before = sightings(all.take(i as int), now);
        proof {
            assert(all.take(i + 1) == all.take(i as int).push(all[i as int]));
            lemma_sightings_push(all.take(i as int), all[i as int], now);
            assert(all[i as int] == dir@);
        }
        if dir_is_board(dir) {
            let ghost seen = sighting_of(dir@, now);
            let ghost shown = meta_views(out@);
            let stamp = sighted_stamp(dir, now);
            let entry = BoardMeta {
                id: dir.dir_name.clone(),
                name: sighted_name(dir),
                updated_at: stamp,
                deleted_at: if trashed {
                    Some(stamp)
                } else {
                    None
                },
            };
            out.push(entry);
            proof {
                seen_before.lemma_push_map_commute(fresh, seen);
                assert(meta_views(out@) == shown.push(fresh_entry(seen, trashed)));
                assert(shown.push(fresh(seen)) == start + seen_before.map_values(fresh).push(
                    fresh(seen),
                ));
            }
        }
        i += 1;
    }
    assert(all.take(i as int) == all);
}

/// Makes the index from a scan alone: an active entry for every board
/// directory below the root, in scan order, then a trashed entry for every
/// board directory in the trash.
pub fn rebuild_index_from_fs(scan: &DiskScan, now: i64) -> (index: BoardIndex)
    ensures
        index@.version == INDEX_VERSION,
        index@.boards == rebuilt(scan@, now),
        distinct_sightings(sightings(scan@.active, now) + sightings(scan@.trashed, now))
            ==> index.wf(),
{
    proof {
        if distinct_sightings(sightings(scan@.active, now) + sightings(scan@.trashed, now)) {
            lemma_rebuilt_is_settled(scan@, now);
        }
    }
    let mut boards: Vec<BoardMeta> = Vec::new();
    assert(meta_views(boards@) == Seq::<MetaView>::empty());
    append_dirs(&mut boards, &scan.active, now, false);
    assert(meta_views(boards@) == sightings(scan@.active, now).map_values(
        |s: Sighting| fresh_entry(s, false),
    ));
    append_dirs(&mut boards, &scan.trashed, now, true);
    BoardIndex { version: INDEX_VERSION, boards }
}

/// The index made afresh from the scan, as at start-up.
pub fn ensure_board_index(scan: &DiskScan, now: i64) -> (index: BoardIndex)
    ensures
        index@.version == INDEX_VERSION,
        index@.boards == rebuilt(scan@, now),
        distinct_sightings(sightings(scan@.active, now) + sightings(scan@.trashed, now))
            ==> index.wf(),
{
    rebuild_index_from_fs(scan, now)
}

/// Reads the index: `stored` is what the index file held, `None` where the
/// file was missing or could not be parsed.
///
/// A missing or empty index is rebuilt from the scan and always written. A
/// stored one is synced with the scan and written only where that changed
/// it. A well-formed stored index stays well-formed; a rebuilt one is
/// well-formed where the scan saw every board in one place only.
pub fn read_index(stored: Option<BoardIndex>, scan: &DiskScan, now: i64) -> (result: (
    BoardIndex,
    bool,
))
    ensures
        (result.0@, result.1) == index_read(
            match stored {
                Some(index) => Some(index@),
                None => None,
            },
            scan@,
            now,
        ),
        match stored {
            Some(index) if index@.boards.len() > 0 => index.wf(),
            _ => distinct_sightings(
                sightings(scan@.active, now) + sightings(scan@.trashed, now),
            ),
        } ==> result.0.wf(),
{
    match stored {
        Some(index) => {
            if index.boards.len() == 0 {
                assert(index@.boards.len() == 0);
                (rebuild_index_from_fs(scan, now), true)
            } else {
                assert(index@.boards.len() > 0);
                sync_index_with_fs(index, scan, now)
            }
        },
        None => (rebuild_index_from_fs(scan, now), true),
    }
}

} // verus!
