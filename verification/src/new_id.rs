//! Identifiers for new boards.
//!
//! A new board is named after the time of its creation. Where that name is
//! already in the index, or already names something below the board root, a
//! counter is appended, and raised until the name is free. The names below
//! the root are asked for as well because the index may lag behind the disk.

use crate::board_id::{
    is_id_char, lemma_valid_id_is_pattern, matches_id_pattern, valid_board_id,
};
use crate::index::{find_board, lemma_position, position};
use crate::model::{BoardIndex, MetaView};
use crate::text::{
    decimal, lemma_decimal_injective, lemma_decimal_len, lemma_decimal_shape, pow10,
    push_decimal, push_signed_decimal, signed_decimal,
};
use vstd::prelude::*;
use vstd::set_lib::{lemma_int_range, lemma_len_subset, set_int_range};
use vstd::string::StringExecFns;

verus! {

/// The identifier first tried for a board created at `now`.
pub open spec fn base_id(now: i64) -> Seq<char> {
    "board-"@ + signed_decimal(now as int)
}

/// The `k`-th identifier tried: the base itself, then the base with `-1`,
/// `-2` and so on.
pub open spec fn candidate_id(base: Seq<char>, k: nat) -> Seq<char> {
    if k == 0 {
        base
    } else {
        base + seq!['-'] + decimal(k)
    }
}

/// The views of a sequence of names.
pub open spec fn name_views(names: Seq<String>) -> Seq<Seq<char>> {
    names.map_values(|s: String| s@)
}

/// Whether `id` is in use: the index has an entry for it, or something below
/// the board root carries the name.
pub open spec fn is_taken(boards: Seq<MetaView>, names: Seq<Seq<char>>, id: Seq<char>) -> bool {
    position(boards, id) is Some || names.contains(id)
}

/// Whether the `k`-th candidate is the first that is free.
pub open spec fn is_first_free(
    boards: Seq<MetaView>,
    names: Seq<Seq<char>>,
    base: Seq<char>,
    k: nat,
) -> bool {
    &&& !is_taken(boards, names, candidate_id(base, k))
    &&& forall|j: nat| j < k ==> is_taken(boards, names, #[trigger] candidate_id(base, j))
}

/// Two different counters give two different candidates.
pub proof fn lemma_candidates_differ(base: Seq<char>, j: nat, k: nat)
    requires
        j != k,
    ensures
        candidate_id(base, j) != candidate_id(base, k),
{
    lemma_decimal_shape(j);
    lemma_decimal_shape(k);
    if j != 0 && k != 0 {
        let a = candidate_id(base, j);
        let b = candidate_id(base, k);
        assert(a.skip(base.len() as int + 1) == decimal(j));
        assert(b.skip(base.len() as int + 1) == decimal(k));
        if a == b {
            lemma_decimal_injective(j, k);
        }
    } else if j == 0 {
        assert(candidate_id(base, k).len() > base.len());
    } else {
        assert(candidate_id(base, j).len() > base.len());
    }
}

/// Every candidate is a valid identifier, as long as its counter stays
/// below ten to the twentieth: it is made of `board-`, digits and hyphens,
/// and is at most forty-seven characters long.
pub proof fn lemma_candidate_is_valid(now: i64, k: nat)
    requires
        k < 100_000_000_000_000_000_000,
    ensures
        valid_board_id(candidate_id(base_id(now), k)),
{
    let stamp = signed_decimal(now as int);
    let magnitude: nat = if now < 0 {
        (-now) as nat
    } else {
        now as nat
    };
    let base = base_id(now);
    let id = candidate_id(base, k);
    reveal_strlit("board-");
    reveal_with_fuel(pow10, 21);
    assert(pow10(19) == 10_000_000_000_000_000_000);
    assert(pow10(20) == 100_000_000_000_000_000_000);
    lemma_decimal_shape(magnitude);
    lemma_decimal_len(magnitude, 19);
    lemma_decimal_shape(k);
    lemma_decimal_len(k, 20);
    assert(stamp.len() <= 20);
    assert forall|i: int| 0 <= i < stamp.len() implies is_id_char(#[trigger] stamp[i]) by {
        if now < 0 && i > 0 {
            assert(stamp[i] == decimal(magnitude)[i - 1]);
        }
    }
    assert(base.len() == 6 + stamp.len());
    assert forall|i: int| 0 <= i < base.len() implies is_id_char(#[trigger] base[i]) by {
        if i >= 6 {
            assert(base[i] == stamp[i - 6]);
        }
    }
    assert forall|i: int| 0 <= i < id.len() implies is_id_char(#[trigger] id[i]) by {
        if k > 0 {
            if i < base.len() {
                assert(id[i] == base[i]);
            } else if i > base.len() {
                assert(id[i] == decimal(k)[i - base.len() - 1]);
            }
        }
    }
    assert(matches_id_pattern(id));
    lemma_valid_id_is_pattern(id);
}

/// Distinct numbers below `n` are at most `n` many.
proof fn lemma_distinct_slots_bounded(slots: Seq<int>, n: nat)
    requires
        slots.no_duplicates(),
        forall|j: int| 0 <= j < slots.len() ==> 0 <= #[trigger] slots[j] < n,
    ensures
        slots.len() <= n,
{
    slots.unique_seq_to_set();
    lemma_int_range(0, n as int);
    assert(slots.to_set().subset_of(set_int_range(0, n as int)));
    lemma_len_subset(slots.to_set(), set_int_range(0, n as int));
}

/// Whether one of `names` is `id`.
pub fn is_listed(names: &Vec<String>, id: &String) -> (listed: bool)
    ensures
        listed == name_views(names@).contains(id@),
{
    let ghost views = name_views(names@);
    let mut i: usize = 0;
    while i < names.len()
        invariant
            i <= names.len(),
            views == name_views(names@),
            forall|j: int| 0 <= j < i ==> views[j] != id@,
        decreases names.len() - i,
    {
        if names[i] == *id {
            assert(views[i as int] == id@);
            return true;
        }
        i += 1;
    }
    false
}

/// The place of a taken identifier among the index entries followed by the
/// names.
proof fn slot_of(boards: Seq<MetaView>, names: Seq<Seq<char>>, id: Seq<char>) -> (slot: int)
    requires
        is_taken(boards, names, id),
    ensures
        0 <= slot < boards.len() + names.len(),
        slot < boards.len() ==> boards[slot].id == id,
        slot >= boards.len() ==> names[slot - boards.len()] == id,
{
    lemma_position(boards, id);
    match position(boards, id) {
        Some(i) => i,
        None => {
            let i = choose|i: int| 0 <= i < names.len() && names[i] == id;
            boards.len() + i
        },
    }
}

/// A free identifier for a board created at `now`.
///
/// The result is the first of `board-<now>`, `board-<now>-1`, `board-<now>-2`
/// and so on that neither the index nor `taken` holds; `taken` lists the
/// names in use below the board root.
pub fn generate_board_id(index: &BoardIndex, taken: &Vec<String>, now: i64) -> (id: String)
    ensures
        !is_taken(index@.boards, name_views(taken@), id@),
        exists|k: nat|
            is_first_free(index@.boards, name_views(taken@), base_id(now), k) && id@
                == candidate_id(base_id(now), k),
        valid_board_id(id@),
{
    let ghost boards = index@.boards;
    let ghost names = name_views(taken@);
    let mut base = "board-".to_string();
    push_signed_decimal(&mut base, now);
    let mut k: u128 = 0;
    let mut candidate = base.clone();
    let ghost mut slots: Seq<int> = Seq::empty();
    loop
        invariant
            boards == index@.boards,
            names == name_views(taken@),
            boards.len() == index.boards.len(),
            names.len() == taken.len(),
            base@ == base_id(now),
            candidate@ == candidate_id(base@, k as nat),
            slots.len() == k,
            k <= boards.len() + names.len(),
            forall|j: nat| j < k ==> is_taken(boards, names, #[trigger] candidate_id(base@, j)),
            forall|j: int|
                0 <= j < k ==> {
                    &&& 0 <= #[trigger] slots[j] < boards.len() + names.len()
                    &&& slots[j] < boards.len() ==> boards[slots[j]].id == candidate_id(
                        base@,
                        j as nat,
                    )
                    &&& slots[j] >= boards.len() ==> names[slots[j] - boards.len()]
                        == candidate_id(base@, j as nat)
                },
        decreases boards.len() + names.len() - k,
    {
        let in_index = find_board(&index.boards, candidate.as_str()).is_some();
        if !in_index && !is_listed(taken, &candidate) {
            assert(is_first_free(boards, names, base_id(now), k as nat));
            proof {
                lemma_candidate_is_valid(now, k as nat);
            }
            return candidate;
        }
        proof {
            let slot = slot_of(boards, names, candidate@);
            let next = slots.push(slot);
            assert forall|a: int, b: int| 0 <= a < next.len() && 0 <= b < next.len() && a
                != b implies next[a] != next[b] by {
                lemma_candidates_differ(base@, a as nat, b as nat);
            }
            lemma_distinct_slots_bounded(next, boards.len() + names.len());
            slots = next;
        }
        k = k + 1;
        candidate = base.clone();
        proof {
            reveal_strlit("-");
            assert("-"@ == seq!['-']);
        }
        candidate.append("-");
        push_decimal(&mut candidate, k);
    }
}

} // verus!
