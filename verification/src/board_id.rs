//! Board identifiers.
//!
//! An identifier names a directory, so it may hold nothing that a path could
//! abuse. Every operation that turns an identifier into a path checks it
//! with [`is_valid_board_id`] first.

use crate::text::to_chars;
use vstd::prelude::*;

verus! {

/// The longest identifier accepted, in characters.
pub const MAX_BOARD_ID_LEN: usize = 64;

/// A character that may stand in an identifier: an ASCII letter or digit, a
/// hyphen or an underscore.
pub open spec fn is_id_char(c: char) -> bool {
    ||| 'a' <= c <= 'z'
    ||| 'A' <= c <= 'Z'
    ||| '0' <= c <= '9'
    ||| c == '-'
    ||| c == '_'
}

/// Whether two dots stand next to each other somewhere in `s`.
pub open spec fn contains_dotdot(s: Seq<char>) -> bool {
    exists|i: int| 0 <= i && i + 1 < s.len() && s[i] == '.' && #[trigger] s[i + 1] == '.'
}

/// One to sixty-four identifier characters.
pub open spec fn matches_id_pattern(s: Seq<char>) -> bool {
    &&& 1 <= s.len() <= MAX_BOARD_ID_LEN
    &&& forall|i: int| 0 <= i < s.len() ==> is_id_char(#[trigger] s[i])
}

/// The identifiers that are safe to embed in a path: not empty, at most
/// sixty-four characters, no path separator, no `..`, and no character
/// outside the identifier characters.
pub open spec fn valid_board_id(id: Seq<char>) -> bool {
    &&& id.len() > 0
    &&& id.len() <= MAX_BOARD_ID_LEN
    &&& !id.contains('/')
    &&& !id.contains('\\')
    &&& !contains_dotdot(id)
    &&& forall|i: int| 0 <= i < id.len() ==> is_id_char(#[trigger] id[i])
}

/// An identifier is valid exactly when it is made of one to sixty-four
/// identifier characters and holds no `..`; the pattern alone already rules
/// out `..` and the path separators.
pub proof fn lemma_valid_id_is_pattern(id: Seq<char>)
    ensures
        valid_board_id(id) <==> matches_id_pattern(id) && !contains_dotdot(id),
        matches_id_pattern(id) ==> !contains_dotdot(id),
        matches_id_pattern(id) ==> !id.contains('/') && !id.contains('\\'),
{
    if matches_id_pattern(id) {
        assert forall|i: int| 0 <= i < id.len() implies id[i] != '/' && id[i] != '\\' && id[i]
            != '.' by {
            assert(is_id_char(id[i]));
        }
    }
}

/// Whether `c` may stand in an identifier.
pub fn char_is_id_char(c: char) -> (ok: bool)
    ensures
        ok == is_id_char(c),
{
    ('a' <= c && c <= 'z') || ('A' <= c && c <= 'Z') || ('0' <= c && c <= '9') || c == '-' || c
        == '_'
}

/// Whether `board_id` is safe to embed in a path.
pub fn is_valid_board_id(board_id: &str) -> (valid: bool)
    ensures
        valid == valid_board_id(board_id@),
{
    let chars = to_chars(board_id);
    proof {
        lemma_valid_id_is_pattern(chars@);
    }
    if chars.len() == 0 || chars.len() > MAX_BOARD_ID_LEN {
        return false;
    }
    let mut i: usize = 0;
    while i < chars.len()
        invariant
            i <= chars.len(),
            chars@ == board_id@,
            0 < chars.len() <= MAX_BOARD_ID_LEN,
            valid_board_id(chars@) <==> matches_id_pattern(chars@),
            forall|j: int| 0 <= j < i ==> is_id_char(#[trigger] chars@[j]),
        decreases chars.len() - i,
    {
        if !char_is_id_char(chars[i]) {
            return false;
        }
        i += 1;
    }
    true
}

} // verus!
