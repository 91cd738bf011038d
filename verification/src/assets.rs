//! Names and places of the files kept beside a board document.
//!
//! An asset is stored under a name that holds no path separator and no
//! `..`, and is referred to by a path relative to the board, so that a
//! board can be moved to another machine as it is.

use crate::board_id::{contains_dotdot, is_valid_board_id, valid_board_id};
use crate::error::StoreError;
use crate::text::{
    ascii_lowercase, lowercase_starts_with, push_chars, push_signed_decimal, signed_decimal,
    starts_with, to_chars,
};
use vstd::prelude::*;
use vstd::string::StringExecFns;

verus! {

/// The largest preview image that is kept, in bytes.
pub const MAX_IMAGE_BYTES: usize = 5 * 1024 * 1024;

/// The file extension that goes with a content type: `.jpg` for JPEG,
/// `.png`, `.webp` and `.gif` for their types, whatever the case of the
/// letters and whatever follows the type; `None` for any other.
pub open spec fn extension_for(content_type: Seq<char>) -> Option<Seq<char>> {
    let lower = ascii_lowercase(content_type);
    if starts_with(lower, "image/jpeg"@) || starts_with(lower, "image/jpg"@) {
        Some(".jpg"@)
    } else if starts_with(lower, "image/png"@) {
        Some(".png"@)
    } else if starts_with(lower, "image/webp"@) {
        Some(".webp"@)
    } else if starts_with(lower, "image/gif"@) {
        Some(".gif"@)
    } else {
        None
    }
}

/// `s` with every path separator replaced by an underscore.
pub open spec fn separators_replaced(s: Seq<char>) -> Seq<char> {
    s.map_values(
        |c: char|
            if c == '/' || c == '\\' {
                '_'
            } else {
                c
            },
    )
}

/// `s` with every `..` replaced by an underscore, from the left, a dot
/// being used once at most.
pub open spec fn dots_replaced(s: Seq<char>) -> Seq<char>
    decreases s.len(),
{
    if s.len() == 0 {
        s
    } else if s.len() >= 2 && s[0] == '.' && s[1] == '.' {
        seq!['_'] + dots_replaced(s.skip(2))
    } else {
        seq![s[0]] + dots_replaced(s.drop_first())
    }
}

/// The name under which a file is stored: separators first, then `..`,
/// replaced by underscores.
pub open spec fn sanitized(name: Seq<char>) -> Seq<char> {
    dots_replaced(separators_replaced(name))
}

/// The extension with its leading dot.
pub open spec fn dotted(ext: Seq<char>) -> Seq<char> {
    if ext.len() > 0 && ext[0] == '.' {
        ext
    } else {
        seq!['.'] + ext
    }
}

/// The name of a preview image saved at `now`.
pub open spec fn link_file_name(ext: Seq<char>, now: i64) -> Seq<char> {
    sanitized("link-"@ + signed_decimal(now as int) + dotted(ext))
}

/// The path of an asset relative to its board.
pub open spec fn relative_path(file_name: Seq<char>) -> Seq<char> {
    "assets/"@ + file_name
}

/// Replacing `..` leaves no `..`, and brings in no character but the
/// underscore.
pub proof fn lemma_dots_replaced(s: Seq<char>)
    ensures
        !contains_dotdot(dots_replaced(s)),
        forall|i: int|
            0 <= i < dots_replaced(s).len() ==> #[trigger] dots_replaced(s)[i] == '_'
                || s.contains(dots_replaced(s)[i]),
        s.len() > 0 && s[0] != '.' ==> dots_replaced(s).len() > 0 && dots_replaced(s)[0] == s[0],
    decreases s.len(),
{
    let out = dots_replaced(s);
    if s.len() == 0 {
    } else if s.len() >= 2 && s[0] == '.' && s[1] == '.' {
        let rest = dots_replaced(s.skip(2));
        lemma_dots_replaced(s.skip(2));
        assert forall|i: int| 0 <= i < out.len() implies #[trigger] out[i] == '_' || s.contains(
            out[i],
        ) by {
            if i > 0 {
                assert(out[i] == rest[i - 1]);
                if rest[i - 1] != '_' {
                    let k = choose|k: int| 0 <= k < s.skip(2).len() && s.skip(2)[k] == rest[i - 1];
                    assert(s[k + 2] == rest[i - 1]);
                }
            }
        }
        if contains_dotdot(out) {
            let i = choose|i: int|
                0 <= i && i + 1 < out.len() && out[i] == '.' && #[trigger] out[i + 1] == '.';
            assert(rest[i - 1] == '.' && rest[i - 1 + 1] == '.');
            assert(false);
        }
    } else {
        let tail = s.drop_first();
        let rest = dots_replaced(tail);
        lemma_dots_replaced(tail);
        assert forall|i: int| 0 <= i < out.len() implies #[trigger] out[i] == '_' || s.contains(
            out[i],
        ) by {
            if i > 0 {
                assert(out[i] == rest[i - 1]);
                if rest[i - 1] != '_' {
                    let k = choose|k: int| 0 <= k < tail.len() && tail[k] == rest[i - 1];
                    assert(s[k + 1] == rest[i - 1]);
                }
            } else {
                assert(s[0] == out[0]);
            }
        }
        if contains_dotdot(out) {
            let i = choose|i: int|
                0 <= i && i + 1 < out.len() && out[i] == '.' && #[trigger] out[i + 1] == '.';
            if i == 0 {
                assert(s[0] == '.');
                assert(out[1] == rest[0]);
                assert(tail.len() > 0 && tail[0] == s[1]);
                assert(false);
            } else {
                assert(rest[i - 1] == '.' && rest[i - 1 + 1] == '.');
                assert(false);
            }
        }
    }
}

/// A stored name holds no path separator and no `..`.
pub proof fn lemma_sanitized_is_safe(name: Seq<char>)
    ensures
        !sanitized(name).contains('/'),
        !sanitized(name).contains('\\'),
        !contains_dotdot(sanitized(name)),
{
    let flat = separators_replaced(name);
    lemma_dots_replaced(flat);
    let out = sanitized(name);
    assert forall|i: int| 0 <= i < out.len() implies out[i] != '/' && out[i] != '\\' by {
        if out[i] != '_' {
            assert(flat.contains(out[i]));
            let k = choose|k: int| 0 <= k < flat.len() && flat[k] == out[i];
            assert(flat[k] != '/' && flat[k] != '\\');
        }
    }
}

/// The file extension that goes with a content type.
pub fn ext_from_content_type(content_type: &str) -> (ext: Option<&'static str>)
    ensures
        match ext {
            Some(e) => extension_for(content_type@) == Some(e@),
            None => extension_for(content_type@) is None,
        },
{
    let chars = to_chars(content_type);
    if lowercase_starts_with(&chars, "image/jpeg") || lowercase_starts_with(&chars, "image/jpg") {
        Some(".jpg")
    } else if lowercase_starts_with(&chars, "image/png") {
        Some(".png")
    } else if lowercase_starts_with(&chars, "image/webp") {
        Some(".webp")
    } else if lowercase_starts_with(&chars, "image/gif") {
        Some(".gif")
    } else {
        None
    }
}

/// The name under which a file called `name` is stored.
pub fn sanitize_file_name(name: &str) -> (safe: String)
    ensures
        safe@ == sanitized(name@),
        !safe@.contains('/'),
        !safe@.contains('\\'),
        !contains_dotdot(safe@),
{
    let chars = to_chars(name);
    let mut flat: Vec<char> = Vec::new();
    let mut i: usize = 0;
    while i < chars.len()
        invariant
            i <= chars.len(),
            flat@ == separators_replaced(chars@.take(i as int)),
        decreases chars.len() - i,
    {
        let c = chars[i];
        flat.push(
            if c == '/' || c == '\\' {
                '_'
            } else {
                c
            },
        );
        assert(chars@.take(i + 1) == chars@.take(i as int).push(c));
        i += 1;
    }
    assert(chars@.take(i as int) == chars@);
    let mut out: Vec<char> = Vec::new();
    let mut j: usize = 0;
    assert(flat@.skip(0) == flat@);
    while j < flat.len()
        invariant
            j <= flat.len(),
            dots_replaced(flat@) == out@ + dots_replaced(flat@.skip(j as int)),
        decreases flat.len() - j,
    {
        let ghost rest = flat@.skip(j as int);
        if j + 1 < flat.len() && flat[j] == '.' && flat[j + 1] == '.' {
            out.push('_');
            assert(rest.skip(2) == flat@.skip(j + 2));
            j += 2;
        } else {
            out.push(flat[j]);
            assert(rest.drop_first() == flat@.skip(j + 1));
            j += 1;
        }
    }
    let mut safe = String::new();
    push_chars(&mut safe, &out);
    proof {
        lemma_sanitized_is_safe(name@);
    }
    safe
}

/// Where an asset is written and how the board refers to it.
#[derive(Debug, Clone, PartialEq, Eq)]
pub struct AssetFile {
    /// The name of the file in the board's asset directory.
    pub file_name: String,
    /// The name of the temporary file that is written first.
    pub tmp_name: String,
    /// The path by which the board document refers to the asset.
    pub relative_path: String,
}

/// The asset file stored under the name `safe_name`.
pub fn asset_file(safe_name: String) -> (file: AssetFile)
    ensures
        file.file_name@ == safe_name@,
        file.tmp_name@ == safe_name@ + ".tmp"@,
        file.relative_path@ == relative_path(safe_name@),
{
    let mut tmp_name = safe_name.clone();
    tmp_name.append(".tmp");
    let mut relative_path = "assets/".to_string();
    relative_path.append(safe_name.as_str());
    AssetFile { file_name: safe_name, tmp_name, relative_path }
}

/// Where a preview image is saved at `now`: under `link-<now><ext>`, the
/// extension with its dot, the name made safe.
pub fn save_asset_bytes(ext: &str, now: i64) -> (file: AssetFile)
    ensures
        file.file_name@ == link_file_name(ext@, now),
        file.tmp_name@ == file.file_name@ + ".tmp"@,
        file.relative_path@ == relative_path(file.file_name@),
        !file.file_name@.contains('/') && !file.file_name@.contains('\\') && !contains_dotdot(
            file.file_name@,
        ),
{
    let ext_chars = to_chars(ext);
    let mut name = "link-".to_string();
    push_signed_decimal(&mut name, now);
    if !(ext_chars.len() > 0 && ext_chars[0] == '.') {
        proof {
            reveal_strlit(".");
            assert("."@ == seq!['.']);
        }
        name.append(".");
    }
    push_chars(&mut name, &ext_chars);
    assert(name@ == "link-"@ + signed_decimal(now as int) + dotted(ext@));
    asset_file(sanitize_file_name(name.as_str()))
}

/// What `STANDARD.decode` of the `base64` crate makes of a text: the bytes,
/// or `None` where the text is not valid base64 in the standard alphabet
/// with padding.
pub uninterp spec fn base64_decoded(text: Seq<char>) -> Option<Seq<u8>>;

/// Decodes standard base64 with `base64::Engine::decode` on
/// `general_purpose::STANDARD`. The contract names the outcome
/// `base64_decoded(text)` and claims nothing else of it.
#[verifier::external_body]
fn decode_base64(text: &str) -> (bytes: Option<Vec<u8>>)
    ensures
        match bytes {
            Some(b) => base64_decoded(text@) == Some(b@),
            None => base64_decoded(text@) is None,
        },
{
    base64::Engine::decode(&base64::engine::general_purpose::STANDARD, text).ok()
}

/// An image handed over for saving, ready to be written.
#[derive(Debug, Clone, PartialEq, Eq)]
pub struct ImageUpload {
    /// Where the image goes.
    pub file: AssetFile,
    /// What is written.
    pub bytes: Vec<u8>,
}

/// What saving an image comes to, given what its payload decodes to.
pub open spec fn image_outcome(
    board_id: Seq<char>,
    filename: Seq<char>,
    decoded: Option<Seq<u8>>,
) -> Result<(Seq<char>, Seq<u8>), StoreError> {
    if !valid_board_id(board_id) {
        Err(StoreError::InvalidIdentifier)
    } else {
        match decoded {
            Some(bytes) => Ok((sanitized(filename), bytes)),
            None => Err(StoreError::InvalidPayload),
        }
    }
}

/// Prepares a decoded image for saving under `filename`.
///
/// Refused with `InvalidIdentifier` for an invalid board identifier and
/// with `InvalidPayload` where the payload did not decode. Else the image
/// goes under the file name made safe.
pub fn place_image(board_id: &str, filename: &str, decoded: Option<Vec<u8>>) -> (result: Result<
    ImageUpload,
    StoreError,
>)
    ensures
        match result {
            Ok(upload) => {
                &&& image_outcome(
                    board_id@,
                    filename@,
                    match decoded {
                        Some(b) => Some(b@),
                        None => None,
                    },
                ) == Ok::<(Seq<char>, Seq<u8>), StoreError>((upload.file.file_name@, upload.bytes@))
                &&& upload.file.tmp_name@ == upload.file.file_name@ + ".tmp"@
                &&& upload.file.relative_path@ == relative_path(upload.file.file_name@)
            },
            Err(e) => image_outcome(
                board_id@,
                filename@,
                match decoded {
                    Some(b) => Some(b@),
                    None => None,
                },
            ) == Err::<(Seq<char>, Seq<u8>), StoreError>(e),
        },
{
    if !is_valid_board_id(board_id) {
        return Err(StoreError::InvalidIdentifier);
    }
    match decoded {
        Some(bytes) => Ok(
            ImageUpload { file: asset_file(sanitize_file_name(filename)), bytes },
        ),
        None => Err(StoreError::InvalidPayload),
    }
}

/// Prepares an image sent as base64 for saving under `filename`.
///
/// The outcome is that of [`place_image`] on what the payload decodes to.
pub fn save_image(board_id: &str, filename: &str, bytes_base64: &str) -> (result: Result<
    ImageUpload,
    StoreError,
>)
    ensures
        match result {
            Ok(upload) => {
                &&& image_outcome(board_id@, filename@, base64_decoded(bytes_base64@)) == Ok::<
                    (Seq<char>, Seq<u8>),
                    StoreError,
                >((upload.file.file_name@, upload.bytes@))
                &&& upload.file.tmp_name@ == upload.file.file_name@ + ".tmp"@
                &&& upload.file.relative_path@ == relative_path(upload.file.file_name@)
            },
            Err(e) => image_outcome(board_id@, filename@, base64_decoded(bytes_base64@)) == Err::<
                (Seq<char>, Seq<u8>),
                StoreError,
            >(e),
        },
{
    if !is_valid_board_id(board_id) {
        return Err(StoreError::InvalidIdentifier);
    }
    place_image(board_id, filename, decode_base64(bytes_base64))
}

} // verus!
