use lana_boards::assets::{
    asset_file, ext_from_content_type, place_image, sanitize_file_name, save_asset_bytes,
    save_image, MAX_IMAGE_BYTES,
};
use lana_boards::error::StoreError;

#[test]
fn extension_follows_the_content_type() {
    assert_eq!(ext_from_content_type("image/jpeg"), Some(".jpg"));
    assert_eq!(ext_from_content_type("image/jpg"), Some(".jpg"));
    assert_eq!(ext_from_content_type("image/png"), Some(".png"));
    assert_eq!(ext_from_content_type("image/webp"), Some(".webp"));
    assert_eq!(ext_from_content_type("image/gif"), Some(".gif"));
}

#[test]
fn extension_ignores_case_and_parameters() {
    assert_eq!(ext_from_content_type("IMAGE/PNG"), Some(".png"));
    assert_eq!(ext_from_content_type("Image/Jpeg; charset=binary"), Some(".jpg"));
    assert_eq!(ext_from_content_type("image/gif89a"), Some(".gif"));
}

#[test]
fn extension_is_absent_for_other_types() {
    assert_eq!(ext_from_content_type("image/svg+xml"), None);
    assert_eq!(ext_from_content_type("text/html"), None);
    assert_eq!(ext_from_content_type(" image/png"), None);
    assert_eq!(ext_from_content_type("image/"), None);
    assert_eq!(ext_from_content_type(""), None);
}

#[test]
fn image_size_limit_is_five_mebibytes() {
    assert_eq!(MAX_IMAGE_BYTES, 5 * 1024 * 1024);
}

#[test]
fn sanitize_replaces_separators_and_dot_dot() {
    assert_eq!(sanitize_file_name("photo.png"), "photo.png");
    assert_eq!(sanitize_file_name("a/b\\c.png"), "a_b_c.png");
    assert_eq!(sanitize_file_name("../../etc/passwd"), "____etc_passwd");
    assert_eq!(sanitize_file_name("..."), "_.");
    assert_eq!(sanitize_file_name("...."), "__");
    assert_eq!(sanitize_file_name("a..b...c"), "a_b_.c");
    assert_eq!(sanitize_file_name(""), "");
    assert_eq!(sanitize_file_name("."), ".");
}

#[test]
fn sanitize_agrees_with_successive_replacement() {
    let samples = ["", ".", "..", "...", ".....", "./.", "..\\..", "a/../b", "x.y..z", "\u{e9}/..", "/.\\./"];
    for s in samples {
        let expected = s.replace('\\', "_").replace('/', "_").replace("..", "_");
        let got = sanitize_file_name(s);
        assert_eq!(got, expected, "{:?}", s);
        assert!(!got.contains('/') && !got.contains('\\') && !got.contains(".."));
    }
}

#[test]
fn asset_file_has_a_temporary_name_and_a_relative_path() {
    let file = asset_file("pic.png".to_string());
    assert_eq!(file.file_name, "pic.png");
    assert_eq!(file.tmp_name, "pic.png.tmp");
    assert_eq!(file.relative_path, "assets/pic.png");
}

#[test]
fn preview_image_is_named_after_the_time() {
    let file = save_asset_bytes(".png", 1700000000000);
    assert_eq!(file.file_name, "link-1700000000000.png");
    assert_eq!(file.tmp_name, "link-1700000000000.png.tmp");
    assert_eq!(file.relative_path, "assets/link-1700000000000.png");
}

#[test]
fn preview_image_extension_gets_its_dot() {
    assert_eq!(save_asset_bytes("img", 5).file_name, "link-5.img");
    assert_eq!(save_asset_bytes("", 5).file_name, "link-5.");
    assert_eq!(save_asset_bytes("../x", 5).file_name, "link-5__x");
    assert_eq!(save_asset_bytes("x/..", 5).file_name, "link-5.x__");
    assert_eq!(save_asset_bytes(".a/b", -1).file_name, "link--1.a_b");
}

#[test]
fn save_image_decodes_the_payload() {
    let upload = save_image("board-1", "a/b.png", "aGVsbG8=").unwrap();
    assert_eq!(upload.bytes, b"hello".to_vec());
    assert_eq!(upload.file.file_name, "a_b.png");
    assert_eq!(upload.file.relative_path, "assets/a_b.png");
    assert_eq!(upload.file.tmp_name, "a_b.png.tmp");
    let empty = save_image("board-1", "e", "").unwrap();
    assert!(empty.bytes.is_empty());
}

#[test]
fn save_image_rejects_a_payload_that_is_not_base64() {
    assert_eq!(save_image("board-1", "a.png", "not base64!"), Err(StoreError::InvalidPayload));
    assert_eq!(save_image("board-1", "a.png", "aGVsbG8"), Err(StoreError::InvalidPayload));
}

#[test]
fn save_image_rejects_an_invalid_board_id_first() {
    assert_eq!(save_image("../x", "a.png", "aGVsbG8="), Err(StoreError::InvalidIdentifier));
    assert_eq!(save_image("", "a.png", "???"), Err(StoreError::InvalidIdentifier));
}

#[test]
fn place_image_takes_the_decoded_bytes() {
    let upload = place_image("b", "..", Some(vec![1, 2, 3])).unwrap();
    assert_eq!(upload.bytes, vec![1, 2, 3]);
    assert_eq!(upload.file.file_name, "_");
    assert_eq!(place_image("b", "x", None), Err(StoreError::InvalidPayload));
    assert_eq!(place_image("b c", "x", Some(vec![])), Err(StoreError::InvalidIdentifier));
}
