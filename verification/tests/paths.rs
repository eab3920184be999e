use choreo_tools::encoding::{decode_image_dimensions, human_size, sha256_hex};
use choreo_tools::paths::{
    expand_tilde, expand_tilde_in, file_name, join_path, path_label, resolve_path_in,
    strip_prefix, symlink_target_label,
};

#[test]
fn expand_tilde_plain_path_unchanged() {
    assert_eq!(expand_tilde("/absolute/path"), "/absolute/path");
    assert_eq!(expand_tilde("relative/path"), "relative/path");
    assert_eq!(expand_tilde("./dots"), "./dots");
    assert_eq!(expand_tilde(""), "");
}

#[test]
fn expand_tilde_expands_to_home_dir() {
    let expanded = expand_tilde("~");
    let home = dirs::home_dir().expect("home dir should exist in test env");
    assert_eq!(expanded, home.to_string_lossy());
}

#[test]
fn expand_tilde_expands_with_slash() {
    let expanded = expand_tilde("~/choreographr");
    let home = dirs::home_dir().expect("home dir should exist in test env");
    let expected = format!("{}/choreographr", home.to_string_lossy());
    assert_eq!(expanded, expected);
}

#[test]
fn expand_tilde_expands_nested() {
    let expanded = expand_tilde("~/projects/foo/bar");
    let home = dirs::home_dir().expect("home dir should exist in test env");
    let expected = format!("{}/projects/foo/bar", home.to_string_lossy());
    assert_eq!(expanded, expected);
}

#[test]
fn expand_tilde_user_form_left_alone() {
    // ~user is intentionally not expanded.
    assert_eq!(expand_tilde("~other/project"), "~other/project");
    assert_eq!(expand_tilde("~other"), "~other");
}

#[test]
fn expand_tilde_mid_path_left_alone() {
    // Tilde not at the start is not expanded.
    assert_eq!(expand_tilde("/path/~foo"), "/path/~foo");
}

#[test]
fn a_tilde_stays_without_a_home() {
    assert_eq!(expand_tilde_in("~/a", None), "~/a");
    assert_eq!(expand_tilde_in("~/a", Some("/home/u")), "/home/u/a");
    assert_eq!(expand_tilde_in("~", Some("/home/u")), "/home/u");
}

#[test]
fn paths_are_resolved_against_the_working_directory() {
    assert_eq!(resolve_path_in("a.txt", Some("/w"), None), "/w/a.txt");
    assert_eq!(resolve_path_in("/a.txt", Some("/w"), None), "/a.txt");
    assert_eq!(resolve_path_in("~/a", Some("/w"), Some("/h")), "/h/a");
    assert_eq!(resolve_path_in("a.txt", None, None), "a.txt");
    assert_eq!(join_path("/w/", "a"), "/w/a");
    assert_eq!(join_path("/w", "/abs"), "/abs");
}

#[test]
fn parts_of_paths_are_found() {
    assert_eq!(file_name("/a/b.txt").as_deref(), Some("b.txt"));
    assert_eq!(file_name("/a/b/").as_deref(), Some("b"));
    assert_eq!(file_name("/"), None);
    assert_eq!(file_name("a/.."), None);
    assert_eq!(strip_prefix("/w/a/b", "/w").as_deref(), Some("a/b"));
    assert_eq!(strip_prefix("/wa/b", "/w"), None);
    assert_eq!(path_label("/w/a/b", "/w", false), "a/b");
    assert_eq!(path_label("/w/a", "/w/a", true), "a");
}

#[test]
fn symlink_target_label_sanitizes_control_chars() {
    assert_eq!(symlink_target_label(Some("evil\ntarget.txt"), false), "evil\\ntarget.txt");
    assert_eq!(symlink_target_label(Some("dir"), true), "dir/");
}

#[test]
fn human_size_formats() {
    assert_eq!(human_size(0), "0 B");
    assert_eq!(human_size(512), "512 B");
    assert_eq!(human_size(1024), "1 KiB");
    assert_eq!(human_size(1500), "1.5 KiB");
    assert_eq!(human_size(1024 * 1024), "1 MiB");
    assert_eq!(human_size(5 * 1024 * 1024), "5 MiB");
    assert_eq!(human_size(100 * 1024 * 1024), "100 MiB");
}

#[test]
fn a_digest_is_written_in_hexadecimal() {
    assert_eq!(
        sha256_hex("abc"),
        "ba7816bf8f01cfea414140de5dae2223b00361a396177a9cb410ff61f20015ad"
    );
}

#[test]
fn dimensions_are_read_from_an_image() {
    let mut png: Vec<u8> = Vec::new();
    let img = image::DynamicImage::new_rgb8(3, 2);
    img.write_to(&mut std::io::Cursor::new(&mut png), image::ImageFormat::Png).unwrap();
    assert_eq!(decode_image_dimensions(&png), (3, 2));
    assert_eq!(decode_image_dimensions(b"not an image"), (0, 0));
}
