use std::path::PathBuf;

use longlens::clipboard_codec::{
    decode_clipboard_text, decode_file_group_descriptor, encode_clipboard_text,
    encode_file_group_descriptor, sanitize_remote_file_name,
};
use longlens::session::LocalClipboardFile;

#[test]
fn text_is_utf16le_with_terminator() {
    assert_eq!(encode_clipboard_text("hi"), vec![0x68, 0, 0x69, 0, 0, 0]);
    assert_eq!(encode_clipboard_text(""), vec![0, 0]);
    // U+1F600 is a surrogate pair.
    assert_eq!(
        encode_clipboard_text("\u{1F600}"),
        vec![0x3d, 0xd8, 0x00, 0xde, 0, 0]
    );
}

#[test]
fn text_round_trips() {
    for text in ["", "hello", "Grüße", "a\u{1F600}b", "line\r\nbreak"] {
        assert_eq!(decode_clipboard_text(&encode_clipboard_text(text)).as_deref(), Some(text));
    }
}

#[test]
fn decoding_stops_at_nul_and_ignores_odd_byte() {
    assert_eq!(decode_clipboard_text(&[0x61, 0, 0, 0, 0x62, 0]).as_deref(), Some("a"));
    assert_eq!(decode_clipboard_text(&[0x61, 0, 0x62]).as_deref(), Some("a"));
    assert_eq!(decode_clipboard_text(&[]).as_deref(), Some(""));
}

#[test]
fn unpaired_surrogate_is_rejected() {
    assert_eq!(decode_clipboard_text(&[0x3d, 0xd8, 0, 0]), None);
}

#[test]
fn remote_names_are_reduced_to_last_component() {
    assert_eq!(sanitize_remote_file_name("a\\b").as_deref(), Some("b"));
    assert_eq!(sanitize_remote_file_name("dir/file.txt").as_deref(), Some("file.txt"));
    assert_eq!(sanitize_remote_file_name("dir/sub/").as_deref(), Some("sub"));
    assert_eq!(sanitize_remote_file_name("dir/.").as_deref(), Some("dir"));
    assert_eq!(sanitize_remote_file_name("plain").as_deref(), Some("plain"));
}

#[test]
fn unusable_remote_names_are_rejected() {
    assert_eq!(sanitize_remote_file_name(".."), None);
    assert_eq!(sanitize_remote_file_name("."), None);
    assert_eq!(sanitize_remote_file_name(""), None);
    assert_eq!(sanitize_remote_file_name("a/.."), None);
    assert_eq!(sanitize_remote_file_name("\\"), None);
}

fn local(name: &str, size: u64, is_directory: bool) -> LocalClipboardFile {
    LocalClipboardFile {
        path: PathBuf::from(name),
        name: name.to_owned(),
        size,
        is_directory,
    }
}

#[test]
fn descriptor_layout() {
    let data = encode_file_group_descriptor(&[local("a.txt", 0x1_0000_0002, false)]);
    assert_eq!(data.len(), 4 + 592);
    assert_eq!(&data[0..4], &[1, 0, 0, 0]);
    // FD_UNICODE | FD_ATTRIBUTES | FD_FILESIZE
    assert_eq!(&data[4..8], &[0x44, 0, 0, 0x80]);
    // FILE_ATTRIBUTE_NORMAL
    assert_eq!(&data[4 + 36..4 + 40], &[0x80, 0, 0, 0]);
    assert_eq!(&data[4 + 64..4 + 72], &[1, 0, 0, 0, 2, 0, 0, 0]);
    assert_eq!(&data[4 + 72..4 + 82], &[b'a', 0, b'.', 0, b't', 0, b'x', 0, b't', 0]);
    assert!(data[4 + 82..].iter().all(|b| *b == 0));
}

#[test]
fn descriptor_round_trips() {
    let files = [local("report.pdf", 12345, false), local("photos", 0, true)];
    let decoded = decode_file_group_descriptor(&encode_file_group_descriptor(&files)).unwrap();
    assert_eq!(decoded.len(), 2);
    assert_eq!(decoded[0].name, "report.pdf");
    assert_eq!(decoded[0].size, 12345);
    assert!(!decoded[0].is_directory);
    assert_eq!(decoded[1].name, "photos");
    assert_eq!(decoded[1].size, 0);
    assert!(decoded[1].is_directory);
}

#[test]
fn long_names_are_cut() {
    let long = "x".repeat(300);
    let decoded =
        decode_file_group_descriptor(&encode_file_group_descriptor(&[local(&long, 1, false)]))
            .unwrap();
    assert_eq!(decoded[0].name, "x".repeat(259));
}

#[test]
fn short_descriptors_are_rejected() {
    assert!(decode_file_group_descriptor(&[1, 0]).is_none());
    assert!(decode_file_group_descriptor(&[1, 0, 0, 0, 0, 0]).is_none());
    assert_eq!(decode_file_group_descriptor(&[0, 0, 0, 0]).map(|v| v.len()), Some(0));
}

#[test]
fn descriptor_with_unusable_name_is_rejected() {
    let data = encode_file_group_descriptor(&[local("..", 1, false)]);
    assert!(decode_file_group_descriptor(&data).is_none());
}
