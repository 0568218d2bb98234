use longlens::portal_transfer::{
    decode_file_size, next_chunk_size, FileDownload, numbered_file_name, unique_clipboard_file_name, UsedNames,
    REMOTE_FILE_CHUNK_SIZE,
};

#[test]
fn chunks_are_capped() {
    assert_eq!(next_chunk_size(100_000, 0), REMOTE_FILE_CHUNK_SIZE);
    assert_eq!(next_chunk_size(100_000, 98_304), 1_696);
    assert_eq!(next_chunk_size(10, 9), 1);
}

#[test]
fn file_size_is_little_endian() {
    assert_eq!(decode_file_size(&[1, 2, 0, 0, 0, 0, 0, 0]), Some(0x0201));
    assert_eq!(decode_file_size(&[0, 0, 0, 0, 0, 0, 0, 0x80]), Some(0x8000_0000_0000_0000));
    assert_eq!(decode_file_size(&[1, 2, 3]), None);
    assert_eq!(decode_file_size(&[0; 9]), None);
}

#[test]
fn numbers_go_before_the_extension() {
    assert_eq!(numbered_file_name("report.pdf", 2), "report (2).pdf");
    assert_eq!(numbered_file_name("archive.tar.gz", 3), "archive.tar (3).gz");
    assert_eq!(numbered_file_name("README", 2), "README (2)");
    assert_eq!(numbered_file_name(".bashrc", 2), ".bashrc (2)");
}

#[test]
fn repeated_names_are_numbered() {
    let mut used = UsedNames::new();
    assert_eq!(unique_clipboard_file_name("a.txt", &mut used), "a.txt");
    assert_eq!(unique_clipboard_file_name("a.txt", &mut used), "a (2).txt");
    assert_eq!(unique_clipboard_file_name("a.txt", &mut used), "a (3).txt");
    assert_eq!(unique_clipboard_file_name("b", &mut used), "b");
    assert!(used.contains("a (2).txt"));
    assert_eq!(used.get("a.txt"), Some(3));
}

#[test]
fn numbered_names_already_taken_are_skipped() {
    let mut used = UsedNames::new();
    assert_eq!(unique_clipboard_file_name("a (2).txt", &mut used), "a (2).txt");
    assert_eq!(unique_clipboard_file_name("a.txt", &mut used), "a.txt");
    assert_eq!(unique_clipboard_file_name("a.txt", &mut used), "a (3).txt");
}

#[test]
fn download_progresses_in_chunks() {
    let mut d = FileDownload::new(40_000);
    assert_eq!(d.next_request(), Some((0, REMOTE_FILE_CHUNK_SIZE)));
    d.chunk_arrived(Some(REMOTE_FILE_CHUNK_SIZE as usize));
    assert_eq!(d.next_request(), Some((32_768, 40_000 - 32_768)));
    d.chunk_arrived(Some(40_000 - 32_768));
    assert_eq!(d.next_request(), None);
    assert!(d.is_complete());
}

#[test]
fn empty_or_missing_response_stops_the_download() {
    let mut d = FileDownload::new(10);
    d.chunk_arrived(Some(0));
    assert_eq!(d.next_request(), None);
    assert!(!d.is_complete());
    let mut d = FileDownload::new(10);
    d.chunk_arrived(None);
    assert!(d.stopped);
    assert!(!d.is_complete());
}

#[test]
fn empty_file_is_complete_at_once() {
    let d = FileDownload::new(0);
    assert_eq!(d.next_request(), None);
    assert!(d.is_complete());
}
