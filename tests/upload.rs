use upload_server::upload::{
    storage_name, storage_name_with, upload, FileUpload, UploadError, UploadPart,
};

fn part(name: Option<&str>, contents: &[u8]) -> UploadPart {
    UploadPart { file_name: name.map(|n| n.to_string()), contents: contents.to_vec() }
}

#[test]
fn empty_batch_is_refused() {
    let r = upload(&FileUpload { files: vec![] });
    assert_eq!(r, Err(UploadError::EmptyBatch));
    assert_eq!(UploadError::EmptyBatch.status(), 400);
    assert_eq!(UploadError::EmptyBatch.message(), "upload file is empty");
}

#[test]
fn missing_file_name_refuses_whole_batch() {
    let batch = FileUpload {
        files: vec![part(Some("a.txt"), b"a"), part(None, b"b"), part(Some("c.txt"), b"c")],
    };
    assert_eq!(upload(&batch), Err(UploadError::MissingFileName));
    assert_eq!(UploadError::MissingFileName.status(), 400);
    assert_eq!(UploadError::MissingFileName.message(), "upload file name is empty");
}

#[test]
fn every_part_gets_a_name_in_order() {
    let batch = FileUpload {
        files: vec![part(Some("a.txt"), b"1"), part(Some("b.txt"), b"2"), part(Some("a.txt"), b"3")],
    };
    assert_eq!(
        upload(&batch).unwrap(),
        vec!["a.txt".to_string(), "b.txt".to_string(), "a.txt".to_string()]
    );
}

#[test]
fn names_are_sanitized() {
    let batch = FileUpload {
        files: vec![part(Some("../etc/passwd"), b""), part(Some("a<b>:c?.txt"), b""), part(Some(".."), b"")],
    };
    let names = upload(&batch).unwrap();
    assert_eq!(names, vec!["..etcpasswd".to_string(), "abc.txt".to_string(), String::new()]);
}

#[test]
fn free_name_is_kept() {
    assert_eq!(storage_name("report.txt", false), "report.txt");
}

#[test]
fn taken_name_gets_unique_suffix() {
    let first = storage_name("report.txt", false);
    let second = storage_name("report.txt", true);
    assert_ne!(first, second);
    assert!(second.starts_with("report.txt."));
    assert_eq!(second.len(), "report.txt.".len() + 36);
    assert!(second["report.txt.".len()..].chars().all(|c| c.is_ascii_hexdigit() || c == '-'));
    let third = storage_name("report.txt", true);
    assert_ne!(second, third);
}

#[test]
fn suffixed_name_is_exact() {
    assert_eq!(storage_name_with("report.txt", true, "abc"), "report.txt.abc");
    assert_eq!(storage_name_with("report.txt", false, "abc"), "report.txt");
}
