use savhub::bundle::zip_files;
use savhub::error::AppError;
use savhub::model::PublishBundleFile;
use std::io::Read;

fn file(path: &str, content: &str) -> PublishBundleFile {
    PublishBundleFile { path: path.to_string(), content: content.to_string() }
}

#[test]
fn archive_holds_each_file() {
    let bytes = zip_files(&vec![file("SKILL.md", "# Demo\n"), file("src/a.txt", "alpha")]).unwrap();
    assert_eq!(&bytes[0..4], b"PK\x03\x04");
    let mut archive = zip::ZipArchive::new(std::io::Cursor::new(bytes)).unwrap();
    assert_eq!(archive.len(), 2);
    let mut text = String::new();
    archive.by_name("src/a.txt").unwrap().read_to_string(&mut text).unwrap();
    assert_eq!(text, "alpha");
    assert_eq!(archive.by_index(0).unwrap().name().unwrap(), "SKILL.md");
}

#[test]
fn empty_archive_and_duplicate_names() {
    let empty = zip_files(&Vec::new()).unwrap();
    let archive = zip::ZipArchive::new(std::io::Cursor::new(empty)).unwrap();
    assert_eq!(archive.len(), 0);
    let dup = zip_files(&vec![file("a", "1"), file("a", "2")]);
    assert!(matches!(dup, Err(AppError::Internal(_))));
}

#[test]
fn archive_entries_hold_each_content_in_order() {
    let bytes = zip_files(&vec![file("b.md", "second"), file("a.md", ""), file("c/d.txt", "x\ny")])
        .unwrap();
    let mut archive = zip::ZipArchive::new(std::io::Cursor::new(bytes)).unwrap();
    let expected = [("b.md", "second"), ("a.md", ""), ("c/d.txt", "x\ny")];
    assert_eq!(archive.len(), expected.len());
    for (i, (name, content)) in expected.iter().enumerate() {
        let mut entry = archive.by_index(i).unwrap();
        assert_eq!(entry.name().unwrap(), *name);
        let mut text = String::new();
        entry.read_to_string(&mut text).unwrap();
        assert_eq!(text, *content);
    }
}

#[test]
fn archive_of_distinct_paths_is_written() {
    let files = vec![file("x", ""), file("y/z", "content"), file("日本.md", "テキスト")];
    let bytes = zip_files(&files).unwrap();
    let archive = zip::ZipArchive::new(std::io::Cursor::new(bytes)).unwrap();
    assert_eq!(archive.len(), 3);
}
