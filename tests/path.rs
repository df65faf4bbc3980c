use dua::{Path, PathBuf};

#[test]
fn paths_keep_their_text() {
    let p = Path::new("some/dir");
    assert_eq!(p.to_str(), Some("some/dir"));
    let b = PathBuf::from_string(String::from("other/file"));
    assert_eq!(b.to_str(), Some("other/file"));
}
