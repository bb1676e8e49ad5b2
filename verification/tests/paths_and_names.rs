use std::io::Read;

use p2p_desktop::error::{Error, IoErrorKind};
use p2p_desktop::files::{read_unless, ScanCancellation};
use p2p_desktop::paths::validate_relative_path;
use p2p_desktop::secure_fs::{fold_key, join_forms, name_key};

#[test]
fn portable_invalid_paths_and_internal_namespace_are_rejected() {
    for path in [
        "../escape",
        "/absolute",
        "a/../b",
        "a/./b",
        "a//b",
        "C:/drive",
        "\\\\server\\share",
        "a\\b",
        "a:ads",
        "CON.txt",
        "COM1",
        "LPT².txt",
        "a.",
        "a ",
        "a/\0bad",
        ".p2p-desktop",
        "a/.P2P-DESKTOP/b",
    ] {
        assert!(validate_relative_path(path).is_err(), "accepted {path:?}");
    }
}

#[test]
fn collision_keys_detect_case_and_unicode_normalization_on_all_platforms() {
    assert_eq!(name_key("name"), name_key("NAME"));
    assert_eq!(name_key("é.txt"), name_key("e\u{301}.txt"));
    assert_eq!(name_key("σ.txt"), name_key("ς.txt"));
    assert_eq!(name_key("I.txt"), name_key("ı.txt"));
    assert_eq!(name_key("straße.txt"), name_key("STRASSE.txt"));
}

#[test]
fn keys_are_the_lower_case_of_the_upper_case() {
    let chars = |text: &str| text.chars().collect::<Vec<char>>();
    assert_eq!(fold_key(&chars("Straße")), "strasse");
    assert_eq!(fold_key(&chars("ς")), "σ");
    assert_eq!(fold_key(&chars("ı")), "i");
    assert_eq!(fold_key(&chars("")), "");
    assert_eq!(fold_key(&chars("e\u{301}")), "e\u{301}");
    assert_eq!(name_key("e\u{301}"), "é");
    assert_eq!(join_forms(&vec![chars("ab"), Vec::new(), chars("c")]), chars("abc"));
}

#[test]
fn paths_are_relative_portable_and_never_silently_rewritten() {
    for path in ["文件夹/你好.txt", "a/b/c", "empty", "COM10.txt"] {
        validate_relative_path(path).unwrap();
    }
    for path in [
        "",
        "/a",
        "a/",
        "a//b",
        ".",
        "..",
        "a/../b",
        "a/./b",
        "C:/x",
        "C:x",
        "//host/share",
        "a\\b",
        "x:stream",
        "nul.txt",
        "CON",
        "LPT9.bin",
        "COM¹",
        "a.",
        "a ",
        "a\0b",
        "a\nb",
        "a?b",
    ] {
        assert!(
            validate_relative_path(path).is_err(),
            "unsafe path accepted: {path:?}"
        );
    }
    assert!(validate_relative_path(&"a".repeat(256)).is_err());
    assert!(validate_relative_path(&vec!["a"; 65].join("/")).is_err());
}

struct CancellableReader<R> {
    inner: R,
    cancel: ScanCancellation,
}

impl<R: Read> Read for CancellableReader<R> {
    fn read(&mut self, bytes: &mut [u8]) -> std::io::Result<usize> {
        let inner = &mut self.inner;
        self.cancel
            .read(|| Ok(inner.read(bytes).unwrap()))
            .map_err(|error| match error {
                Error::Io { kind: IoErrorKind::Other, text } => std::io::Error::other(text),
                _ => panic!("another failure"),
            })
    }
}

#[test]
fn cancelling_reader_during_hash_returns_error_without_retry_loop() {
    let cancel = ScanCancellation::default();
    let mut reader = CancellableReader {
        inner: std::io::Cursor::new(vec![1; 1024]),
        cancel: cancel.clone(),
    };
    let mut bytes = [0; 8];
    reader.read_exact(&mut bytes).unwrap();
    cancel.cancel();
    assert!(reader.read_exact(&mut bytes).is_err());
    let failed = reader.read(&mut bytes).unwrap_err();
    assert_eq!(failed.kind(), std::io::ErrorKind::Other);
    assert_eq!(failed.to_string(), "selection scan cancelled");
    assert_eq!(reader.inner.position(), 8);
}

#[test]
fn reads_end_with_the_scan() {
    assert_eq!(read_unless(false, || Ok(5)).unwrap(), 5);
    assert!(matches!(
        read_unless(true, || Ok(5)),
        Err(Error::Io { kind: IoErrorKind::Other, .. })
    ));
}
