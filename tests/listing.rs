use source_browser::listing::{build_listing, DirectoryEntry, EntryKind, ManifestEntry};

fn entry(mime: &str, path: &str) -> ManifestEntry {
    ManifestEntry { mime: mime.to_string(), path: path.to_string() }
}

fn file(name: &str, mime: &str) -> DirectoryEntry {
    DirectoryEntry { name: name.to_string(), kind: EntryKind::File(mime.to_string()) }
}

fn dir(name: &str) -> DirectoryEntry {
    DirectoryEntry { name: name.to_string(), kind: EntryKind::Dir }
}

fn sample() -> Vec<ManifestEntry> {
    vec![
        entry("text/plain", ".gitignore"),
        entry("text/x-rust", "src/lib.rs"),
        entry("text/x-rust", "src/reseeding.rs"),
        entry("text/markdown", "README.md"),
    ]
}

#[test]
fn root_listing_puts_directories_first() {
    let got = build_listing(&sample(), "").unwrap();
    assert_eq!(
        got,
        vec![dir("src"), file(".gitignore", "text/plain"), file("README.md", "text/markdown")]
    );
}

#[test]
fn sub_directory_listing() {
    let got = build_listing(&sample(), "src/").unwrap();
    assert_eq!(got, vec![file("lib.rs", "text/x-rust"), file("reseeding.rs", "text/x-rust")]);
}

#[test]
fn cargo_ok_not_skipped() {
    let m = vec![entry("text/plain", ".cargo-ok"), entry("text/markdown", "README.md")];
    let got = build_listing(&m, "").unwrap();
    assert_eq!(got, vec![file("README.md", "text/markdown")]);
}

#[test]
fn marker_alone_gives_no_listing() {
    let m = vec![entry("text/plain", ".cargo-ok")];
    assert!(build_listing(&m, "").is_none());
}

#[test]
fn nested_marker_is_excluded() {
    let m = vec![entry("text/plain", "sub/.cargo-ok")];
    assert!(build_listing(&m, "").is_none());
    assert!(build_listing(&m, "sub/").is_none());
    let m = vec![entry("text/plain", "sub/.cargo-ok"), entry("text/x-rust", "sub/a.rs")];
    assert_eq!(build_listing(&m, "").unwrap(), vec![dir("sub")]);
    assert_eq!(build_listing(&m, "sub/").unwrap(), vec![file("a.rs", "text/x-rust")]);
}

#[test]
fn directory_not_found() {
    assert!(build_listing(&Vec::new(), "test/").is_none());
    assert!(build_listing(&sample(), "test/").is_none());
}

#[test]
fn empty_manifest_root_is_absent() {
    assert!(build_listing(&Vec::new(), "").is_none());
}

#[test]
fn shared_directory_listed_once() {
    let m = vec![
        entry("text/x-rust", "src/a.rs"),
        entry("text/x-rust", "src/b/c.rs"),
        entry("text/x-rust", "src/b/d.rs"),
        entry("text/x-rust", "src/a.rs"),
    ];
    assert_eq!(build_listing(&m, "").unwrap(), vec![dir("src")]);
    assert_eq!(build_listing(&m, "src/").unwrap(), vec![dir("b"), file("a.rs", "text/x-rust")]);
}

#[test]
fn names_sort_without_case() {
    let m = vec![
        entry("text/plain", "c"),
        entry("text/plain", "B"),
        entry("text/plain", "a"),
        entry("text/plain", "Zdir/x"),
        entry("text/plain", "ydir/x"),
    ];
    assert_eq!(
        build_listing(&m, "").unwrap(),
        vec![
            dir("ydir"),
            dir("Zdir"),
            file("a", "text/plain"),
            file("B", "text/plain"),
            file("c", "text/plain"),
        ]
    );
}

#[test]
fn names_equal_without_case_fall_back_to_case() {
    let m = vec![entry("text/plain", "a"), entry("text/plain", "A")];
    assert_eq!(
        build_listing(&m, "").unwrap(),
        vec![file("A", "text/plain"), file("a", "text/plain")]
    );
}

#[test]
fn same_name_different_mime_are_both_listed() {
    let m = vec![entry("text/x-rust", "x"), entry("text/plain", "x")];
    assert_eq!(
        build_listing(&m, "").unwrap(),
        vec![file("x", "text/plain"), file("x", "text/x-rust")]
    );
}

#[test]
fn prefix_is_stripped_only_at_the_front() {
    let m = vec![entry("text/plain", "a/b/a/c.txt")];
    assert_eq!(build_listing(&m, "a/").unwrap(), vec![dir("b")]);
    assert_eq!(build_listing(&m, "a/b/a/").unwrap(), vec![file("c.txt", "text/plain")]);
}

#[test]
fn listing_has_no_duplicates_and_is_ordered() {
    let m = vec![
        entry("text/plain", "z.txt"),
        entry("text/plain", "docs/one.md"),
        entry("text/plain", "Docs2/two.md"),
        entry("text/plain", "docs/three.md"),
        entry("image/png", "logo.png"),
        entry("text/plain", "z.txt"),
    ];
    let got = build_listing(&m, "").unwrap();
    for i in 0..got.len() {
        for j in 0..got.len() {
            if i != j {
                assert_ne!(got[i], got[j]);
            }
        }
    }
    let first_file = got.iter().position(|e| e.kind != EntryKind::Dir).unwrap();
    assert!(got[..first_file].iter().all(|e| e.kind == EntryKind::Dir));
    assert!(got[first_file..].iter().all(|e| e.kind != EntryKind::Dir));
    for w in got[..first_file].windows(2).chain(got[first_file..].windows(2)) {
        assert!(w[0].name.to_lowercase() <= w[1].name.to_lowercase());
    }
    assert_eq!(got.len(), 4);
}
