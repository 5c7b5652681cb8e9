use source_browser::content::{classify_blob, Blob, FileContent};
use source_browser::listing::{DirectoryEntry, EntryKind, ManifestEntry};
use source_browser::page::{source_page, FileList, MetaData, Release};
use source_browser::paths::{dir_prefix, file_path_of, should_fetch};
use source_browser::version::{redirect_path, version_step, VersionMatch, VersionStep};

fn segs(v: &[&str]) -> Vec<String> {
    v.iter().map(|s| s.to_string()).collect()
}

fn blob(path: &str, mime: &str, content: &[u8]) -> Blob {
    Blob { path: path.to_string(), mime: mime.to_string(), content: content.to_vec() }
}

fn metadata() -> MetaData {
    MetaData {
        name: "fake".to_string(),
        version: "0.1.0".to_string(),
        description: Some("some stuff with krate".to_string()),
        target_name: Some("fake".to_string()),
        rustdoc_status: true,
        default_target: Some("x86_64-unknown-linux-gnu".to_string()),
        doc_targets: vec!["x86_64-unknown-linux-gnu".to_string()],
        yanked: false,
    }
}

fn release(paths: &[(&str, &str)]) -> Release {
    Release {
        metadata: metadata(),
        files: paths
            .iter()
            .map(|(m, p)| ManifestEntry { mime: m.to_string(), path: p.to_string() })
            .collect(),
    }
}

#[test]
fn file_and_directory_paths() {
    let s = segs(&["src", "lib.rs"]);
    assert_eq!(file_path_of(&s), "src/lib.rs");
    assert_eq!(dir_prefix(&s), "src/");
    let s = segs(&["src", ""]);
    assert_eq!(file_path_of(&s), "src/");
    assert_eq!(dir_prefix(&s), "src/");
    let s = segs(&["lib.rs"]);
    assert_eq!(file_path_of(&s), "lib.rs");
    assert_eq!(dir_prefix(&s), "");
    let s = segs(&[""]);
    assert_eq!(file_path_of(&s), "");
    assert_eq!(dir_prefix(&s), "");
    assert_eq!(dir_prefix(&segs(&[])), "");
    assert_eq!(dir_prefix(&segs(&["a", "b", "c.rs"])), "a/b/");
}

#[test]
fn fetch_only_for_files() {
    assert!(should_fetch("src/lib.rs"));
    assert!(should_fetch("fold.rs"));
    assert!(!should_fetch("src/"));
    assert!(!should_fetch(""));
}

#[test]
fn redirect_path_keeps_sub_path() {
    assert_eq!(
        redirect_path("mbedtls", "0.2.0", "src/lib.rs"),
        "/crate/mbedtls/0.2.0/source/src/lib.rs"
    );
}

#[test]
fn semver_handled() {
    let m = VersionMatch::FuzzyRedirect { name: "mbedtls".to_string(), version: "0.2.0".to_string() };
    assert_eq!(
        version_step(m, &segs(&[""])),
        VersionStep::Redirect("/crate/mbedtls/0.2.0/source/".to_string())
    );
    let m = VersionMatch::FuzzyRedirect { name: "mbedtls".to_string(), version: "0.2.0".to_string() };
    assert_eq!(
        version_step(m, &segs(&["src", "lib.rs"])),
        VersionStep::Redirect("/crate/mbedtls/0.2.0/source/src/lib.rs".to_string())
    );
}

#[test]
fn exact_version_is_served() {
    let m = VersionMatch::Exact { name: "mbedtls".to_string(), version: "0.2.0".to_string() };
    assert_eq!(
        version_step(m, &segs(&[""])),
        VersionStep::Serve { name: "mbedtls".to_string(), version: "0.2.0".to_string() }
    );
}

#[test]
fn unmatched_version_is_not_found() {
    assert_eq!(version_step(VersionMatch::NotFound, &segs(&["a"])), VersionStep::NotFound);
}

#[test]
fn literal_krate_description() {
    let b = blob("fold.rs", "text/x-rust", b"fn foo() {}");
    assert_eq!(
        classify_blob(Some(&b)),
        FileContent::Inline { content: Some("fn foo() {}".to_string()), is_rust_source: true }
    );
}

#[test]
fn text_file_without_rust_extension() {
    let b = blob("README.md", "text/markdown", b"hello");
    assert_eq!(
        classify_blob(Some(&b)),
        FileContent::Inline { content: Some("hello".to_string()), is_rust_source: false }
    );
}

#[test]
fn binary_file_is_passed_through() {
    let b = blob("logo.png", "image/png", &[0x89, 0x50, 0x4e, 0x47]);
    assert_eq!(classify_blob(Some(&b)), FileContent::Passthrough);
}

#[test]
fn empty_file_shows_nothing() {
    let b = blob("logo.png", "image/png", b"");
    assert_eq!(classify_blob(Some(&b)), FileContent::Inline { content: None, is_rust_source: false });
    let b = blob("empty.rs", "text/x-rust", b"");
    assert_eq!(classify_blob(Some(&b)), FileContent::Inline { content: None, is_rust_source: false });
}

#[test]
fn missing_file_shows_nothing() {
    assert_eq!(classify_blob(None), FileContent::Inline { content: None, is_rust_source: false });
}

#[test]
fn invalid_utf8_text_degrades_to_no_content() {
    let b = blob("bad.rs", "text/x-rust", &[0xff, 0xfe, 0x41]);
    assert_eq!(classify_blob(Some(&b)), FileContent::Inline { content: None, is_rust_source: true });
}

#[test]
fn fetch_source_file_content() {
    let rel = release(&[("text/x-rust", "some_filename.rs")]);
    let s = segs(&["some_filename.rs"]);
    let file_path = file_path_of(&s);
    assert!(should_fetch(&file_path));
    let b = blob(&file_path, "text/x-rust", b"some_random_content");
    let (content, rust) = match classify_blob(Some(&b)) {
        FileContent::Inline { content, is_rust_source } => (content, is_rust_source),
        FileContent::Passthrough => panic!("text file streamed"),
    };
    let page = source_page(Some(rel), &dir_prefix(&s), content, rust).unwrap();
    assert_eq!(page.file_content.as_deref(), Some("some_random_content"));
    assert!(page.is_rust_source);
    assert!(!page.show_parent_link);
    assert_eq!(
        page.file_list,
        FileList {
            metadata: metadata(),
            files: vec![DirectoryEntry {
                name: "some_filename.rs".to_string(),
                kind: EntryKind::File("text/x-rust".to_string()),
            }],
        }
    );
}

#[test]
fn page_for_sub_directory_links_to_parent() {
    let rel = release(&[("text/x-rust", "src/lib.rs")]);
    let page = source_page(Some(rel), "src/", None, false).unwrap();
    assert!(page.show_parent_link);
    assert_eq!(page.file_list.files.len(), 1);
}

#[test]
fn unknown_directory_is_not_found_even_with_content() {
    let rel = release(&[("text/x-rust", "src/lib.rs")]);
    assert!(source_page(Some(rel), "test/", Some("text".to_string()), true).is_none());
}

#[test]
fn missing_release_is_not_found() {
    assert!(source_page(None, "", None, false).is_none());
}
