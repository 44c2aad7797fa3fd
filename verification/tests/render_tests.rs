use dirdoc::binary::is_likely_binary;
use dirdoc::render::{
    display_path, language_for_extension, language_label, render_document, render_file,
    render_section, FileEntry,
};
use dirdoc::walker::{collect_all_files, Entry};

fn source(path: &str, bytes: &[u8]) -> FileEntry {
    FileEntry { path: path.to_string(), bytes: bytes.to_vec() }
}

#[test]
fn null_byte_anywhere_marks_binary() {
    assert!(is_likely_binary(&[0]));
    assert!(is_likely_binary(&[1, 2, 0, 3]));
    assert!(is_likely_binary(&[b'a', b'b', 0]));
    assert!(is_likely_binary(b"\0abc"));
}

#[test]
fn content_without_null_byte_is_not_binary() {
    assert!(!is_likely_binary(&[]));
    assert!(!is_likely_binary(b"plain text\n"));
    assert!(!is_likely_binary(&[0xff, 0xfe, 0x80, 1]));
}

#[test]
fn labels_follow_the_table() {
    let table = [
        ("rs", "rust"),
        ("js", "javascript"),
        ("ts", "typescript"),
        ("py", "python"),
        ("java", "java"),
        ("cpp", "cpp"),
        ("cc", "cpp"),
        ("c", "c"),
        ("html", "html"),
        ("css", "css"),
        ("json", "json"),
        ("toml", "toml"),
        ("yaml", "yaml"),
        ("yml", "yaml"),
    ];
    for (ext, label) in table {
        assert_eq!(language_for_extension(Some(ext)), label);
    }
}

#[test]
fn unknown_or_missing_extension_is_plain_text() {
    assert_eq!(language_for_extension(None), "text");
    assert_eq!(language_for_extension(Some("")), "text");
    assert_eq!(language_for_extension(Some("md")), "text");
    assert_eq!(language_for_extension(Some("RS")), "text");
    assert_eq!(language_for_extension(Some("rss")), "text");
}

#[test]
fn label_is_taken_from_the_last_extension_of_the_file_name() {
    assert_eq!(language_label("/r/a.rs"), "rust");
    assert_eq!(language_label("/r/src/app.test.ts"), "typescript");
    assert_eq!(language_label("/r/archive.tar.gz"), "text");
    assert_eq!(language_label("/r/Makefile"), "text");
    assert_eq!(language_label("/r/.json"), "text");
    assert_eq!(language_label("/r/dir.rs/readme"), "text");
    assert_eq!(language_label("/r/x.py"), "python");
    assert_eq!(language_label("/r/trailing."), "text");
}

#[test]
fn display_path_strips_the_root() {
    assert_eq!(display_path("/r/a/b.rs", "/r"), "a/b.rs");
    assert_eq!(display_path("./src/main.rs", "."), "src/main.rs");
    assert_eq!(display_path("proj/src/main.rs", "proj"), "src/main.rs");
    assert_eq!(display_path("/r/a/b.rs", "/r/"), "a/b.rs");
}

#[test]
fn display_path_falls_back_to_the_whole_path() {
    assert_eq!(display_path("/other/a.rs", "/r"), "/other/a.rs");
    assert_eq!(display_path("a.rs", "/r"), "a.rs");
    assert_eq!(display_path("/rr/a.rs", "/r"), "/rr/a.rs");
}

#[test]
fn section_has_heading_fence_content_and_blank_line() {
    assert_eq!(
        render_section("a.rs", "rust", "fn main() {}\n"),
        "# File path: a.rs\n```rust\nfn main() {}\n\n```\n\n"
    );
    assert_eq!(render_section("x", "text", ""), "# File path: x\n```text\n\n```\n\n");
}

#[test]
fn text_file_is_rendered_with_its_content_unchanged() {
    let bytes = "let s = \"héllo, 世界\";\n".as_bytes();
    let section = render_file("/r/src/a.rs", "/r", bytes).unwrap();
    let head = "# File path: src/a.rs\n```rust\n";
    let tail = "\n```\n\n";
    assert!(section.starts_with(head));
    assert!(section.ends_with(tail));
    assert_eq!(&section.as_bytes()[head.len()..section.len() - tail.len()], bytes);
}

#[test]
fn invalid_bytes_are_replaced_not_rejected() {
    let section = render_file("/r/notes.txt", "/r", &[b'a', 0xff, b'b']).unwrap();
    assert_eq!(section, "# File path: notes.txt\n```text\na\u{fffd}b\n```\n\n");
}

#[test]
fn binary_file_is_not_rendered() {
    assert_eq!(render_file("/r/bin/tool", "/r", &[0x7f, b'E', b'L', b'F', 0, 1]), None);
    assert_eq!(render_file("/r/a.rs", "/r", b"fn main() {}\0"), None);
}

#[test]
fn empty_list_gives_an_empty_document() {
    let doc = render_document(&Vec::new(), "/r");
    assert_eq!(doc.text, "");
    assert!(doc.skipped.is_empty());
}

#[test]
fn document_holds_the_sections_in_list_order() {
    let files = vec![
        source("/r/a.rs", b"fn a() {}"),
        source("/r/b/c.py", b"print(1)\n"),
        source("/r/d", b""),
    ];
    let doc = render_document(&files, "/r");
    assert_eq!(
        doc.text,
        "# File path: a.rs\n```rust\nfn a() {}\n```\n\n\
         # File path: b/c.py\n```python\nprint(1)\n\n```\n\n\
         # File path: d\n```text\n\n```\n\n"
    );
    assert!(doc.skipped.is_empty());
}

#[test]
fn binary_file_is_reported_once_and_leaves_no_section() {
    let files = vec![
        source("/r/a.rs", b"fn a() {}"),
        source("/r/bin/tool", &[1, 0, 2]),
        source("/r/z.txt", b"z"),
    ];
    let doc = render_document(&files, "/r");
    assert_eq!(
        doc.text,
        "# File path: a.rs\n```rust\nfn a() {}\n```\n\n# File path: z.txt\n```text\nz\n```\n\n"
    );
    assert_eq!(doc.skipped, vec!["/r/bin/tool".to_string()]);
    let without = vec![source("/r/a.rs", b"fn a() {}"), source("/r/z.txt", b"z")];
    assert_eq!(render_document(&without, "/r").text, doc.text);
}

#[test]
fn rendering_twice_gives_the_same_document() {
    let files = vec![source("/r/a.rs", b"x"), source("/r/b", &[0]), source("/r/c.md", &[0xc3, 0x28])];
    let first = render_document(&files, "/r");
    let second = render_document(&files, "/r");
    assert_eq!(first.text, second.text);
    assert_eq!(first.skipped, second.skipped);
}

#[test]
fn mixed_tree_renders_one_rust_section() {
    let mut entries = Vec::new();
    for path in [
        "/root/a.rs",
        "/root/.git/config",
        "/root/node_modules/pkg/index.js",
        "/root/bin/tool",
        "/root/Cargo.lock",
    ] {
        entries.push(Entry { path: path.to_string(), canonical: Some(path.to_string()), is_file: true });
    }
    let listing = collect_all_files(&entries, "/root", "/root/all_files.md");
    let mut files = Vec::new();
    for path in &listing {
        let bytes: &[u8] = if path == "/root/bin/tool" { &[0x7f, 0, 1] } else { b"fn main() {}\n" };
        files.push(FileEntry { path: path.clone(), bytes: bytes.to_vec() });
    }
    let doc = render_document(&files, "/root");
    assert_eq!(doc.text, "# File path: a.rs\n```rust\nfn main() {}\n\n```\n\n");
    assert_eq!(doc.text.matches("# File path: ").count(), 1);
    assert_eq!(doc.skipped, vec!["/root/bin/tool".to_string()]);
}

#[test]
fn empty_root_renders_an_empty_document() {
    let entries = vec![Entry { path: "/root".to_string(), canonical: Some("/root".to_string()), is_file: false }];
    let listing = collect_all_files(&entries, "/root", "/root/all_files.md");
    assert!(listing.is_empty());
    let files: Vec<FileEntry> = listing.iter().map(|p| FileEntry { path: p.clone(), bytes: Vec::new() }).collect();
    let doc = render_document(&files, "/root");
    assert_eq!(doc.text, "");
    assert_eq!(doc.text.matches("# File path: ").count(), 0);
    assert!(doc.skipped.is_empty());
}

#[test]
fn extension_rules_follow_the_file_name() {
    assert_eq!(language_label("/r/a..rs"), "rust");
    assert_eq!(language_label("/r/.hidden.py"), "python");
    assert_eq!(language_label("/r/.rs"), "text");
    assert_eq!(language_label("/r/x.rs/"), "rust");
    assert_eq!(language_label("/r/x.rs/.."), "text");
    assert_eq!(language_label("/"), "text");
    assert_eq!(language_label(""), "text");
}

#[test]
fn document_grows_section_by_section() {
    let a = source("/r/a.c", b"int a;");
    let b = source("/r/b.css", b"b {}");
    let whole = render_document(&vec![a.clone(), b.clone()], "/r").text;
    let first = render_document(&vec![a], "/r").text;
    let second = render_document(&vec![b], "/r").text;
    assert_eq!(whole, format!("{}{}", first, second));
    assert_eq!(first, render_file("/r/a.c", "/r", b"int a;").unwrap());
}
