use dirdoc::walker::{collect_all_files, Entry};

fn file(path: &str) -> Entry {
    Entry { path: path.to_string(), canonical: Some(path.to_string()), is_file: true }
}

fn dir(path: &str) -> Entry {
    Entry { path: path.to_string(), canonical: Some(path.to_string()), is_file: false }
}

fn names(items: &[&str]) -> Vec<String> {
    items.iter().map(|s| s.to_string()).collect()
}

#[test]
fn mixed_tree_lists_only_the_visible_files() {
    let entries = vec![
        dir("/root"),
        file("/root/a.rs"),
        dir("/root/.git"),
        file("/root/.git/config"),
        dir("/root/node_modules"),
        dir("/root/node_modules/pkg"),
        file("/root/node_modules/pkg/index.js"),
        dir("/root/bin"),
        file("/root/bin/tool"),
        file("/root/Cargo.lock"),
    ];
    let listing = collect_all_files(&entries, "/root", "/elsewhere/all_files.md");
    assert_eq!(listing, names(&["/root/a.rs", "/root/bin/tool"]));
}

#[test]
fn empty_root_lists_nothing() {
    let entries = vec![dir("/root")];
    assert_eq!(collect_all_files(&entries, "/root", "/root/all_files.md"), Vec::<String>::new());
    assert_eq!(collect_all_files(&Vec::new(), "/root", "/root/all_files.md"), Vec::<String>::new());
}

#[test]
fn directories_are_never_listed() {
    let entries = vec![dir("/r"), dir("/r/src"), dir("/r/src/deep"), file("/r/src/deep/x.rs")];
    assert_eq!(collect_all_files(&entries, "/r", "/out.md"), names(&["/r/src/deep/x.rs"]));
}

#[test]
fn output_document_under_the_root_is_not_listed() {
    let entries = vec![dir("/r"), file("/r/a.rs"), file("/r/all_files.md"), file("/r/z.txt")];
    let listing = collect_all_files(&entries, "/r", "/r/all_files.md");
    assert_eq!(listing, names(&["/r/a.rs", "/r/z.txt"]));
}

#[test]
fn output_document_is_recognised_by_its_canonical_form() {
    let entries = vec![
        Entry { path: "./docs/out.md".to_string(), canonical: Some("/w/docs/out.md".to_string()), is_file: true },
        Entry { path: "./docs/in.md".to_string(), canonical: Some("/w/docs/in.md".to_string()), is_file: true },
        Entry { path: "./alias.md".to_string(), canonical: Some("/w/docs/out.md".to_string()), is_file: true },
        Entry { path: "./gone.md".to_string(), canonical: None, is_file: true },
    ];
    let listing = collect_all_files(&entries, ".", "/w/docs/out.md");
    assert_eq!(listing, names(&["./docs/in.md", "./gone.md"]));
}

#[test]
fn hidden_paths_are_left_out_at_any_depth() {
    let entries = vec![
        file("/r/.env"),
        file("/r/a/.hidden/b/c.txt"),
        file("/r/a/b/.c"),
        file("/r/a/b/c"),
        file("/r/a.b/.d/e"),
        file("/r/x.y"),
    ];
    let listing = collect_all_files(&entries, "/r", "/out.md");
    assert_eq!(listing, names(&["/r/a/b/c", "/r/x.y"]));
}

#[test]
fn ignored_directories_are_left_out_at_any_depth() {
    let entries = vec![
        file("/r/node_modules/a.js"),
        file("/r/a/target/debug/deep/er/x"),
        file("/r/a/dist/bundle.js"),
        file("/r/a/b/c/build/out.o"),
        file("/r/a/builder/out.o"),
        file("/r/targets.txt"),
    ];
    let listing = collect_all_files(&entries, "/r", "/out.md");
    assert_eq!(listing, names(&["/r/a/builder/out.o", "/r/targets.txt"]));
}

#[test]
fn lockfiles_are_left_out_in_any_directory() {
    let entries = vec![
        file("/r/Cargo.lock"),
        file("/r/web/package-lock.json"),
        file("/r/web/app/pnpm-lock.yaml"),
        file("/r/web/yarn.lock"),
        file("/r/web/package.json"),
        file("/r/Cargo.toml"),
    ];
    let listing = collect_all_files(&entries, "/r", "/out.md");
    assert_eq!(listing, names(&["/r/Cargo.toml", "/r/web/package.json"]));
}

#[test]
fn listing_is_sorted_by_bytes_whatever_the_walk_order() {
    let forward = vec![file("/r/a"), file("/r/a.b"), file("/r/a/b"), file("/r/b"), file("/r/B")];
    let backward: Vec<Entry> = forward.iter().rev().cloned().collect();
    let expected = names(&["/r/B", "/r/a", "/r/a.b", "/r/a/b", "/r/b"]);
    assert_eq!(collect_all_files(&forward, "/r", "/out.md"), expected);
    assert_eq!(collect_all_files(&backward, "/r", "/out.md"), expected);
}

#[test]
fn scanning_twice_gives_the_same_listing() {
    let entries = vec![file("/r/z"), file("/r/m/n"), dir("/r/m"), file("/r/.x"), file("/r/a")];
    let first = collect_all_files(&entries, "/r", "/out.md");
    let second = collect_all_files(&entries, "/r", "/out.md");
    assert_eq!(first, second);
    assert_eq!(first, names(&["/r/a", "/r/m/n", "/r/z"]));
}

#[test]
fn relative_root_is_handled_like_an_absolute_one() {
    let entries = vec![dir("."), file("./a.rs"), file("./.gitignore"), file("./target/x"), file("./src/lib.rs")];
    let listing = collect_all_files(&entries, ".", "/w/all_files.md");
    assert_eq!(listing, names(&["./a.rs", "./src/lib.rs"]));
}
