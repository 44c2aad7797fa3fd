use dirdoc::order::{path_le_exec, sort_paths};

fn owned(items: &[&str]) -> Vec<String> {
    items.iter().map(|s| s.to_string()).collect()
}

#[test]
fn path_order_is_by_bytes() {
    assert!(path_le_exec("a", "a"));
    assert!(path_le_exec("", "a"));
    assert!(!path_le_exec("a", ""));
    assert!(path_le_exec("a", "b"));
    assert!(!path_le_exec("b", "a"));
    assert!(path_le_exec("a", "ab"));
    assert!(!path_le_exec("ab", "a"));
    assert!(path_le_exec("a.b", "a/b"));
    assert!(!path_le_exec("a/b", "a.b"));
    assert!(path_le_exec("Z", "a"));
    assert!(path_le_exec("z", "é"));
    assert!(!path_le_exec("é", "z"));
}

#[test]
fn path_order_agrees_with_the_order_of_str() {
    let samples = ["", "a", "a/b", "a.b", "a/b/c", "b", "B", "é", "ab", "a b", "zz", "日本"];
    for x in samples {
        for y in samples {
            assert_eq!(path_le_exec(x, y), x <= y);
        }
    }
}

#[test]
fn sort_paths_gives_a_sorted_permutation() {
    let sorted = sort_paths(owned(&["b", "a/b", "a.b", "a", "c/d", "a/a"]));
    assert_eq!(sorted, owned(&["a", "a.b", "a/a", "a/b", "b", "c/d"]));
}

#[test]
fn sort_paths_keeps_duplicates() {
    let sorted = sort_paths(owned(&["x", "a", "x", "a", "m"]));
    assert_eq!(sorted, owned(&["a", "a", "m", "x", "x"]));
}

#[test]
fn sort_paths_of_nothing_is_nothing() {
    assert_eq!(sort_paths(Vec::new()), Vec::<String>::new());
    assert_eq!(sort_paths(owned(&["only"])), owned(&["only"]));
}

#[test]
fn sort_paths_agrees_with_the_standard_sort() {
    let mut input = Vec::new();
    let mut seed: u32 = 12345;
    for _ in 0..200 {
        seed = seed.wrapping_mul(1103515245).wrapping_add(12345);
        let len = (seed >> 16) % 6;
        let mut s = String::new();
        for k in 0..len {
            seed = seed.wrapping_mul(1103515245).wrapping_add(12345);
            let c = ['a', 'b', '/', '.', 'é', 'Z'][((seed >> 16) % 6) as usize];
            s.push(c);
            let _ = k;
        }
        input.push(s);
    }
    let mut expected = input.clone();
    expected.sort();
    assert_eq!(sort_paths(input), expected);
}

#[test]
fn sort_paths_is_idempotent() {
    let once = sort_paths(owned(&["src/b.rs", "src/a.rs", "README.md", "src/lib/x.rs"]));
    let twice = sort_paths(once.clone());
    assert_eq!(once, twice);
}
