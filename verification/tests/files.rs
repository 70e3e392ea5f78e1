use pacfront::files::{
    deduped_files, file_matches, is_parent_dir, path_contains_other_path, shown_files,
};
use pacfront::paths::component_ranges;
use std::path::Path;

fn list(names: &[&str]) -> Vec<String> {
    names.iter().map(|name| name.to_string()).collect()
}

fn dedupe(names: &[&str]) -> Vec<String> {
    let files = list(names);
    deduped_files(&files).into_iter().cloned().collect()
}

#[test]
fn dedupe_of_nothing_is_nothing() {
    assert_eq!(dedupe(&[]), Vec::<String>::new());
}

#[test]
fn dedupe_keeps_a_single_entry() {
    assert_eq!(dedupe(&["/a"]), list(&["/a"]));
}

#[test]
fn dedupe_drops_each_parent_of_its_successor() {
    assert_eq!(
        dedupe(&["/usr", "/usr/bin", "/usr/bin/cat", "/usr/lib"]),
        list(&["/usr/bin/cat", "/usr/lib"])
    );
}

#[test]
fn dedupe_keeps_siblings() {
    assert_eq!(
        dedupe(&["/etc/a.conf", "/etc/b.conf"]),
        list(&["/etc/a.conf", "/etc/b.conf"])
    );
}

#[test]
fn dedupe_goes_by_components_not_by_prefix() {
    assert_eq!(
        dedupe(&["/usr/bin", "/usr/bin2/x"]),
        list(&["/usr/bin", "/usr/bin2/x"])
    );
}

#[test]
fn dedupe_takes_directories_with_a_trailing_slash() {
    assert_eq!(
        dedupe(&["usr/", "usr/bin/", "usr/bin/cat", "usr/lib/", "usr/lib/libc.so"]),
        list(&["usr/bin/cat", "usr/lib/libc.so"])
    );
}

#[test]
fn dedupe_always_keeps_the_last_entry() {
    assert_eq!(dedupe(&["a", "a/b"]), list(&["a/b"]));
    assert_eq!(dedupe(&["a/b", "a"]), list(&["a/b", "a"]));
}

#[test]
fn dedupe_only_looks_at_the_next_entry() {
    // `/usr` is the parent of `/usr/lib`, but `/usr/bin/cat` stands between.
    assert_eq!(
        dedupe(&["/usr", "/usr/bin/cat", "/usr/lib"]),
        list(&["/usr", "/usr/bin/cat", "/usr/lib"])
    );
}

#[test]
fn dedupe_hands_out_the_entries_of_the_list_itself() {
    let files = list(&["/usr", "/usr/bin", "/usr/lib"]);
    let kept = deduped_files(&files);
    assert_eq!(kept.len(), 2);
    assert!(std::ptr::eq(kept[0], &files[1]));
    assert!(std::ptr::eq(kept[1], &files[2]));
    assert_eq!(files, list(&["/usr", "/usr/bin", "/usr/lib"]));
}

#[test]
fn dedupe_leaves_no_parent_before_its_child() {
    let out = dedupe(&[
        "etc/",
        "etc/pacman.conf",
        "usr/",
        "usr/bin/",
        "usr/bin/pacman",
        "usr/bin/vercmp",
        "usr/share/",
        "usr/share/man/",
        "usr/share/man/man8/",
        "usr/share/man/man8/pacman.8.gz",
        "var/",
    ]);
    assert_eq!(
        out,
        list(&[
            "etc/pacman.conf",
            "usr/bin/pacman",
            "usr/bin/vercmp",
            "usr/share/man/man8/pacman.8.gz",
            "var/",
        ])
    );
    for pair in out.windows(2) {
        assert!(!path_contains_other_path(&pair[1], &pair[0]));
    }
}

#[test]
fn a_path_listed_twice_can_leave_a_parent_before_its_child() {
    // `a` and `a/` name one directory; only the second is the direct
    // predecessor of `a/b`.
    assert_eq!(dedupe(&["a", "a/", "a/b"]), list(&["a", "a/b"]));
}

#[test]
fn parent_is_judged_as_the_standard_library_judges_it() {
    let samples = [
        "", "/", "//", ".", "..", "./", "./.", "/.", "a", "a/", "a//", "/a", "/a/", "./a", "a/.",
        "a/..", "../a", "a/b", "a//b", "a/./b", "./a/b", "/a/b", "/a/b/", "a/b/c", "/usr",
        "/usr/bin", "/usr/bin/cat", "/usr/bin2", "/usr/bin2/x", "usr/", "usr/bin/", "usr/bin/cat",
        ".a", "a.", "..a", "a/.b", "\u{e9}t\u{e9}", "\u{e9}t\u{e9}/\u{fc}",
    ];
    for haystack in samples {
        for needle in samples {
            let expected = Path::new(haystack).parent() == Some(Path::new(needle));
            assert_eq!(
                path_contains_other_path(haystack, needle),
                expected,
                "haystack {haystack:?}, needle {needle:?}"
            );
            assert_eq!(
                is_parent_dir(needle.as_bytes(), haystack.as_bytes()),
                expected
            );
        }
    }
}

#[test]
fn the_root_has_no_parent() {
    assert!(!path_contains_other_path("/", ""));
    assert!(!path_contains_other_path("/", "/"));
    assert!(!path_contains_other_path("", ""));
}

#[test]
fn a_single_name_has_the_empty_path_as_parent() {
    assert!(path_contains_other_path("usr", ""));
    assert!(path_contains_other_path("/usr", "/"));
    assert!(!path_contains_other_path("/usr", ""));
}

#[test]
fn components_are_cut_at_separators() {
    assert_eq!(component_ranges(b""), vec![]);
    assert_eq!(component_ranges(b"/"), vec![(0, 1)]);
    assert_eq!(component_ranges(b"usr"), vec![(0, 3)]);
    assert_eq!(component_ranges(b"usr/bin/"), vec![(0, 3), (4, 7)]);
    assert_eq!(
        component_ranges(b"/usr//bin/./cat/"),
        vec![(0, 1), (1, 4), (6, 9), (12, 15)]
    );
    assert_eq!(component_ranges(b"./a/."), vec![(0, 1), (2, 3)]);
    assert_eq!(component_ranges(b"a/../b"), vec![(0, 1), (2, 4), (5, 6)]);
}

#[test]
fn file_filter_ignores_the_case_of_ascii_letters() {
    assert!(file_matches("usr/share/doc/README", "readme"));
    assert!(file_matches("usr/share/doc/readme", "ReadMe"));
    assert!(file_matches("usr/bin/cat", ""));
    assert!(!file_matches("usr/bin/cat", "dog"));
    assert!(!file_matches("usr/bin/cat", "usr/bin/cat/"));
    assert!(file_matches("\u{c9}t\u{e9}", "\u{c9}T"));
    assert!(!file_matches("\u{c9}t\u{e9}", "\u{e9}t"));
}

#[test]
fn the_shown_files_are_the_deduped_ones_that_pass_the_filter() {
    let files = list(&[
        "usr/",
        "usr/bin/",
        "usr/bin/Cat",
        "usr/bin/dog",
        "usr/share/",
        "usr/share/cat/",
        "usr/share/cat/README",
    ]);
    let all: Vec<String> = shown_files(&files, "").into_iter().cloned().collect();
    assert_eq!(all, list(&["usr/bin/Cat", "usr/bin/dog", "usr/share/cat/README"]));
    let cats: Vec<String> = shown_files(&files, "CAT").into_iter().cloned().collect();
    assert_eq!(cats, list(&["usr/bin/Cat", "usr/share/cat/README"]));
    // A directory goes before the filter is asked: `usr/share/` is not shown.
    let share: Vec<String> = shown_files(&files, "share/").into_iter().cloned().collect();
    assert_eq!(share, list(&["usr/share/cat/README"]));
    assert!(shown_files(&files, "bird").is_empty());
    assert!(shown_files(&[], "").is_empty());
}

fn words(alphabet: &[char], max_len: usize) -> Vec<String> {
    let mut all = vec![String::new()];
    let mut last = vec![String::new()];
    for _ in 0..max_len {
        let mut next = Vec::new();
        for word in &last {
            for c in alphabet {
                let mut longer = word.clone();
                longer.push(*c);
                next.push(longer);
            }
        }
        all.extend(next.iter().cloned());
        last = next;
    }
    all
}

fn parent_by_std(haystack: &str, needle: &str) -> bool {
    Path::new(haystack).parent() == Some(Path::new(needle))
}

#[test]
fn parent_agrees_with_the_standard_library_on_all_short_paths() {
    for alphabet in [&['/', '.', 'a'][..], &['/', '.', 'a', 'b'][..]] {
        let max_len = if alphabet.len() == 3 { 5 } else { 4 };
        let paths = words(alphabet, max_len);
        for haystack in &paths {
            for needle in &paths {
                assert_eq!(
                    path_contains_other_path(haystack, needle),
                    parent_by_std(haystack, needle),
                    "haystack {haystack:?}, needle {needle:?}"
                );
            }
        }
    }
}

#[test]
fn dedupe_agrees_with_a_scan_over_adjacent_pairs() {
    let samples = [
        "", "/", "a", "a/", "a/b", "a/b/", "a/b/c", "a//b", "./a", "/a", "/a/b", "b",
    ];
    let mut lists: Vec<Vec<String>> = vec![Vec::new()];
    for x in samples {
        lists.push(list(&[x]));
        for y in samples {
            lists.push(list(&[x, y]));
            for z in samples {
                lists.push(list(&[x, y, z]));
            }
        }
    }
    for files in &lists {
        let mut expected: Vec<&String> = files
            .windows(2)
            .filter(|pair| !parent_by_std(&pair[1], &pair[0]))
            .map(|pair| &pair[0])
            .collect();
        expected.extend(files.last());
        assert_eq!(deduped_files(files), expected, "list {files:?}");
    }
}
