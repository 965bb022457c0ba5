use rpaths::{has_tilde, is_absolute, join_list, join_path, precedes, sort_paths, split_list};
use std::path::Path;

fn strings(items: &[&str]) -> Vec<String> {
    items.iter().map(|s| s.to_string()).collect()
}

#[test]
fn absolute_paths_begin_at_the_root() {
    assert!(is_absolute("/"));
    assert!(is_absolute("/usr/bin"));
    assert!(!is_absolute(""));
    assert!(!is_absolute("usr/bin"));
    assert!(!is_absolute("./bin"));
    assert!(!is_absolute("~/bin"));
}

#[test]
fn is_absolute_agrees_with_std() {
    for path in ["", "/", "a", "/a/b", "a/b", "../x", "//x", "é/x", "/é"] {
        assert_eq!(is_absolute(path), Path::new(path).is_absolute(), "{:?}", path);
    }
}

#[test]
fn tilde_is_seen_only_at_the_start() {
    assert!(has_tilde("~"));
    assert!(has_tilde("~/x"));
    assert!(has_tilde("~user/x"));
    assert!(!has_tilde(""));
    assert!(!has_tilde("/home/~"));
    assert!(!has_tilde("a~"));
}

#[test]
fn join_puts_one_separator_between() {
    assert_eq!(join_path("/etc/paths.d", "target"), "/etc/paths.d/target");
    assert_eq!(join_path("/etc/paths.d/", "target"), "/etc/paths.d/target");
    assert_eq!(join_path("/etc/paths.d", "../x"), "/etc/paths.d/../x");
}

#[test]
fn join_keeps_an_absolute_path() {
    assert_eq!(join_path("/etc/paths.d", "/usr/bin"), "/usr/bin");
    assert_eq!(join_path("", "/usr/bin"), "/usr/bin");
}

#[test]
fn join_with_empty_parts() {
    assert_eq!(join_path("", "bin"), "bin");
    assert_eq!(join_path("/a", ""), "/a/");
    assert_eq!(join_path("/a/", ""), "/a/");
    assert_eq!(join_path("", ""), "");
}

#[test]
fn join_agrees_with_std() {
    let dirs = ["", "/", "/a", "/a/", "a", "a/b", "/é", "rel/"];
    let paths = ["", "x", "x/y", "/x", "../x", "./x", "é", "/"];
    for dir in dirs {
        for path in paths {
            let expected = Path::new(dir).join(path).to_string_lossy().into_owned();
            assert_eq!(join_path(dir, path), expected, "{:?} {:?}", dir, path);
        }
    }
}

#[test]
fn precedes_is_lexicographic() {
    assert!(precedes("", ""));
    assert!(precedes("", "a"));
    assert!(!precedes("a", ""));
    assert!(precedes("a", "a"));
    assert!(precedes("a", "b"));
    assert!(!precedes("b", "a"));
    assert!(precedes("a", "ab"));
    assert!(!precedes("ab", "a"));
    assert!(precedes("/d/10", "/d/9"));
    assert!(precedes("/d/A", "/d/a"));
}

#[test]
fn precedes_agrees_with_string_order() {
    let samples = ["", "a", "ab", "abc", "b", "/d/a", "/d/a.b", "/d/a-b", "/d/é", "/d/z", "Z", "~"];
    for a in samples {
        for b in samples {
            assert_eq!(precedes(a, b), a <= b, "{:?} {:?}", a, b);
        }
    }
}

#[test]
fn sort_orders_by_full_path() {
    let sorted = sort_paths(strings(&["/d/c", "/d/a", "/d/b"]));
    assert_eq!(sorted, strings(&["/d/a", "/d/b", "/d/c"]));
}

#[test]
fn sort_keeps_every_occurrence() {
    let sorted = sort_paths(strings(&["b", "a", "b", "", "a"]));
    assert_eq!(sorted, strings(&["", "a", "a", "b", "b"]));
    assert_eq!(sort_paths(Vec::new()), Vec::<String>::new());
    assert_eq!(sort_paths(strings(&["only"])), strings(&["only"]));
}

#[test]
fn sort_agrees_with_std() {
    let input = strings(&["/p/20-x", "/p/10-y", "/p/Z", "/p/a", "/p/_", "/p/10", "/p/é", "/p/1"]);
    let mut expected = input.clone();
    expected.sort();
    assert_eq!(sort_paths(input), expected);
}

#[test]
fn split_gives_one_field_more_than_colons() {
    assert_eq!(split_list("/opt/a:/opt/b"), strings(&["/opt/a", "/opt/b"]));
    assert_eq!(split_list("/opt/a"), strings(&["/opt/a"]));
    assert_eq!(split_list(""), strings(&[""]));
    assert_eq!(split_list(":"), strings(&["", ""]));
    assert_eq!(split_list("a:"), strings(&["a", ""]));
    assert_eq!(split_list(":a"), strings(&["", "a"]));
    assert_eq!(split_list("a::b"), strings(&["a", "", "b"]));
    assert_eq!(split_list("é:ü"), strings(&["é", "ü"]));
}

#[test]
fn split_agrees_with_std() {
    for value in ["", ":", "a", "a:b", "a:b:c", "::", "/x/y:/z:", ":é:"] {
        let expected: Vec<String> = value.split(':').map(|v| v.to_owned()).collect();
        assert_eq!(split_list(value), expected, "{:?}", value);
    }
}

#[test]
fn join_list_puts_colons_between() {
    assert_eq!(join_list(&strings(&["/bin", "/usr/bin"])), "/bin:/usr/bin");
    assert_eq!(join_list(&strings(&["/bin"])), "/bin");
    assert_eq!(join_list(&Vec::new()), "");
    assert_eq!(join_list(&strings(&["", ""])), ":");
    assert_eq!(join_list(&strings(&["a", "", "b"])), "a::b");
}

#[test]
fn join_list_agrees_with_std() {
    for parts in [vec![], vec!["a"], vec!["a", "b"], vec!["", "x", ""], vec!["é", "/ü"]] {
        let parts = strings(&parts);
        assert_eq!(join_list(&parts), parts.join(":"));
    }
}

#[test]
fn join_list_undoes_split() {
    for value in ["", ":", "a", "a:b", "/opt/a:/opt/b", "::", "x:"] {
        assert_eq!(join_list(&split_list(value)), value);
    }
}

#[test]
fn entries_of_one_directory_are_ordered_by_name() {
    let names = ["", "a", "ab", "b", "10-x", "9-y", "Z", "é"];
    for prefix in ["", "/", "/etc/paths.d/", "rel/"] {
        for a in names {
            for b in names {
                let left = format!("{}{}", prefix, a);
                let right = format!("{}{}", prefix, b);
                assert_eq!(precedes(&left, &right), precedes(a, b), "{:?} {:?} {:?}", prefix, a, b);
            }
        }
    }
}
