use rpaths::{
    expand, expand_sources, find_paths, gather, join_list, process_path, resolve_paths,
    split_list, Content, FileSystem, DEFAULT_DIR, SYSTEM_DIR, SYSTEM_FILE,
};

fn strings(items: &[&str]) -> Vec<String> {
    items.iter().map(|s| s.to_string()).collect()
}

/// A directory of links `name -> target`, all of whose targets exist.
fn add_link_dir(fs: &mut FileSystem, dir: &str, links: &[(&str, &str)]) {
    let mut entries = Vec::new();
    for (name, target) in links {
        let link = format!("{}/{}", dir, name);
        fs.symlinks.insert(&link, true);
        fs.targets.insert(&link, target.to_string());
        fs.existing.insert(target, true);
        entries.push(link);
    }
    entries.reverse();
    fs.entries.insert(dir, entries);
}

fn add_system(fs: &mut FileSystem) {
    add_link_dir(fs, SYSTEM_DIR, &[("10-x", "/opt/X11/bin"), ("20-tex", "/Library/TeX/texbin")]);
    fs.contents.insert(
        SYSTEM_FILE,
        Content { bytes: b"/usr/local/bin\n/usr/bin\n/bin\n/not/there\n".to_vec(), complete: true },
    );
    fs.existing.insert("/usr/bin", true);
    fs.existing.insert("/bin", true);
}

#[test]
fn the_fixed_sources() {
    assert_eq!(DEFAULT_DIR, "~/.paths.d");
    assert_eq!(SYSTEM_DIR, "/etc/paths.d");
    assert_eq!(SYSTEM_FILE, "/etc/paths");
}

#[test]
fn expand_leaves_plain_paths_alone() {
    for path in ["", "/", "/opt/a", "relative/dir", "./x", "a~b", "/home/~user"] {
        match expand(path) {
            Ok(dir) => assert_eq!(dir, path),
            Err(error) => panic!("{}: {}", error.path, error.message),
        }
    }
}

#[test]
fn expand_replaces_the_home_shorthand() {
    match expand("~/some/dir") {
        Ok(dir) => {
            assert_ne!(dir, "~/some/dir");
            assert!(!dir.starts_with('~'));
            assert!(dir.ends_with("/some/dir"));
            assert!(dir.len() > "/some/dir".len());
        }
        Err(error) => {
            assert_eq!(error.path, "~/some/dir");
            assert!(!error.message.is_empty());
        }
    }
}

#[test]
fn expand_of_the_bare_tilde_and_its_subdirectory_agree() {
    if let (Ok(home), Ok(sub)) = (expand("~"), expand("~/x")) {
        assert_eq!(rpaths::join_path(&home, "x"), sub);
    }
}

#[test]
fn expand_names_the_path_that_failed() {
    match expand("~no-such-user-on-this-machine/dir") {
        Ok(dir) => panic!("expanded to {}", dir),
        Err(error) => {
            assert_eq!(error.path, "~no-such-user-on-this-machine/dir");
            assert!(error.message.contains("no-such-user-on-this-machine"));
        }
    }
}

#[test]
fn expand_sources_keeps_the_order() {
    match expand_sources(false, &strings(&["/b", "/a", "/b"])) {
        Ok(dirs) => assert_eq!(dirs, strings(&["/b", "/a", "/b"])),
        Err(error) => panic!("{}", error.message),
    }
    match expand_sources(false, &Vec::new()) {
        Ok(dirs) => assert_eq!(dirs, Vec::<String>::new()),
        Err(error) => panic!("{}", error.message),
    }
}

#[test]
fn expand_sources_puts_the_default_directory_last() {
    if let (Ok(dirs), Ok(default_dir)) = (expand_sources(true, &strings(&["/a"])), expand(DEFAULT_DIR)) {
        assert_eq!(dirs, vec!["/a".to_string(), default_dir.clone()]);
        assert!(default_dir.ends_with("/.paths.d"));
    }
}

#[test]
fn expand_sources_stops_at_the_first_failure() {
    let paths = strings(&["/a", "~no-such-user-on-this-machine", "~another-missing-user"]);
    match expand_sources(true, &paths) {
        Ok(dirs) => panic!("expanded to {:?}", dirs),
        Err(error) => assert_eq!(error.path, "~no-such-user-on-this-machine"),
    }
}

#[test]
fn explicit_directories_then_default() {
    let mut fs = FileSystem::new();
    add_link_dir(&mut fs, "/A", &[("1", "/a/one"), ("2", "/a/two")]);
    add_link_dir(&mut fs, "/B", &[("1", "/b/one")]);
    add_link_dir(&mut fs, "/home/u/.paths.d", &[("1", "/d/one"), ("2", "/d/two")]);
    let dirs = strings(&["/A", "/B", "/home/u/.paths.d"]);
    let found = gather(&fs, &dirs, false);
    assert_eq!(found, strings(&["/a/one", "/a/two", "/b/one", "/d/one", "/d/two"]));
    let mut expected = rpaths::dir_paths(&fs, "/A");
    expected.extend(rpaths::dir_paths(&fs, "/B"));
    expected.extend(rpaths::dir_paths(&fs, "/home/u/.paths.d"));
    assert_eq!(found, expected);
    assert_eq!(join_list(&found), "/a/one:/a/two:/b/one:/d/one:/d/two");
}

#[test]
fn order_of_directories_is_order_of_fragments() {
    let mut fs = FileSystem::new();
    add_link_dir(&mut fs, "/A", &[("1", "/a/one")]);
    add_link_dir(&mut fs, "/B", &[("1", "/b/one")]);
    assert_eq!(gather(&fs, &strings(&["/B", "/A"]), false), strings(&["/b/one", "/a/one"]));
    assert_eq!(gather(&fs, &strings(&["/A", "/B"]), false), strings(&["/a/one", "/b/one"]));
    assert_eq!(
        gather(&fs, &strings(&["/A", "/B", "/A"]), false),
        strings(&["/a/one", "/b/one", "/a/one"])
    );
}

#[test]
fn system_sources_come_last() {
    let mut fs = FileSystem::new();
    add_link_dir(&mut fs, "/A", &[("1", "/a/one")]);
    add_system(&mut fs);
    assert_eq!(
        gather(&fs, &strings(&["/A"]), true),
        strings(&[
            "/a/one",
            "/opt/X11/bin",
            "/Library/TeX/texbin",
            "/usr/local/bin",
            "/usr/bin",
            "/bin",
            "/not/there"
        ])
    );
    assert_eq!(gather(&fs, &strings(&["/A"]), false), strings(&["/a/one"]));
}

#[test]
fn system_list_file_is_not_filtered() {
    let mut fs = FileSystem::new();
    add_system(&mut fs);
    let found = gather(&fs, &Vec::new(), true);
    assert!(found.contains(&"/not/there".to_string()));
    assert!(found.contains(&"/usr/local/bin".to_string()));
    assert!(!fs.path_exists("/not/there"));
}

#[test]
fn nothing_to_scan_gives_nothing() {
    let fs = FileSystem::new();
    assert_eq!(gather(&fs, &Vec::new(), false), Vec::<String>::new());
    assert_eq!(gather(&fs, &Vec::new(), true), Vec::<String>::new());
    assert_eq!(gather(&fs, &strings(&["/missing", ""]), true), Vec::<String>::new());
}

#[test]
fn process_path_scans_the_directory() {
    let mut fs = FileSystem::new();
    add_link_dir(&mut fs, "/A", &[("2", "/a/two"), ("1", "/a/one")]);
    match process_path(&fs, "/A") {
        Ok(found) => assert_eq!(found, strings(&["/a/one", "/a/two"])),
        Err(error) => panic!("{}", error.message),
    }
    match process_path(&fs, "/missing") {
        Ok(found) => assert_eq!(found, Vec::<String>::new()),
        Err(error) => panic!("{}", error.message),
    }
}

#[test]
fn process_path_expands_first() {
    if let Ok(dir) = expand("~/links") {
        let mut fs = FileSystem::new();
        add_link_dir(&mut fs, &dir, &[("1", "/opt/one")]);
        add_link_dir(&mut fs, "~/links", &[("1", "/opt/wrong")]);
        match process_path(&fs, "~/links") {
            Ok(found) => assert_eq!(found, strings(&["/opt/one"])),
            Err(error) => panic!("{}", error.message),
        }
    }
}

#[test]
fn process_path_fails_where_expansion_fails() {
    let fs = FileSystem::new();
    match process_path(&fs, "~no-such-user-on-this-machine") {
        Ok(found) => panic!("found {:?}", found),
        Err(error) => assert_eq!(error.path, "~no-such-user-on-this-machine"),
    }
}

#[test]
fn find_paths_without_default() {
    let mut fs = FileSystem::new();
    add_link_dir(&mut fs, "/A", &[("1", "/a/one")]);
    add_link_dir(&mut fs, "/B", &[("1", "/b/one")]);
    add_system(&mut fs);
    match find_paths(&fs, false, false, &strings(&["/A", "/B"])) {
        Ok(found) => assert_eq!(found, strings(&["/a/one", "/b/one"])),
        Err(error) => panic!("{}", error.message),
    }
    match find_paths(&fs, false, true, &strings(&["/B"])) {
        Ok(found) => assert_eq!(found, gather(&fs, &strings(&["/B"]), true)),
        Err(error) => panic!("{}", error.message),
    }
}

#[test]
fn find_paths_with_default() {
    if let Ok(default_dir) = expand(DEFAULT_DIR) {
        let mut fs = FileSystem::new();
        add_link_dir(&mut fs, "/A", &[("1", "/a/one")]);
        add_link_dir(&mut fs, "/B", &[("1", "/b/one")]);
        add_link_dir(&mut fs, &default_dir, &[("1", "/d/one")]);
        match find_paths(&fs, true, false, &strings(&["/A", "/B"])) {
            Ok(found) => assert_eq!(found, strings(&["/a/one", "/b/one", "/d/one"])),
            Err(error) => panic!("{}", error.message),
        }
        match find_paths(&fs, true, false, &Vec::new()) {
            Ok(found) => assert_eq!(found, strings(&["/d/one"])),
            Err(error) => panic!("{}", error.message),
        }
    }
}

#[test]
fn find_paths_fails_on_unknown_user() {
    let mut fs = FileSystem::new();
    add_link_dir(&mut fs, "/A", &[("1", "/a/one")]);
    match find_paths(&fs, false, false, &strings(&["/A", "~no-such-user-on-this-machine/x"])) {
        Ok(found) => panic!("found {:?}", found),
        Err(error) => {
            assert_eq!(error.path, "~no-such-user-on-this-machine/x");
            assert!(!error.message.is_empty());
        }
    }
}

#[test]
fn resolve_joins_with_colons() {
    let mut fs = FileSystem::new();
    add_link_dir(&mut fs, "/A", &[("1", "/a/one"), ("2", "/a/two")]);
    add_link_dir(&mut fs, "/B", &[("1", "/b/one")]);
    match resolve_paths(&fs, false, false, &strings(&["/A", "/B"]), None) {
        Ok(path) => assert_eq!(path, "/a/one:/a/two:/b/one"),
        Err(error) => panic!("{}", error.message),
    }
}

#[test]
fn environment_directories_are_explicit_directories() {
    let mut fs = FileSystem::new();
    add_link_dir(&mut fs, "/opt/a", &[("1", "/a/bin")]);
    add_link_dir(&mut fs, "/opt/b", &[("1", "/b/bin")]);
    let from_env = split_list("/opt/a:/opt/b");
    let by_env = resolve_paths(&fs, false, false, &Vec::new(), Some(&from_env));
    let explicit = resolve_paths(&fs, false, false, &strings(&["/opt/a", "/opt/b"]), None);
    match (by_env, explicit) {
        (Ok(a), Ok(b)) => {
            assert_eq!(a, b);
            assert_eq!(a, "/a/bin:/b/bin");
        }
        _ => panic!("resolution failed"),
    }
}

#[test]
fn environment_directories_follow_positional_ones() {
    let mut fs = FileSystem::new();
    add_link_dir(&mut fs, "/opt/a", &[("1", "/a/bin")]);
    add_link_dir(&mut fs, "/opt/b", &[("1", "/b/bin")]);
    match resolve_paths(&fs, false, false, &strings(&["/opt/b"]), Some(&strings(&["/opt/a"]))) {
        Ok(path) => assert_eq!(path, "/b/bin:/a/bin"),
        Err(error) => panic!("{}", error.message),
    }
}

#[test]
fn resolving_twice_gives_the_same_string() {
    let mut fs = FileSystem::new();
    add_link_dir(&mut fs, "/A", &[("1", "/a/one"), ("2", "/a/two")]);
    add_system(&mut fs);
    let first = resolve_paths(&fs, false, true, &strings(&["/A"]), None);
    let second = resolve_paths(&fs, false, true, &strings(&["/A"]), None);
    match (first, second) {
        (Ok(a), Ok(b)) => {
            assert_eq!(a.as_bytes(), b.as_bytes());
            assert_eq!(
                a,
                "/a/one:/a/two:/opt/X11/bin:/Library/TeX/texbin:/usr/local/bin:/usr/bin:/bin:/not/there"
            );
        }
        _ => panic!("resolution failed"),
    }
}

#[test]
fn only_an_absent_default_directory_gives_the_empty_string() {
    let fs = FileSystem::new();
    if let Ok(path) = resolve_paths(&fs, true, false, &Vec::new(), None) {
        assert_eq!(path, "");
        assert_eq!(path.len(), 0);
    }
    let mut fs = FileSystem::new();
    if let Ok(default_dir) = expand(DEFAULT_DIR) {
        fs.entries.insert(&default_dir, Vec::new());
        match resolve_paths(&fs, true, false, &Vec::new(), None) {
            Ok(path) => assert_eq!(path, ""),
            Err(error) => panic!("{}", error.message),
        }
    }
}

#[test]
fn no_sources_at_all_gives_the_empty_string() {
    let fs = FileSystem::new();
    match resolve_paths(&fs, false, false, &Vec::new(), None) {
        Ok(path) => assert_eq!(path, ""),
        Err(error) => panic!("{}", error.message),
    }
}
