use rpaths::{gather, Answer, Content, FileSystem, Question, Survey, SYSTEM_DIR, SYSTEM_FILE};

fn strings(items: &[&str]) -> Vec<String> {
    items.iter().map(|s| s.to_string()).collect()
}

/// Answers a question as the filesystem `world` has it.
fn answer(world: &FileSystem, question: &Question) -> Answer {
    match question {
        Question::ReadDir { dir } => Answer::Entries(world.entries.get(dir).cloned()),
        Question::LinkStatus { entry, .. } => Answer::LinkStatus(rpaths::is_symlink(world, entry)),
        Question::ReadLink { entry, .. } => Answer::Target(world.read_link(entry)),
        Question::Exists { path } => Answer::Exists(world.path_exists(path)),
        Question::Canonicalize { path } => Answer::Canonical(world.canonicalize(path)),
        Question::IsFile { entry } => Answer::IsFile(world.is_file(entry)),
        Question::ReadFile { file, .. } => Answer::Content(world.contents.get(file).map(|content| {
            Content { bytes: content.bytes.clone(), complete: content.complete }
        })),
    }
}

/// Runs a survey of `world` to its end; gives the facts and the number of
/// steps taken.
fn survey(world: &FileSystem, dirs: &Vec<String>, include_sys: bool) -> (FileSystem, usize) {
    let mut survey = Survey::start(dirs, include_sys);
    let mut steps = 0;
    while let Some(question) = survey.next_question() {
        let answer = answer(world, &question);
        survey.record(question, answer);
        steps += 1;
        assert!(steps < 10_000);
    }
    (survey.finish(), steps)
}

fn world() -> FileSystem {
    let mut fs = FileSystem::new();
    fs.entries.insert("/A", strings(&["/A/30-rel", "/A/10-abs", "/A/20-list", "/A/40-sub", "/A/50-gone"]));
    fs.symlinks.insert("/A/10-abs", true);
    fs.targets.insert("/A/10-abs", "/opt/abs".to_string());
    fs.existing.insert("/opt/abs", true);
    fs.symlinks.insert("/A/20-list", false);
    fs.regular.insert("/A/20-list", true);
    fs.contents.insert(
        "/A/20-list",
        Content { bytes: b"/usr/bin\n/nowhere\n/bin\n".to_vec(), complete: true },
    );
    fs.existing.insert("/usr/bin", true);
    fs.existing.insert("/bin", true);
    fs.symlinks.insert("/A/30-rel", true);
    fs.targets.insert("/A/30-rel", "../tools".to_string());
    fs.canonical.insert("/A/../tools", "/tools".to_string());
    fs.symlinks.insert("/A/40-sub", false);
    fs.regular.insert("/A/40-sub", false);
    fs.symlinks.insert("/A/50-gone", true);
    fs.targets.insert("/A/50-gone", "/opt/gone".to_string());
    fs.existing.insert("/opt/gone", false);
    fs.entries.insert("/B", strings(&["/B/1"]));
    fs.symlinks.insert("/B/1", true);
    fs.targets.insert("/B/1", "/opt/b".to_string());
    fs.existing.insert("/opt/b", true);
    fs.entries.insert(SYSTEM_DIR, strings(&["/etc/paths.d/x"]));
    fs.symlinks.insert("/etc/paths.d/x", false);
    fs.regular.insert("/etc/paths.d/x", true);
    fs.contents.insert(
        "/etc/paths.d/x",
        Content { bytes: b"/opt/X11/bin\n".to_vec(), complete: true },
    );
    fs.existing.insert("/opt/X11/bin", true);
    fs.contents.insert(
        SYSTEM_FILE,
        Content { bytes: b"/usr/local/bin\n/usr/bin\n".to_vec(), complete: true },
    );
    fs
}

#[test]
fn survey_begins_with_the_directories() {
    let mut survey = Survey::start(&strings(&["/A", "/B"]), false);
    assert_eq!(survey.pending.len(), 2);
    match survey.next_question() {
        Some(Question::ReadDir { dir }) => assert_eq!(dir, "/B"),
        other => panic!("{:?}", other),
    }
    match survey.next_question() {
        Some(Question::ReadDir { dir }) => assert_eq!(dir, "/A"),
        other => panic!("{:?}", other),
    }
    assert!(survey.next_question().is_none());
    assert!(survey.next_question().is_none());
}

#[test]
fn survey_begins_with_the_system_sources_too() {
    let mut survey = Survey::start(&Vec::new(), true);
    match survey.next_question() {
        Some(Question::ReadFile { file, probe_lines }) => {
            assert_eq!(file, SYSTEM_FILE);
            assert!(!probe_lines);
        }
        other => panic!("{:?}", other),
    }
    match survey.next_question() {
        Some(Question::ReadDir { dir }) => assert_eq!(dir, SYSTEM_DIR),
        other => panic!("{:?}", other),
    }
    assert!(survey.next_question().is_none());
}

#[test]
fn entries_are_asked_for_their_kind() {
    let mut survey = Survey::start(&Vec::new(), false);
    survey.record(
        Question::ReadDir { dir: "/d".to_string() },
        Answer::Entries(Some(strings(&["/d/a", "/d/b"]))),
    );
    assert_eq!(survey.fs.read_dir("/d"), strings(&["/d/a", "/d/b"]));
    assert_eq!(survey.pending.len(), 2);
    match survey.next_question() {
        Some(Question::LinkStatus { dir, entry }) => {
            assert_eq!(dir, "/d");
            assert_eq!(entry, "/d/b");
        }
        other => panic!("{:?}", other),
    }
}

#[test]
fn a_link_is_asked_for_its_target() {
    let mut survey = Survey::start(&Vec::new(), false);
    survey.record(
        Question::LinkStatus { dir: "/d".to_string(), entry: "/d/a".to_string() },
        Answer::LinkStatus(Some(true)),
    );
    assert_eq!(rpaths::is_symlink(&survey.fs, "/d/a"), Some(true));
    match survey.next_question() {
        Some(Question::ReadLink { dir, entry }) => {
            assert_eq!(dir, "/d");
            assert_eq!(entry, "/d/a");
        }
        other => panic!("{:?}", other),
    }
    assert!(survey.next_question().is_none());
}

#[test]
fn another_entry_is_asked_whether_it_is_a_file() {
    let mut survey = Survey::start(&Vec::new(), false);
    survey.record(
        Question::LinkStatus { dir: "/d".to_string(), entry: "/d/a".to_string() },
        Answer::LinkStatus(Some(false)),
    );
    match survey.next_question() {
        Some(Question::IsFile { entry }) => assert_eq!(entry, "/d/a"),
        other => panic!("{:?}", other),
    }
    survey.record(Question::IsFile { entry: "/d/a".to_string() }, Answer::IsFile(true));
    assert!(survey.fs.is_file("/d/a"));
    match survey.next_question() {
        Some(Question::ReadFile { file, probe_lines }) => {
            assert_eq!(file, "/d/a");
            assert!(probe_lines);
        }
        other => panic!("{:?}", other),
    }
    survey.record(Question::IsFile { entry: "/d/b".to_string() }, Answer::IsFile(false));
    assert!(survey.next_question().is_none());
}

#[test]
fn an_absolute_target_is_asked_for_its_existence() {
    let mut survey = Survey::start(&Vec::new(), false);
    survey.record(
        Question::ReadLink { dir: "/d".to_string(), entry: "/d/a".to_string() },
        Answer::Target(Some("/opt/x".to_string())),
    );
    assert_eq!(survey.fs.read_link("/d/a"), Some("/opt/x".to_string()));
    match survey.next_question() {
        Some(Question::Exists { path }) => assert_eq!(path, "/opt/x"),
        other => panic!("{:?}", other),
    }
}

#[test]
fn a_relative_target_is_asked_for_its_canonical_form() {
    let mut survey = Survey::start(&Vec::new(), false);
    survey.record(
        Question::ReadLink { dir: "/d".to_string(), entry: "/d/a".to_string() },
        Answer::Target(Some("../x".to_string())),
    );
    match survey.next_question() {
        Some(Question::Canonicalize { path }) => assert_eq!(path, "/d/../x"),
        other => panic!("{:?}", other),
    }
}

#[test]
fn lines_are_probed_only_where_asked() {
    let content = || Content { bytes: b"/bin\n/usr/bin\n".to_vec(), complete: true };
    let mut survey = Survey::start(&Vec::new(), false);
    survey.record(
        Question::ReadFile { file: "/l".to_string(), probe_lines: false },
        Answer::Content(Some(content())),
    );
    assert_eq!(survey.fs.read_lines("/l"), strings(&["/bin", "/usr/bin"]));
    assert!(survey.next_question().is_none());
    survey.record(
        Question::ReadFile { file: "/l".to_string(), probe_lines: true },
        Answer::Content(Some(content())),
    );
    match survey.next_question() {
        Some(Question::Exists { path }) => assert_eq!(path, "/usr/bin"),
        other => panic!("{:?}", other),
    }
    match survey.next_question() {
        Some(Question::Exists { path }) => assert_eq!(path, "/bin"),
        other => panic!("{:?}", other),
    }
    assert!(survey.next_question().is_none());
}

#[test]
fn failed_questions_open_nothing() {
    let mut survey = Survey::start(&Vec::new(), false);
    survey.record(Question::ReadDir { dir: "/d".to_string() }, Answer::Entries(None));
    survey.record(
        Question::LinkStatus { dir: "/d".to_string(), entry: "/d/a".to_string() },
        Answer::LinkStatus(None),
    );
    survey.record(
        Question::ReadLink { dir: "/d".to_string(), entry: "/d/a".to_string() },
        Answer::Target(None),
    );
    survey.record(Question::Canonicalize { path: "/d/x".to_string() }, Answer::Canonical(None));
    survey.record(
        Question::ReadFile { file: "/l".to_string(), probe_lines: true },
        Answer::Content(None),
    );
    survey.record(Question::Exists { path: "/x".to_string() }, Answer::Exists(false));
    assert!(survey.next_question().is_none());
    assert_eq!(survey.fs.read_dir("/d"), Vec::<String>::new());
    assert_eq!(rpaths::is_symlink(&survey.fs, "/d/a"), None);
    assert_eq!(survey.fs.read_link("/d/a"), None);
    assert!(!survey.fs.path_exists("/x"));
}

#[test]
fn an_answer_of_another_kind_changes_nothing() {
    let mut survey = Survey::start(&Vec::new(), false);
    survey.record(Question::Exists { path: "/x".to_string() }, Answer::IsFile(true));
    survey.record(Question::IsFile { entry: "/x".to_string() }, Answer::Exists(true));
    survey.record(
        Question::ReadDir { dir: "/x".to_string() },
        Answer::Target(Some("/y".to_string())),
    );
    assert!(survey.next_question().is_none());
    assert!(!survey.fs.path_exists("/x"));
    assert!(!survey.fs.is_file("/x"));
    assert_eq!(survey.fs.read_link("/x"), None);
}

#[test]
fn a_finished_survey_gathers_what_the_world_gathers() {
    let world = world();
    for include_sys in [false, true] {
        for dirs in [
            strings(&[]),
            strings(&["/A"]),
            strings(&["/B", "/A"]),
            strings(&["/A", "/missing", "/B", "/A"]),
        ] {
            let (facts, _) = survey(&world, &dirs, include_sys);
            assert_eq!(
                gather(&facts, &dirs, include_sys),
                gather(&world, &dirs, include_sys),
                "{:?} {}",
                dirs,
                include_sys
            );
        }
    }
}

#[test]
fn a_survey_gathers_the_expected_fragments() {
    let world = world();
    let dirs = strings(&["/A", "/B"]);
    let (facts, _) = survey(&world, &dirs, true);
    assert_eq!(
        gather(&facts, &dirs, true),
        strings(&[
            "/opt/abs",
            "/usr/bin",
            "/bin",
            "/tools",
            "/opt/b",
            "/opt/X11/bin",
            "/usr/local/bin",
            "/usr/bin"
        ])
    );
}

#[test]
fn a_survey_takes_one_step_for_each_question() {
    let world = world();
    let (_, steps) = survey(&world, &strings(&["/B"]), false);
    assert_eq!(steps, 4);
    let (_, steps) = survey(&world, &strings(&["/missing"]), false);
    assert_eq!(steps, 1);
    let (_, steps) = survey(&world, &Vec::new(), false);
    assert_eq!(steps, 0);
    let (_, steps) = survey(&world, &strings(&["/A"]), false);
    assert_eq!(steps, 1 + 3 + 6 + 3 + 2 + 3);
}

#[test]
fn a_survey_learns_nothing_that_is_not_asked() {
    let world = world();
    let (facts, _) = survey(&world, &strings(&["/B"]), false);
    assert_eq!(facts.read_dir("/A"), Vec::<String>::new());
    assert!(!facts.path_exists("/opt/abs"));
    assert!(facts.path_exists("/opt/b"));
}
