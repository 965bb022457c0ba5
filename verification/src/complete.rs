//! A finished survey has learned enough: resolution over the facts of the
//! survey gives what resolution over the surveyed filesystem itself gives.
//!
//! The filesystem that is surveyed is any fixed [`FsView`]; a step of the
//! survey takes the last open question, answers it as that filesystem does,
//! and records the answer. The proof follows one invariant through the
//! steps: every fact that resolution reads is either learned as the
//! filesystem has it, or a question that leads to it is still open.

use crate::list::spec_join_list;
use crate::scan::{
    lemma_dir_entries_sorted, names_existing, spec_dir_entries, spec_dir_paths,
    spec_entries_paths, spec_entry_paths, spec_symlink_paths,
};
use crate::snapshot::FsView;
use crate::sources::{spec_gather, spec_scan_all, SYSTEM_DIR, SYSTEM_FILE};
use crate::survey::{
    spec_first_questions, spec_follow_ups, spec_record, AnswerView, QuestionView, SurveyView,
};
use crate::text::{spec_is_absolute, spec_join};
use vstd::prelude::*;

verus! {

/// What the filesystem `world` answers to a question.
pub open spec fn true_answer(world: FsView, question: QuestionView) -> AnswerView {
    match question {
        QuestionView::ReadDir { dir } => AnswerView::Entries(
            if world.entries.contains_key(dir) {
                Some(world.entries[dir])
            } else {
                None
            },
        ),
        QuestionView::LinkStatus { dir, entry } => AnswerView::LinkStatus(world.is_symlink(entry)),
        QuestionView::ReadLink { dir, entry } => AnswerView::Target(world.read_link(entry)),
        QuestionView::Exists { path } => AnswerView::Exists(world.path_exists(path)),
        QuestionView::Canonicalize { path } => AnswerView::Canonical(world.canonicalize(path)),
        QuestionView::IsFile { entry } => AnswerView::IsFile(world.is_file(entry)),
        QuestionView::ReadFile { file, probe_lines } => AnswerView::Lines(
            if world.lines.contains_key(file) {
                Some(world.lines[file])
            } else {
                None
            },
        ),
    }
}

/// One step of a survey of `world`: the last open question is taken,
/// answered as `world` answers it, and the answer recorded.
pub open spec fn spec_step(survey: SurveyView, world: FsView) -> SurveyView
    recommends
        survey.pending.len() > 0,
{
    let question = survey.pending.last();
    spec_record(
        SurveyView { fs: survey.fs, pending: survey.pending.drop_last() },
        question,
        true_answer(world, question),
    )
}

/// Every fact that `fs` holds is a fact of `world`.
pub open spec fn faithful(fs: FsView, world: FsView) -> bool {
    &&& forall|p: Seq<char>| #[trigger]
        fs.entries.contains_key(p) ==> world.entries.contains_key(p) && world.entries[p]
            == fs.entries[p]
    &&& forall|p: Seq<char>| #[trigger]
        fs.symlinks.contains_key(p) ==> world.symlinks.contains_key(p) && world.symlinks[p]
            == fs.symlinks[p]
    &&& forall|p: Seq<char>| #[trigger]
        fs.targets.contains_key(p) ==> world.targets.contains_key(p) && world.targets[p]
            == fs.targets[p]
    &&& forall|p: Seq<char>| #[trigger]
        fs.existing.contains_key(p) ==> fs.existing[p] == world.path_exists(p)
    &&& forall|p: Seq<char>| #[trigger]
        fs.canonical.contains_key(p) ==> world.canonical.contains_key(p) && world.canonical[p]
            == fs.canonical[p]
    &&& forall|p: Seq<char>| #[trigger]
        fs.regular.contains_key(p) ==> fs.regular[p] == world.is_file(p)
    &&& forall|p: Seq<char>| #[trigger]
        fs.lines.contains_key(p) ==> world.lines.contains_key(p) && world.lines[p] == fs.lines[p]
}

/// Whether `path` exists is learned, or the question is open.
pub open spec fn ok_exists(survey: SurveyView, world: FsView, path: Seq<char>) -> bool {
    ||| survey.pending.contains(QuestionView::Exists { path })
    ||| survey.fs.path_exists(path) == world.path_exists(path)
}

/// The canonical form of `path` is learned, or the question is open.
pub open spec fn ok_canonical(survey: SurveyView, world: FsView, path: Seq<char>) -> bool {
    ||| survey.pending.contains(QuestionView::Canonicalize { path })
    ||| survey.fs.canonicalize(path) == world.canonicalize(path)
}

/// The lines of `file` are learned, and where lines are probed each of
/// them is settled; or the question is open.
pub open spec fn ok_file(survey: SurveyView, world: FsView, file: Seq<char>, probe_lines: bool) -> bool {
    ||| survey.pending.contains(QuestionView::ReadFile { file, probe_lines })
    ||| {
        &&& survey.fs.read_lines(file) == world.read_lines(file)
        &&& probe_lines ==> forall|i: int|
            0 <= i < world.read_lines(file).len() ==> ok_exists(
                survey,
                world,
                #[trigger] world.read_lines(file)[i],
            )
    }
}

/// Whether `entry` is a regular file is learned, and if it is one its
/// lines are settled; or the question is open.
pub open spec fn ok_regular(survey: SurveyView, world: FsView, entry: Seq<char>) -> bool {
    ||| survey.pending.contains(QuestionView::IsFile { entry })
    ||| {
        &&& survey.fs.is_file(entry) == world.is_file(entry)
        &&& world.is_file(entry) ==> ok_file(survey, world, entry, true)
    }
}

/// What the target of a link asks for is settled: whether an absolute
/// target exists, or the canonical form of a relative one under `dir`.
pub open spec fn ok_target(survey: SurveyView, world: FsView, dir: Seq<char>, target: Seq<char>) -> bool {
    if spec_is_absolute(target) {
        ok_exists(survey, world, target)
    } else {
        ok_canonical(survey, world, spec_join(dir, target))
    }
}

/// The target of the link `entry` is learned and settled, or the question
/// is open.
pub open spec fn ok_link(survey: SurveyView, world: FsView, dir: Seq<char>, entry: Seq<char>) -> bool {
    ||| survey.pending.contains(QuestionView::ReadLink { dir, entry })
    ||| {
        &&& survey.fs.read_link(entry) == world.read_link(entry)
        &&& world.read_link(entry) is Some ==> ok_target(
            survey,
            world,
            dir,
            world.read_link(entry).unwrap(),
        )
    }
}

/// The kind of `entry` is learned and what it leads to is settled, or the
/// question is open.
pub open spec fn ok_entry(survey: SurveyView, world: FsView, dir: Seq<char>, entry: Seq<char>) -> bool {
    ||| survey.pending.contains(QuestionView::LinkStatus { dir, entry })
    ||| {
        &&& survey.fs.is_symlink(entry) == world.is_symlink(entry)
        &&& world.is_symlink(entry) == Some(true) ==> ok_link(survey, world, dir, entry)
        &&& world.is_symlink(entry) == Some(false) ==> ok_regular(survey, world, entry)
    }
}

/// The entries of `dir` are learned and each of them is settled, or the
/// question is open.
pub open spec fn ok_dir(survey: SurveyView, world: FsView, dir: Seq<char>) -> bool {
    ||| survey.pending.contains(QuestionView::ReadDir { dir })
    ||| {
        &&& survey.fs.read_dir(dir) == world.read_dir(dir)
        &&& forall|i: int|
            0 <= i < world.read_dir(dir).len() ==> ok_entry(
                survey,
                world,
                dir,
                #[trigger] world.read_dir(dir)[i],
            )
    }
}

/// A question that was open, and is not the one just taken, is open after
/// the step.
proof fn lemma_stays_open(survey: SurveyView, world: FsView, question: QuestionView)
    requires
        survey.pending.len() > 0,
        survey.pending.contains(question),
        question != survey.pending.last(),
    ensures
        spec_step(survey, world).pending.contains(question),
{
    let i = choose|i: int| 0 <= i < survey.pending.len() && survey.pending[i] == question;
    assert(spec_step(survey, world).pending[i] == question);
}

/// The questions that the answer opens are open after the step.
proof fn lemma_follow_ups_open(survey: SurveyView, world: FsView, i: int)
    requires
        survey.pending.len() > 0,
        0 <= i < spec_follow_ups(
            survey.pending.last(),
            true_answer(world, survey.pending.last()),
        ).len(),
    ensures
        spec_step(survey, world).pending.contains(
            spec_follow_ups(survey.pending.last(), true_answer(world, survey.pending.last()))[i],
        ),
{
    let after = spec_step(survey, world).pending;
    let follow = spec_follow_ups(survey.pending.last(), true_answer(world, survey.pending.last()));
    assert(after[survey.pending.len() - 1 + i] == follow[i]);
}

/// A step of a survey of `world` learns only facts of `world`.
pub proof fn lemma_step_faithful(survey: SurveyView, world: FsView)
    requires
        survey.pending.len() > 0,
        faithful(survey.fs, world),
    ensures
        faithful(spec_step(survey, world).fs, world),
{
}

/// The step keeps the question of whether `path` exists settled or open.
proof fn lemma_step_exists(survey: SurveyView, world: FsView, path: Seq<char>)
    requires
        survey.pending.len() > 0,
        faithful(survey.fs, world),
        ok_exists(survey, world, path),
    ensures
        ok_exists(spec_step(survey, world), world, path),
{
    let question = QuestionView::Exists { path };
    if survey.pending.contains(question) && question != survey.pending.last() {
        lemma_stays_open(survey, world, question);
    }
}

/// The step keeps the canonical form of `path` settled or open.
proof fn lemma_step_canonical(survey: SurveyView, world: FsView, path: Seq<char>)
    requires
        survey.pending.len() > 0,
        faithful(survey.fs, world),
        ok_canonical(survey, world, path),
    ensures
        ok_canonical(spec_step(survey, world), world, path),
{
    let question = QuestionView::Canonicalize { path };
    if survey.pending.contains(question) && question != survey.pending.last() {
        lemma_stays_open(survey, world, question);
    }
}

/// The step keeps the lines of `file` settled or open.
proof fn lemma_step_file(survey: SurveyView, world: FsView, file: Seq<char>, probe_lines: bool)
    requires
        survey.pending.len() > 0,
        faithful(survey.fs, world),
        ok_file(survey, world, file, probe_lines),
    ensures
        ok_file(spec_step(survey, world), world, file, probe_lines),
{
    let question = QuestionView::ReadFile { file, probe_lines };
    let after = spec_step(survey, world);
    let lines = world.read_lines(file);
    if survey.pending.contains(question) && question != survey.pending.last() {
        lemma_stays_open(survey, world, question);
    } else if question == survey.pending.last() {
        assert(after.fs.read_lines(file) == lines);
        if probe_lines {
            assert forall|i: int| 0 <= i < lines.len() implies ok_exists(
                after,
                world,
                #[trigger] lines[i],
            ) by {
                lemma_follow_ups_open(survey, world, i);
            }
        }
    } else {
        assert(after.fs.read_lines(file) == lines);
        if probe_lines {
            assert forall|i: int| 0 <= i < lines.len() implies ok_exists(
                after,
                world,
                #[trigger] lines[i],
            ) by {
                lemma_step_exists(survey, world, lines[i]);
            }
        }
    }
}

/// The step keeps the question of whether `entry` is a regular file
/// settled or open.
proof fn lemma_step_regular(survey: SurveyView, world: FsView, entry: Seq<char>)
    requires
        survey.pending.len() > 0,
        faithful(survey.fs, world),
        ok_regular(survey, world, entry),
    ensures
        ok_regular(spec_step(survey, world), world, entry),
{
    let question = QuestionView::IsFile { entry };
    let after = spec_step(survey, world);
    if survey.pending.contains(question) && question != survey.pending.last() {
        lemma_stays_open(survey, world, question);
    } else if question == survey.pending.last() {
        if world.is_file(entry) {
            lemma_follow_ups_open(survey, world, 0);
        }
    } else {
        if world.is_file(entry) {
            lemma_step_file(survey, world, entry, true);
        }
    }
}

/// The step keeps what the target of a link asks for settled or open.
proof fn lemma_step_target(survey: SurveyView, world: FsView, dir: Seq<char>, target: Seq<char>)
    requires
        survey.pending.len() > 0,
        faithful(survey.fs, world),
        ok_target(survey, world, dir, target),
    ensures
        ok_target(spec_step(survey, world), world, dir, target),
{
    if spec_is_absolute(target) {
        lemma_step_exists(survey, world, target);
    } else {
        lemma_step_canonical(survey, world, spec_join(dir, target));
    }
}

/// The step keeps the target of the link `entry` settled or open.
proof fn lemma_step_link(survey: SurveyView, world: FsView, dir: Seq<char>, entry: Seq<char>)
    requires
        survey.pending.len() > 0,
        faithful(survey.fs, world),
        ok_link(survey, world, dir, entry),
    ensures
        ok_link(spec_step(survey, world), world, dir, entry),
{
    let question = QuestionView::ReadLink { dir, entry };
    let after = spec_step(survey, world);
    if survey.pending.contains(question) && question != survey.pending.last() {
        lemma_stays_open(survey, world, question);
    } else if question == survey.pending.last() {
        if world.read_link(entry) is Some {
            lemma_follow_ups_open(survey, world, 0);
        }
    } else {
        if world.read_link(entry) is Some {
            lemma_step_target(survey, world, dir, world.read_link(entry).unwrap());
        }
    }
}

/// The step keeps the kind of `entry` settled or open.
proof fn lemma_step_entry(survey: SurveyView, world: FsView, dir: Seq<char>, entry: Seq<char>)
    requires
        survey.pending.len() > 0,
        faithful(survey.fs, world),
        ok_entry(survey, world, dir, entry),
    ensures
        ok_entry(spec_step(survey, world), world, dir, entry),
{
    let question = QuestionView::LinkStatus { dir, entry };
    let after = spec_step(survey, world);
    if survey.pending.contains(question) && question != survey.pending.last() {
        lemma_stays_open(survey, world, question);
    } else if question == survey.pending.last() {
        if world.is_symlink(entry) is Some {
            lemma_follow_ups_open(survey, world, 0);
        }
    } else {
        if world.is_symlink(entry) == Some(true) {
            lemma_step_link(survey, world, dir, entry);
        }
        if world.is_symlink(entry) == Some(false) {
            lemma_step_regular(survey, world, entry);
        }
    }
}

/// The step keeps the entries of `dir` settled or open.
pub proof fn lemma_step_dir(survey: SurveyView, world: FsView, dir: Seq<char>)
    requires
        survey.pending.len() > 0,
        faithful(survey.fs, world),
        ok_dir(survey, world, dir),
    ensures
        ok_dir(spec_step(survey, world), world, dir),
{
    let question = QuestionView::ReadDir { dir };
    let after = spec_step(survey, world);
    let entries = world.read_dir(dir);
    if survey.pending.contains(question) && question != survey.pending.last() {
        lemma_stays_open(survey, world, question);
    } else if question == survey.pending.last() {
        assert(after.fs.read_dir(dir) == entries);
        assert forall|i: int| 0 <= i < entries.len() implies ok_entry(
            after,
            world,
            dir,
            #[trigger] entries[i],
        ) by {
            lemma_follow_ups_open(survey, world, i);
        }
    } else {
        assert(after.fs.read_dir(dir) == entries);
        assert forall|i: int| 0 <= i < entries.len() implies ok_entry(
            after,
            world,
            dir,
            #[trigger] entries[i],
        ) by {
            lemma_step_entry(survey, world, dir, entries[i]);
        }
    }
}

/// A survey of `world` for scanning `dirs`, and the system sources where
/// they are included, is on course: what it has learned are facts of
/// `world`, and everything that the scan reads is settled or still open.
pub open spec fn on_course(
    survey: SurveyView,
    world: FsView,
    dirs: Seq<Seq<char>>,
    include_sys: bool,
) -> bool {
    &&& faithful(survey.fs, world)
    &&& forall|i: int| 0 <= i < dirs.len() ==> ok_dir(survey, world, #[trigger] dirs[i])
    &&& include_sys ==> ok_dir(survey, world, SYSTEM_DIR@)
    &&& include_sys ==> ok_file(survey, world, SYSTEM_FILE@, false)
}

/// A survey begins on course.
pub proof fn lemma_survey_starts_on_course(
    world: FsView,
    dirs: Seq<Seq<char>>,
    include_sys: bool,
)
    ensures
        on_course(
            SurveyView { fs: FsView::empty(), pending: spec_first_questions(dirs, include_sys) },
            world,
            dirs,
            include_sys,
        ),
{
    let first = spec_first_questions(dirs, include_sys);
    let survey = SurveyView { fs: FsView::empty(), pending: first };
    assert forall|i: int| 0 <= i < dirs.len() implies ok_dir(survey, world, #[trigger] dirs[i]) by {
        assert(first[i] == QuestionView::ReadDir { dir: dirs[i] });
    }
    if include_sys {
        assert(first[dirs.len() as int] == QuestionView::ReadDir { dir: SYSTEM_DIR@ });
        assert(first[dirs.len() as int + 1] == QuestionView::ReadFile {
            file: SYSTEM_FILE@,
            probe_lines: false,
        });
    }
}

/// A step keeps a survey on course.
pub proof fn lemma_survey_stays_on_course(
    survey: SurveyView,
    world: FsView,
    dirs: Seq<Seq<char>>,
    include_sys: bool,
)
    requires
        survey.pending.len() > 0,
        on_course(survey, world, dirs, include_sys),
    ensures
        on_course(spec_step(survey, world), world, dirs, include_sys),
{
    let after = spec_step(survey, world);
    lemma_step_faithful(survey, world);
    assert forall|i: int| 0 <= i < dirs.len() implies ok_dir(after, world, #[trigger] dirs[i]) by {
        lemma_step_dir(survey, world, dirs[i]);
    }
    if include_sys {
        lemma_step_dir(survey, world, SYSTEM_DIR@);
        lemma_step_file(survey, world, SYSTEM_FILE@, false);
    }
}

/// Two tests that agree on every line keep the same lines.
proof fn lemma_filter_agrees(
    lines: Seq<Seq<char>>,
    keep: spec_fn(Seq<char>) -> bool,
    other: spec_fn(Seq<char>) -> bool,
)
    requires
        forall|i: int| 0 <= i < lines.len() ==> keep(#[trigger] lines[i]) == other(lines[i]),
    ensures
        lines.filter(keep) == lines.filter(other),
    decreases lines.len(),
{
    reveal(Seq::filter);
    if lines.len() > 0 {
        let front = lines.drop_last();
        assert forall|i: int| 0 <= i < front.len() implies keep(#[trigger] front[i]) == other(
            front[i],
        ) by {
            assert(front[i] == lines[i]);
        }
        lemma_filter_agrees(front, keep, other);
        assert(keep(lines[lines.len() - 1]) == other(lines[lines.len() - 1]));
    }
}

/// With no question open, a settled entry contributes what it contributes
/// in `world`.
proof fn lemma_same_entry(
    survey: SurveyView,
    world: FsView,
    dir: Seq<char>,
    entry: Seq<char>,
    files: bool,
)
    requires
        survey.pending.len() == 0,
        ok_entry(survey, world, dir, entry),
    ensures
        spec_entry_paths(survey.fs, dir, entry, files) == spec_entry_paths(
            world,
            dir,
            entry,
            files,
        ),
{
    if world.is_symlink(entry) == Some(false) && world.is_file(entry) {
        let lines = world.read_lines(entry);
        assert(ok_file(survey, world, entry, true));
        assert forall|i: int| 0 <= i < lines.len() implies names_existing(survey.fs)(
            #[trigger] lines[i],
        ) == names_existing(world)(lines[i]) by {
            assert(ok_exists(survey, world, lines[i]));
        }
        lemma_filter_agrees(lines, names_existing(survey.fs), names_existing(world));
    }
}

/// With no question open, settled entries contribute what they contribute
/// in `world`.
proof fn lemma_same_entries(
    survey: SurveyView,
    world: FsView,
    dir: Seq<char>,
    entries: Seq<Seq<char>>,
    files: bool,
)
    requires
        survey.pending.len() == 0,
        forall|i: int| 0 <= i < entries.len() ==> ok_entry(survey, world, dir, #[trigger] entries[i]),
    ensures
        spec_entries_paths(survey.fs, dir, entries, files) == spec_entries_paths(
            world,
            dir,
            entries,
            files,
        ),
    decreases entries.len(),
{
    if entries.len() > 0 {
        let front = entries.drop_last();
        assert forall|i: int| 0 <= i < front.len() implies ok_entry(
            survey,
            world,
            dir,
            #[trigger] front[i],
        ) by {
            assert(front[i] == entries[i]);
        }
        lemma_same_entries(survey, world, dir, front, files);
        assert(ok_entry(survey, world, dir, entries[entries.len() - 1]));
        lemma_same_entry(survey, world, dir, entries.last(), files);
    }
}

/// With no question open, a settled directory gives the fragments that it
/// gives in `world`, whichever way it is scanned.
pub proof fn lemma_same_dir(survey: SurveyView, world: FsView, dir: Seq<char>)
    requires
        survey.pending.len() == 0,
        ok_dir(survey, world, dir),
    ensures
        spec_dir_paths(survey.fs, dir) == spec_dir_paths(world, dir),
        spec_symlink_paths(survey.fs, dir) == spec_symlink_paths(world, dir),
{
    let listed = world.read_dir(dir);
    let sorted = spec_dir_entries(world, dir);
    lemma_dir_entries_sorted(world, dir);
    assert forall|i: int| 0 <= i < sorted.len() implies ok_entry(
        survey,
        world,
        dir,
        #[trigger] sorted[i],
    ) by {
        assert(listed.contains(sorted[i]));
        let j = choose|j: int| 0 <= j < listed.len() && listed[j] == sorted[i];
        assert(ok_entry(survey, world, dir, listed[j]));
    }
    lemma_same_entries(survey, world, dir, sorted, true);
    lemma_same_entries(survey, world, dir, sorted, false);
}

/// With no question open, settled directories give the fragments that they
/// give in `world`.
proof fn lemma_same_scan_all(survey: SurveyView, world: FsView, dirs: Seq<Seq<char>>)
    requires
        survey.pending.len() == 0,
        forall|i: int| 0 <= i < dirs.len() ==> ok_dir(survey, world, #[trigger] dirs[i]),
    ensures
        spec_scan_all(survey.fs, dirs) == spec_scan_all(world, dirs),
    decreases dirs.len(),
{
    if dirs.len() > 0 {
        let front = dirs.drop_last();
        assert forall|i: int| 0 <= i < front.len() implies ok_dir(
            survey,
            world,
            #[trigger] front[i],
        ) by {
            assert(front[i] == dirs[i]);
        }
        lemma_same_scan_all(survey, world, front);
        assert(ok_dir(survey, world, dirs[dirs.len() - 1]));
        lemma_same_dir(survey, world, dirs.last());
    }
}

/// A survey that is on course and has no question left has learned
/// enough: the fragments gathered from its facts are the fragments gathered
/// from `world` itself.
pub proof fn lemma_finished_survey_suffices(
    survey: SurveyView,
    world: FsView,
    dirs: Seq<Seq<char>>,
    include_sys: bool,
)
    requires
        survey.pending.len() == 0,
        on_course(survey, world, dirs, include_sys),
    ensures
        spec_gather(survey.fs, dirs, include_sys) == spec_gather(world, dirs, include_sys),
{
    lemma_same_scan_all(survey, world, dirs);
    if include_sys {
        lemma_same_dir(survey, world, SYSTEM_DIR@);
    }
}

/// Two surveys of an unchanged filesystem end with the same search path,
/// in whatever order each of them took its questions.
pub proof fn lemma_resolution_repeats(
    first: SurveyView,
    second: SurveyView,
    world: FsView,
    dirs: Seq<Seq<char>>,
    include_sys: bool,
)
    requires
        first.pending.len() == 0,
        second.pending.len() == 0,
        on_course(first, world, dirs, include_sys),
        on_course(second, world, dirs, include_sys),
    ensures
        spec_join_list(spec_gather(first.fs, dirs, include_sys)) == spec_join_list(
            spec_gather(second.fs, dirs, include_sys),
        ),
{
    lemma_finished_survey_suffices(first, world, dirs, include_sys);
    lemma_finished_survey_suffices(second, world, dirs, include_sys);
}

/// The steps that the file `file` takes: one for the file and, where lines
/// are probed, one for each of its lines.
pub open spec fn cost_file(world: FsView, file: Seq<char>, probe_lines: bool) -> nat {
    if probe_lines {
        1 + world.read_lines(file).len()
    } else {
        1
    }
}

/// The steps that the entry `entry` takes from the question of its kind on.
pub open spec fn cost_entry(world: FsView, entry: Seq<char>) -> nat {
    match world.is_symlink(entry) {
        Some(true) => if world.read_link(entry) is Some {
            3
        } else {
            2
        },
        Some(false) => if world.is_file(entry) {
            2 + cost_file(world, entry, true)
        } else {
            2
        },
        None => 1,
    }
}

/// The steps that the entries `entries` take, all together.
pub open spec fn cost_entries(world: FsView, entries: Seq<Seq<char>>) -> nat
    decreases entries.len(),
{
    if entries.len() == 0 {
        0
    } else {
        cost_entries(world, entries.drop_last()) + cost_entry(world, entries.last())
    }
}

/// The steps that a question takes until it and all that follows from it
/// are answered.
pub open spec fn cost(world: FsView, question: QuestionView) -> nat {
    match question {
        QuestionView::ReadDir { dir } => 1 + cost_entries(world, world.read_dir(dir)),
        QuestionView::LinkStatus { dir, entry } => cost_entry(world, entry),
        QuestionView::ReadLink { dir, entry } => if world.read_link(entry) is Some {
            2
        } else {
            1
        },
        QuestionView::Exists { path } => 1,
        QuestionView::Canonicalize { path } => 1,
        QuestionView::IsFile { entry } => if world.is_file(entry) {
            1 + cost_file(world, entry, true)
        } else {
            1
        },
        QuestionView::ReadFile { file, probe_lines } => cost_file(world, file, probe_lines),
    }
}

/// The steps that the questions `questions` take, all together.
pub open spec fn costs(world: FsView, questions: Seq<QuestionView>) -> nat
    decreases questions.len(),
{
    if questions.len() == 0 {
        0
    } else {
        costs(world, questions.drop_last()) + cost(world, questions.last())
    }
}

/// The steps of two lists of questions add up.
proof fn lemma_costs_add(world: FsView, first: Seq<QuestionView>, rest: Seq<QuestionView>)
    ensures
        costs(world, first + rest) == costs(world, first) + costs(world, rest),
    decreases rest.len(),
{
    if rest.len() == 0 {
        assert(first + rest =~= first);
    } else {
        lemma_costs_add(world, first, rest.drop_last());
        assert((first + rest).drop_last() =~= first + rest.drop_last());
        assert((first + rest).last() == rest.last());
    }
}

/// The questions for the kind of each entry take the steps of the entries.
proof fn lemma_costs_of_entries(world: FsView, dir: Seq<char>, entries: Seq<Seq<char>>)
    ensures
        costs(
            world,
            Seq::new(entries.len(), |i: int| QuestionView::LinkStatus { dir, entry: entries[i] }),
        ) == cost_entries(world, entries),
    decreases entries.len(),
{
    let questions = Seq::new(
        entries.len(),
        |i: int| QuestionView::LinkStatus { dir, entry: entries[i] },
    );
    if entries.len() > 0 {
        let front = entries.drop_last();
        lemma_costs_of_entries(world, dir, front);
        assert(questions.drop_last() =~= Seq::new(
            front.len(),
            |i: int| QuestionView::LinkStatus { dir, entry: front[i] },
        ));
        assert(questions.last() == QuestionView::LinkStatus { dir, entry: entries.last() });
    }
}

/// The questions for the existence of each line take one step a line.
proof fn lemma_costs_of_lines(world: FsView, lines: Seq<Seq<char>>)
    ensures
        costs(world, Seq::new(lines.len(), |i: int| QuestionView::Exists { path: lines[i] }))
            == lines.len(),
    decreases lines.len(),
{
    let questions = Seq::new(lines.len(), |i: int| QuestionView::Exists { path: lines[i] });
    if lines.len() > 0 {
        let front = lines.drop_last();
        lemma_costs_of_lines(world, front);
        assert(questions.drop_last() =~= Seq::new(
            front.len(),
            |i: int| QuestionView::Exists { path: front[i] },
        ));
        assert(questions.last() == QuestionView::Exists { path: lines.last() });
    }
}

/// A question takes one step itself, and then the steps of the questions
/// that its answer opens.
proof fn lemma_cost_unfolds(world: FsView, question: QuestionView)
    ensures
        cost(world, question) == 1 + costs(
            world,
            spec_follow_ups(question, true_answer(world, question)),
        ),
{
    let follow = spec_follow_ups(question, true_answer(world, question));
    reveal_with_fuel(costs, 2);
    match question {
        QuestionView::ReadDir { dir } => {
            lemma_costs_of_entries(world, dir, world.read_dir(dir));
        },
        QuestionView::ReadFile { file, probe_lines } => {
            lemma_costs_of_lines(world, world.read_lines(file));
        },
        _ => {
            if follow.len() == 1 {
                assert(follow.drop_last() =~= Seq::<QuestionView>::empty());
            }
        },
    }
}

/// Every step brings a survey one step nearer to its end.
pub proof fn lemma_step_counts_down(survey: SurveyView, world: FsView)
    requires
        survey.pending.len() > 0,
    ensures
        costs(world, spec_step(survey, world).pending) + 1 == costs(world, survey.pending),
{
    let question = survey.pending.last();
    lemma_cost_unfolds(world, question);
    lemma_costs_add(
        world,
        survey.pending.drop_last(),
        spec_follow_ups(question, true_answer(world, question)),
    );
}

/// The survey after up to `steps` steps; it rests once no question is open.
pub open spec fn spec_run(survey: SurveyView, world: FsView, steps: nat) -> SurveyView
    decreases steps,
{
    if steps == 0 || survey.pending.len() == 0 {
        survey
    } else {
        spec_run(spec_step(survey, world), world, (steps - 1) as nat)
    }
}

/// A survey that is on course stays on course however far it runs, and
/// after as many steps as its open questions take, no question is left.
pub proof fn lemma_run_ends_on_course(
    survey: SurveyView,
    world: FsView,
    dirs: Seq<Seq<char>>,
    include_sys: bool,
    steps: nat,
)
    requires
        on_course(survey, world, dirs, include_sys),
    ensures
        on_course(spec_run(survey, world, steps), world, dirs, include_sys),
        steps >= costs(world, survey.pending) ==> spec_run(survey, world, steps).pending.len() == 0,
    decreases steps,
{
    if survey.pending.len() > 0 {
        lemma_step_counts_down(survey, world);
        if steps > 0 {
            lemma_survey_stays_on_course(survey, world, dirs, include_sys);
            lemma_run_ends_on_course(
                spec_step(survey, world),
                world,
                dirs,
                include_sys,
                (steps - 1) as nat,
            );
        }
    }
}

/// Every survey comes to an end, and what it has learned by then suffices.
///
/// Whatever the filesystem `world` holds: a survey for `dirs` that answers
/// each question as `world` does has no question left after finitely many
/// steps, and the fragments gathered from its facts are then exactly the
/// fragments gathered from `world`.
pub proof fn lemma_survey_is_complete(world: FsView, dirs: Seq<Seq<char>>, include_sys: bool)
    ensures
        ({
            let start = SurveyView {
                fs: FsView::empty(),
                pending: spec_first_questions(dirs, include_sys),
            };
            let end = spec_run(start, world, costs(world, start.pending));
            &&& end.pending.len() == 0
            &&& spec_gather(end.fs, dirs, include_sys) == spec_gather(world, dirs, include_sys)
        }),
{
    let start = SurveyView {
        fs: FsView::empty(),
        pending: spec_first_questions(dirs, include_sys),
    };
    lemma_survey_starts_on_course(world, dirs, include_sys);
    lemma_run_ends_on_course(start, world, dirs, include_sys, costs(world, start.pending));
    let end = spec_run(start, world, costs(world, start.pending));
    lemma_finished_survey_suffices(end, world, dirs, include_sys);
}

} // verus!
