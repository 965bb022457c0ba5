//! Surveying a filesystem: which questions to put to it, and what to ask
//! next once an answer is in.
//!
//! A survey holds the facts learned so far and the questions still open. The
//! caller takes an open question, puts it to the real filesystem and records
//! the answer; recording an answer may open further questions. When no
//! question is left, the facts are all that resolution reads.

use crate::lines::{parse_lines, spec_lines};
use crate::snapshot::{Content, FileSystem, FsView};
use crate::sources::{SYSTEM_DIR, SYSTEM_FILE};
use crate::text::{is_absolute, join_path, spec_is_absolute, spec_join, texts};
use vstd::prelude::*;

verus! {

/// A question to the filesystem.
#[derive(Debug)]
pub enum Question {
    /// Which entries does the directory hold?
    ReadDir { dir: String },
    /// Is the entry of `dir` itself a symbolic link?
    LinkStatus { dir: String, entry: String },
    /// Where does the link `entry` of `dir` point?
    ReadLink { dir: String, entry: String },
    /// Does the path exist?
    Exists { path: String },
    /// What is the canonical form of the path?
    Canonicalize { path: String },
    /// Is the entry a regular file?
    IsFile { entry: String },
    /// What does the file hold? With `probe_lines`, each of its lines is
    /// asked for afterwards.
    ReadFile { file: String, probe_lines: bool },
}

/// The mathematical form of a [`Question`].
pub enum QuestionView {
    ReadDir { dir: Seq<char> },
    LinkStatus { dir: Seq<char>, entry: Seq<char> },
    ReadLink { dir: Seq<char>, entry: Seq<char> },
    Exists { path: Seq<char> },
    Canonicalize { path: Seq<char> },
    IsFile { entry: Seq<char> },
    ReadFile { file: Seq<char>, probe_lines: bool },
}

impl View for Question {
    type V = QuestionView;

    open spec fn view(&self) -> QuestionView {
        match self {
            Question::ReadDir { dir } => QuestionView::ReadDir { dir: dir@ },
            Question::LinkStatus { dir, entry } => QuestionView::LinkStatus {
                dir: dir@,
                entry: entry@,
            },
            Question::ReadLink { dir, entry } => QuestionView::ReadLink {
                dir: dir@,
                entry: entry@,
            },
            Question::Exists { path } => QuestionView::Exists { path: path@ },
            Question::Canonicalize { path } => QuestionView::Canonicalize { path: path@ },
            Question::IsFile { entry } => QuestionView::IsFile { entry: entry@ },
            Question::ReadFile { file, probe_lines } => QuestionView::ReadFile {
                file: file@,
                probe_lines: *probe_lines,
            },
        }
    }
}

/// What the filesystem answered. An answer of `None` is a question that
/// failed.
#[derive(Debug)]
pub enum Answer {
    /// The full paths of a directory's entries, in the order found.
    Entries(Option<Vec<String>>),
    /// Whether the entry is a symbolic link.
    LinkStatus(Option<bool>),
    /// The target that a link holds.
    Target(Option<String>),
    /// Whether the path exists.
    Exists(bool),
    /// The canonical form of the path.
    Canonical(Option<String>),
    /// Whether the entry is a regular file.
    IsFile(bool),
    /// What could be read from the file.
    Content(Option<Content>),
}

/// The mathematical form of an [`Answer`]; of a file it holds the lines.
pub enum AnswerView {
    Entries(Option<Seq<Seq<char>>>),
    LinkStatus(Option<bool>),
    Target(Option<Seq<char>>),
    Exists(bool),
    Canonical(Option<Seq<char>>),
    IsFile(bool),
    Lines(Option<Seq<Seq<char>>>),
}

impl View for Answer {
    type V = AnswerView;

    open spec fn view(&self) -> AnswerView {
        match self {
            Answer::Entries(Some(entries)) => AnswerView::Entries(Some(texts(entries@))),
            Answer::Entries(None) => AnswerView::Entries(None),
            Answer::LinkStatus(status) => AnswerView::LinkStatus(*status),
            Answer::Target(Some(target)) => AnswerView::Target(Some(target@)),
            Answer::Target(None) => AnswerView::Target(None),
            Answer::Exists(found) => AnswerView::Exists(*found),
            Answer::Canonical(Some(path)) => AnswerView::Canonical(Some(path@)),
            Answer::Canonical(None) => AnswerView::Canonical(None),
            Answer::IsFile(file) => AnswerView::IsFile(*file),
            Answer::Content(Some(content)) => AnswerView::Lines(
                Some(spec_lines(content.bytes@, content.complete)),
            ),
            Answer::Content(None) => AnswerView::Lines(None),
        }
    }
}

/// The views of a list of questions.
pub open spec fn question_views(questions: Seq<Question>) -> Seq<QuestionView> {
    Seq::new(questions.len(), |i: int| questions[i]@)
}

/// The filesystem with the answer to a question recorded. An answer that
/// says that the question failed, and an answer of another kind than the
/// question asks for, leave the filesystem as it is.
pub open spec fn spec_learn(fs: FsView, question: QuestionView, answer: AnswerView) -> FsView {
    match (question, answer) {
        (QuestionView::ReadDir { dir }, AnswerView::Entries(Some(entries))) => FsView {
            entries: fs.entries.insert(dir, entries),
            ..fs
        },
        (QuestionView::LinkStatus { dir, entry }, AnswerView::LinkStatus(Some(status))) => FsView {
            symlinks: fs.symlinks.insert(entry, status),
            ..fs
        },
        (QuestionView::ReadLink { dir, entry }, AnswerView::Target(Some(target))) => FsView {
            targets: fs.targets.insert(entry, target),
            ..fs
        },
        (QuestionView::Exists { path }, AnswerView::Exists(found)) => FsView {
            existing: fs.existing.insert(path, found),
            ..fs
        },
        (QuestionView::Canonicalize { path }, AnswerView::Canonical(Some(canonical))) => FsView {
            canonical: fs.canonical.insert(path, canonical),
            ..fs
        },
        (QuestionView::IsFile { entry }, AnswerView::IsFile(file)) => FsView {
            regular: fs.regular.insert(entry, file),
            ..fs
        },
        (QuestionView::ReadFile { file, probe_lines }, AnswerView::Lines(Some(lines))) => FsView {
            lines: fs.lines.insert(file, lines),
            ..fs
        },
        _ => fs,
    }
}

/// The questions that an answer opens. The entries of a directory are asked
/// for their kind; a link for its target, and another entry whether it is a
/// regular file; an absolute target whether it exists, and a relative one
/// for the canonical form of its place under the directory; a regular file
/// for what it holds; and, where lines are probed, each line whether it
/// exists.
pub open spec fn spec_follow_ups(question: QuestionView, answer: AnswerView) -> Seq<QuestionView> {
    match (question, answer) {
        (QuestionView::ReadDir { dir }, AnswerView::Entries(Some(entries))) => Seq::new(
            entries.len(),
            |i: int| QuestionView::LinkStatus { dir, entry: entries[i] },
        ),
        (QuestionView::LinkStatus { dir, entry }, AnswerView::LinkStatus(Some(status))) => {
            if status {
                seq![QuestionView::ReadLink { dir, entry }]
            } else {
                seq![QuestionView::IsFile { entry }]
            }
        },
        (QuestionView::ReadLink { dir, entry }, AnswerView::Target(Some(target))) => {
            if spec_is_absolute(target) {
                seq![QuestionView::Exists { path: target }]
            } else {
                seq![QuestionView::Canonicalize { path: spec_join(dir, target) }]
            }
        },
        (QuestionView::IsFile { entry }, AnswerView::IsFile(file)) => {
            if file {
                seq![QuestionView::ReadFile { file: entry, probe_lines: true }]
            } else {
                Seq::empty()
            }
        },
        (QuestionView::ReadFile { file, probe_lines }, AnswerView::Lines(Some(lines))) => {
            if probe_lines {
                Seq::new(lines.len(), |i: int| QuestionView::Exists { path: lines[i] })
            } else {
                Seq::empty()
            }
        },
        _ => Seq::empty(),
    }
}

/// The questions that a survey begins with: one for each directory to scan
/// and, where the system sources are included, for the system directory and
/// the system list file, whose lines are not probed.
pub open spec fn spec_first_questions(dirs: Seq<Seq<char>>, include_sys: bool) -> Seq<
    QuestionView,
> {
    let roots = Seq::new(dirs.len(), |i: int| QuestionView::ReadDir { dir: dirs[i] });
    if include_sys {
        roots.push(QuestionView::ReadDir { dir: SYSTEM_DIR@ }).push(
            QuestionView::ReadFile { file: SYSTEM_FILE@, probe_lines: false },
        )
    } else {
        roots
    }
}

/// A survey under way: the facts learned and the questions still open.
#[derive(Debug)]
pub struct Survey {
    /// What has been learned so far.
    pub fs: FileSystem,
    /// The questions that still wait for an answer.
    pub pending: Vec<Question>,
}

/// The mathematical form of a [`Survey`].
pub struct SurveyView {
    pub fs: FsView,
    pub pending: Seq<QuestionView>,
}

impl View for Survey {
    type V = SurveyView;

    open spec fn view(&self) -> SurveyView {
        SurveyView { fs: self.fs@, pending: question_views(self.pending@) }
    }
}

/// The survey after an answer has been recorded: the fact is learned and
/// the questions that it opens are pending.
pub open spec fn spec_record(survey: SurveyView, question: QuestionView, answer: AnswerView) -> SurveyView {
    SurveyView {
        fs: spec_learn(survey.fs, question, answer),
        pending: survey.pending + spec_follow_ups(question, answer),
    }
}

impl Survey {
    /// Begins a survey for scanning `dirs` and, where they are included,
    /// the system sources. Nothing is known yet.
    pub fn start(dirs: &Vec<String>, include_sys: bool) -> (survey: Survey)
        ensures
            survey@.fs == FsView::empty(),
            survey@.pending == spec_first_questions(texts(dirs@), include_sys),
    {
        let mut pending: Vec<Question> = Vec::new();
        let mut i: usize = 0;
        while i < dirs.len()
            invariant
                i <= dirs.len(),
                pending.len() == i,
                forall|j: int|
                    0 <= j < i ==> (#[trigger] pending@[j])@ == (QuestionView::ReadDir {
                        dir: dirs@[j]@,
                    }),
            decreases dirs.len() - i,
        {
            pending.push(Question::ReadDir { dir: dirs[i].clone() });
            i = i + 1;
        }
        if include_sys {
            pending.push(Question::ReadDir { dir: SYSTEM_DIR.to_owned() });
            pending.push(Question::ReadFile { file: SYSTEM_FILE.to_owned(), probe_lines: false });
        }
        let survey = Survey { fs: FileSystem::new(), pending };
        assert(survey@.pending =~= spec_first_questions(texts(dirs@), include_sys));
        survey
    }

    /// Takes the next open question, if one is left.
    pub fn next_question(&mut self) -> (question: Option<Question>)
        ensures
            final(self)@.fs == old(self)@.fs,
            question is Some <==> old(self)@.pending.len() > 0,
            question matches Some(asked) ==> asked@ == old(self)@.pending.last(),
            question is Some ==> final(self)@.pending == old(self)@.pending.drop_last(),
            question is None ==> final(self)@.pending == old(self)@.pending,
    {
        let question = self.pending.pop();
        proof {
            if question is Some {
                assert(question_views(self.pending@) =~= question_views(
                    old(self).pending@,
                ).drop_last());
            }
        }
        question
    }

    /// Records the answer to a question, and opens the questions that
    /// follow from it.
    pub fn record(&mut self, question: Question, answer: Answer)
        ensures
            final(self)@ == spec_record(old(self)@, question@, answer@),
    {
        let ghost before = self@;
        let ghost goal = spec_record(before, question@, answer@);
        match (question, answer) {
            (Question::ReadDir { dir }, Answer::Entries(Some(entries))) => {
                let mut i: usize = 0;
                while i < entries.len()
                    invariant
                        i <= entries.len(),
                        self.fs@ == before.fs,
                        question_views(self.pending@) == before.pending + Seq::new(
                            i as nat,
                            |j: int| QuestionView::LinkStatus { dir: dir@, entry: entries@[j]@ },
                        ),
                    decreases entries.len() - i,
                {
                    let ghost sofar = question_views(self.pending@);
                    let follow = Question::LinkStatus {
                        dir: dir.clone(),
                        entry: entries[i].clone(),
                    };
                    self.pending.push(follow);
                    assert(question_views(self.pending@) =~= sofar.push(
                        QuestionView::LinkStatus { dir: dir@, entry: entries@[i as int]@ },
                    ));
                    i = i + 1;
                    assert(question_views(self.pending@) =~= before.pending + Seq::new(
                        i as nat,
                        |j: int| QuestionView::LinkStatus { dir: dir@, entry: entries@[j]@ },
                    ));
                }
                assert(question_views(self.pending@) =~= goal.pending);
                self.fs.entries.insert(dir.as_str(), entries);
                assert(self.fs@.entries =~= goal.fs.entries);
            },
            (Question::LinkStatus { dir, entry }, Answer::LinkStatus(Some(status))) => {
                self.fs.symlinks.insert(entry.as_str(), status);
                let ghost sofar = question_views(self.pending@);
                if status {
                    self.pending.push(Question::ReadLink { dir, entry });
                } else {
                    self.pending.push(Question::IsFile { entry });
                }
                assert(question_views(self.pending@) =~= sofar + spec_follow_ups(
                    question@,
                    answer@,
                ));
            },
            (Question::ReadLink { dir, entry }, Answer::Target(Some(target))) => {
                let ghost sofar = question_views(self.pending@);
                if is_absolute(target.as_str()) {
                    self.pending.push(Question::Exists { path: target.clone() });
                } else {
                    self.pending.push(
                        Question::Canonicalize { path: join_path(dir.as_str(), target.as_str()) },
                    );
                }
                assert(question_views(self.pending@) =~= sofar + spec_follow_ups(
                    question@,
                    answer@,
                ));
                self.fs.targets.insert(entry.as_str(), target);
                assert(self.fs@.targets =~= goal.fs.targets);
            },
            (Question::Exists { path }, Answer::Exists(found)) => {
                self.fs.existing.insert(path.as_str(), found);
                assert(question_views(self.pending@) =~= goal.pending);
            },
            (Question::Canonicalize { path }, Answer::Canonical(Some(canonical))) => {
                self.fs.canonical.insert(path.as_str(), canonical);
                assert(self.fs@.canonical =~= goal.fs.canonical);
                assert(question_views(self.pending@) =~= goal.pending);
            },
            (Question::IsFile { entry }, Answer::IsFile(file)) => {
                self.fs.regular.insert(entry.as_str(), file);
                let ghost sofar = question_views(self.pending@);
                if file {
                    self.pending.push(Question::ReadFile { file: entry, probe_lines: true });
                }
                assert(question_views(self.pending@) =~= sofar + spec_follow_ups(
                    question@,
                    answer@,
                ));
            },
            (Question::ReadFile { file, probe_lines }, Answer::Content(Some(content))) => {
                if probe_lines {
                    let lines = parse_lines(content.bytes.as_slice(), content.complete);
                    let mut i: usize = 0;
                    while i < lines.len()
                        invariant
                            i <= lines.len(),
                            self.fs@ == before.fs,
                            question_views(self.pending@) == before.pending + Seq::new(
                                i as nat,
                                |j: int| QuestionView::Exists { path: lines@[j]@ },
                            ),
                        decreases lines.len() - i,
                    {
                        let ghost sofar = question_views(self.pending@);
                        self.pending.push(Question::Exists { path: lines[i].clone() });
                        assert(question_views(self.pending@) =~= sofar.push(
                            QuestionView::Exists { path: lines@[i as int]@ },
                        ));
                        i = i + 1;
                        assert(question_views(self.pending@) =~= before.pending + Seq::new(
                            i as nat,
                            |j: int| QuestionView::Exists { path: lines@[j]@ },
                        ));
                    }
                }
                assert(question_views(self.pending@) =~= goal.pending);
                self.fs.contents.insert(file.as_str(), content);
                assert(self.fs@.lines =~= goal.fs.lines);
            },
            _ => {
                assert(question_views(self.pending@) =~= goal.pending);
            },
        }
    }

    /// Ends the survey and hands out what was learned.
    pub fn finish(self) -> (fs: FileSystem)
        ensures
            fs@ == self@.fs,
    {
        self.fs
    }
}

} // verus!
