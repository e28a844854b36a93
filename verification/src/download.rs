//! How a file is fetched, checked and put in its place, step by step.
use crate::identity::{self, fresh_uuid, grouped_text, simple_text};
use crate::packet::Uuid;
use crate::path::{self, file_name, parent, with_file_name};
use crate::problem::{self, Problem, Report};
use crate::text::{self, cat2, cat3, cat4, cat5, unsigned_to_text};
use vstd::prelude::*;
use vstd::string::*;

verus! {

/// What is downloaded.
#[derive(Debug, Clone, Copy, PartialEq, Eq, Structural)]
pub enum Subject {
    /// A location database.
    Database,
    /// A list of addresses.
    List,
}

impl Subject {
    /// How many bytes a download may have.
    pub open spec fn limit(self) -> u64 {
        match self {
            Subject::Database => 536870912,
            Subject::List => 67108864,
        }
    }

    pub open spec fn noun(self) -> Seq<char> {
        match self {
            Subject::Database => "ip2region database"@,
            Subject::List => "security list"@,
        }
    }

    pub open spec fn short_noun(self) -> Seq<char> {
        match self {
            Subject::Database => "ip2region"@,
            Subject::List => "security list"@,
        }
    }

    /// What the file is called that a download is first written to.
    pub open spec fn temporary_noun(self) -> Seq<char> {
        match self {
            Subject::Database => "temporary download file"@,
            Subject::List => "temporary security list file"@,
        }
    }

    /// How many bytes a download may have: half a gibibyte for a database, 64 mebibytes for
    /// a list.
    pub fn max_download_size(self) -> (limit: u64)
        ensures
            limit == self.limit(),
    {
        match self {
            Subject::Database => 536870912,
            Subject::List => 67108864,
        }
    }

    pub fn name(self) -> (name: &'static str)
        ensures
            name@ == self.noun(),
    {
        match self {
            Subject::Database => "ip2region database",
            Subject::List => "security list",
        }
    }

    fn short_name(self) -> (name: &'static str)
        ensures
            name@ == self.short_noun(),
    {
        match self {
            Subject::Database => "ip2region",
            Subject::List => "security list",
        }
    }

    fn temporary_name(self) -> (name: &'static str)
        ensures
            name@ == self.temporary_noun(),
    {
        match self {
            Subject::Database => "temporary download file",
            Subject::List => "temporary security list file",
        }
    }
}

/// What the server said before it sent anything.
#[derive(Debug)]
pub struct ResponseHead {
    pub success: bool,
    pub status: String,
    pub length: Option<u64>,
}

/// A step in writing the download to its file.
#[derive(Debug, Clone, Copy, PartialEq, Eq, Structural)]
pub enum FileStep {
    Create,
    Write,
    Flush,
    Sync,
}

impl FileStep {
    pub open spec fn verb(self) -> Seq<char> {
        match self {
            FileStep::Create => "unable to create "@,
            FileStep::Write => "unable to write "@,
            FileStep::Flush => "unable to flush "@,
            FileStep::Sync => "unable to sync "@,
        }
    }

    fn words(self) -> (words: &'static str)
        ensures
            words@ == self.verb(),
    {
        match self {
            FileStep::Create => "unable to create ",
            FileStep::Write => "unable to write ",
            FileStep::Flush => "unable to flush ",
            FileStep::Sync => "unable to sync ",
        }
    }
}

/// A download under way.
#[derive(Debug)]
pub struct Fetch {
    pub subject: Subject,
    pub url: String,
    pub path: String,
    pub received: u64,
}

/// The report on a download that is larger than it may be.
pub open spec fn too_large(subject: Subject, url: Seq<char>) -> Report {
    problem::plain(
        subject.noun() + " download from "@ + url + " is larger than "@ + text::decimal(
            subject.limit() as nat,
        ) + " bytes"@,
    )
}

impl Fetch {
    /// A download that has not begun.
    pub fn new(subject: Subject, url: String, path: String) -> (fetch: Self)
        ensures
            fetch.subject == subject,
            fetch.url == url,
            fetch.path == path,
            fetch.received == 0,
    {
        Fetch { subject, url, path, received: 0 }
    }

    fn oversize(&self) -> (problem: Problem)
        ensures
            problem@ == too_large(self.subject, self.url@),
    {
        let limit = unsigned_to_text(self.subject.max_download_size());
        let front = cat3(self.subject.name(), " download from ", self.url.as_str());
        let problem = Problem::new(
            cat4(front.as_str(), " is larger than ", limit.as_str(), " bytes"),
        );
        problem
    }

    /// The report on an answer that is no good.
    pub open spec fn response_problem(self, head: Result<ResponseHead, String>) -> Option<Report> {
        match head {
            Err(cause) => Some(
                Report {
                    message: "unable to download "@ + self.subject.noun() + " from "@ + self.url@,
                    cause: Some(cause@),
                },
            ),
            Ok(head) => if !head.success {
                Some(
                    problem::plain(
                        self.subject.noun() + " download from "@ + self.url@ + " returned HTTP "@
                            + head.status@,
                    ),
                )
            } else if head.length is Some && head.length->0 > self.subject.limit() {
                Some(too_large(self.subject, self.url@))
            } else {
                None
            },
        }
    }

    /// Judges the answer of the server, before anything of it is read.
    pub fn on_response(&self, head: Result<ResponseHead, String>) -> (outcome: Result<(), Problem>)
        ensures
            problem::failure(outcome) == self.response_problem(head),
    {
        match head {
            Err(cause) => Err(
                Problem::caused_by(
                    cat4("unable to download ", self.subject.name(), " from ", self.url.as_str()),
                    cause,
                ),
            ),
            Ok(head) => {
                if !head.success {
                    return Err(
                        Problem::new(
                            cat5(
                                self.subject.name(),
                                " download from ",
                                self.url.as_str(),
                                " returned HTTP ",
                                head.status.as_str(),
                            ),
                        ),
                    );
                }
                match head.length {
                    Some(length) => {
                        if length > self.subject.max_download_size() {
                            return Err(self.oversize());
                        }
                    },
                    None => {},
                }
                Ok(())
            },
        }
    }

    /// The report on a failed step in writing the file.
    pub open spec fn file_problem(self, step: FileStep, cause: Seq<char>) -> Report {
        Report {
            message: step.verb() + self.subject.temporary_noun() + " "@ + self.path@,
            cause: Some(cause),
        }
    }

    /// Judges a step in writing the file.
    pub fn on_file_step(&self, step: FileStep, done: Result<(), String>) -> (outcome: Result<
        (),
        Problem,
    >)
        ensures
            problem::failure(outcome) == match done {
                Ok(_) => None,
                Err(cause) => Some(self.file_problem(step, cause@)),
            },
    {
        match done {
            Ok(_) => Ok(()),
            Err(cause) => Err(
                Problem::caused_by(
                    cat4(
                        step.words(),
                        self.subject.temporary_name(),
                        " ",
                        self.path.as_str(),
                    ),
                    cause,
                ),
            ),
        }
    }

    /// The report on a part of the download that cannot be taken.
    pub open spec fn chunk_problem(self, chunk: Result<Option<usize>, String>) -> Option<Report> {
        match chunk {
            Err(cause) => Some(
                Report {
                    message: "unable to read "@ + self.subject.short_noun()
                        + " download response"@,
                    cause: Some(cause@),
                },
            ),
            Ok(None) => None,
            Ok(Some(size)) => if self.received + size > u64::MAX {
                Some(problem::plain(self.subject.short_noun() + " download size overflow"@))
            } else if self.received + size > self.subject.limit() {
                Some(too_large(self.subject, self.url@))
            } else {
                None
            },
        }
    }

    /// Counts the next part of the download, given its size; `None` is its end. Says whether
    /// there is a part to write.
    pub fn on_chunk(&mut self, chunk: Result<Option<usize>, String>) -> (outcome: Result<
        bool,
        Problem,
    >)
        requires
            old(self).received <= old(self).subject.limit(),
        ensures
            problem::failure(outcome) == old(self).chunk_problem(chunk),
            outcome matches Ok(more) ==> more == (chunk->Ok_0 is Some),
            *final(self) == (Fetch { received: final(self).received, ..*old(self) }),
            final(self).received == if outcome is Ok && chunk->Ok_0 is Some {
                old(self).received + chunk->Ok_0->0
            } else {
                old(self).received as int
            },
            final(self).received <= final(self).subject.limit(),
    {
        let size = match chunk {
            Err(cause) => {
                return Err(
                    Problem::caused_by(
                        cat3("unable to read ", self.subject.short_name(), " download response"),
                        cause,
                    ),
                );
            },
            Ok(None) => {
                return Ok(false);
            },
            Ok(Some(size)) => size,
        };
        match self.received.checked_add(size as u64) {
            None => Err(Problem::new(cat2(self.subject.short_name(), " download size overflow"))),
            Some(received) => {
                if received > self.subject.max_download_size() {
                    return Err(self.oversize());
                }
                self.received = received;
                Ok(true)
            },
        }
    }
}

/// Whether a file is fetched because it is missing, or to take the place of an older one.
#[derive(Debug, Clone, Copy, PartialEq, Eq, Structural)]
pub enum Task {
    Missing,
    Refresh,
}

/// A file that is being put in its place: `temporary` is where it is fetched to.
#[derive(Debug)]
pub struct Save {
    pub subject: Subject,
    pub task: Task,
    pub path: String,
    pub temporary: String,
}

/// What is to be done next.
#[derive(Debug)]
pub enum Step {
    /// Make the directory of the file.
    MakeDirectory(String),
    /// Fetch the file to the temporary path.
    Fetch,
    /// Check what was fetched.
    Validate,
    /// Compare what was fetched with the file that is there.
    Compare,
    /// Make a new file at the path.
    Create,
    /// Open what was fetched.
    Open,
    /// Copy what was fetched into the new file.
    Copy,
    /// Make sure that the new file is on the disk.
    Sync,
    /// Put what was fetched in the place of the file.
    Replace,
    /// Remove what was fetched, and end with this result if that works.
    Remove(bool),
    /// Remove the new file; the run has failed.
    DropDestination(Problem),
    /// Remove what was fetched, whether that works or not, and end with this result.
    DropTemporary(Result<bool, Problem>),
    /// The end: whether the file was put in its place.
    End(Result<bool, Problem>),
}

/// What came of a step.
#[derive(Debug)]
pub enum Reply {
    Done,
    /// There is such a file already.
    Exists,
    /// What was fetched is the same as what is there.
    Same,
    Failed(Problem),
}

/// The contents of a [`Step`].
pub enum StepView {
    MakeDirectory(Seq<char>),
    Fetch,
    Validate,
    Compare,
    Create,
    Open,
    Copy,
    Sync,
    Replace,
    Remove(bool),
    DropDestination(Report),
    DropTemporary(Result<bool, Report>),
    End(Result<bool, Report>),
}

/// The contents of a [`Reply`].
pub enum ReplyView {
    Done,
    Exists,
    Same,
    Failed(Report),
}

pub open spec fn result_view(outcome: Result<bool, Problem>) -> Result<bool, Report> {
    match outcome {
        Ok(changed) => Ok(changed),
        Err(problem) => Err(problem@),
    }
}

impl View for Step {
    type V = StepView;

    open spec fn view(&self) -> StepView {
        match *self {
            Step::MakeDirectory(path) => StepView::MakeDirectory(path@),
            Step::Fetch => StepView::Fetch,
            Step::Validate => StepView::Validate,
            Step::Compare => StepView::Compare,
            Step::Create => StepView::Create,
            Step::Open => StepView::Open,
            Step::Copy => StepView::Copy,
            Step::Sync => StepView::Sync,
            Step::Replace => StepView::Replace,
            Step::Remove(changed) => StepView::Remove(changed),
            Step::DropDestination(problem) => StepView::DropDestination(problem@),
            Step::DropTemporary(outcome) => StepView::DropTemporary(result_view(outcome)),
            Step::End(outcome) => StepView::End(result_view(outcome)),
        }
    }
}

impl View for Reply {
    type V = ReplyView;

    open spec fn view(&self) -> ReplyView {
        match *self {
            Reply::Done => ReplyView::Done,
            Reply::Exists => ReplyView::Exists,
            Reply::Same => ReplyView::Same,
            Reply::Failed(problem) => ReplyView::Failed(problem@),
        }
    }
}

/// The directory that has to be there for a file.
pub open spec fn needed_directory(path: Seq<char>) -> Option<Seq<char>> {
    match path::parent_of(path) {
        Some(directory) if directory.len() > 0 => Some(directory),
        _ => None,
    }
}

impl Save {
    /// The words for a step that failed.
    pub open spec fn failure_words(self, step: StepView) -> Seq<char> {
        let list = self.subject is List;
        match step {
            StepView::MakeDirectory(directory) => if list {
                "unable to create security list directory "@ + directory
            } else {
                "unable to create ip2region directory "@ + directory
            },
            StepView::Create => if list {
                "unable to publish security list to "@ + self.path@
            } else {
                "unable to create ip2region database "@ + self.path@
            },
            StepView::Open => if list {
                "unable to open temporary security list "@ + self.temporary@
            } else {
                "unable to open temporary download file "@ + self.temporary@
            },
            StepView::Copy => if list {
                "unable to finish publishing security list to "@ + self.path@
            } else {
                "unable to publish ip2region database "@ + self.path@
            },
            StepView::Sync => "unable to sync ip2region database "@ + self.path@,
            StepView::Replace => "unable to atomically replace "@ + self.subject.noun() + " "@
                + self.path@,
            StepView::Remove(changed) => if changed {
                "unable to remove temporary download file "@ + self.temporary@
            } else {
                "unable to remove unchanged temporary "@ + self.subject.noun() + " "@
                    + self.temporary@
            },
            _ => Seq::empty(),
        }
    }

    /// What is to be done first.
    pub open spec fn first(self, exists: bool) -> StepView {
        if self.task is Missing && exists {
            StepView::End(Ok(false))
        } else {
            match needed_directory(self.path@) {
                Some(directory) => StepView::MakeDirectory(directory),
                None => StepView::Fetch,
            }
        }
    }

    /// What is to be done after a step that worked.
    pub open spec fn after_done(self, step: StepView) -> StepView {
        match step {
            StepView::MakeDirectory(_) => StepView::Fetch,
            StepView::Fetch => StepView::Validate,
            StepView::Validate => match (self.task, self.subject) {
                (Task::Refresh, _) => StepView::Compare,
                (Task::Missing, Subject::Database) => StepView::Create,
                (Task::Missing, Subject::List) => StepView::Open,
            },
            StepView::Compare => StepView::Replace,
            StepView::Create => match self.subject {
                Subject::Database => StepView::Open,
                Subject::List => StepView::Copy,
            },
            StepView::Open => match self.subject {
                Subject::Database => StepView::Copy,
                Subject::List => StepView::Create,
            },
            StepView::Copy => match self.subject {
                Subject::Database => StepView::Sync,
                Subject::List => StepView::End(Ok(true)),
            },
            StepView::Sync => StepView::Remove(true),
            StepView::Replace => StepView::End(Ok(true)),
            StepView::Remove(changed) => StepView::End(Ok(changed)),
            StepView::DropDestination(report) => StepView::DropTemporary(Err(report)),
            StepView::DropTemporary(outcome) => StepView::End(outcome),
            StepView::End(outcome) => StepView::End(outcome),
        }
    }

    /// What is to be done after a step that failed.
    pub open spec fn after_failure(self, step: StepView, report: Report) -> StepView {
        let named = problem::inside(self.failure_words(step), report);
        match step {
            StepView::MakeDirectory(_) => StepView::End(Err(named)),
            StepView::Fetch => StepView::DropTemporary(Err(report)),
            StepView::Validate => StepView::DropTemporary(Err(report)),
            StepView::Compare => StepView::End(Err(report)),
            StepView::Create => StepView::DropTemporary(Err(named)),
            StepView::Open => match self.subject {
                Subject::Database => StepView::DropDestination(named),
                Subject::List => StepView::DropTemporary(Err(named)),
            },
            StepView::Copy => StepView::DropDestination(named),
            StepView::Sync => StepView::DropDestination(named),
            StepView::Replace => StepView::End(Err(named)),
            StepView::Remove(changed) => if changed {
                StepView::DropTemporary(Err(named))
            } else {
                StepView::End(Err(named))
            },
            StepView::DropDestination(report) => StepView::DropTemporary(Err(report)),
            StepView::DropTemporary(outcome) => StepView::End(outcome),
            StepView::End(outcome) => StepView::End(outcome),
        }
    }

    /// What is to be done after a step, given what came of it.
    pub open spec fn after(self, step: StepView, reply: ReplyView) -> StepView {
        match (step, reply) {
            (StepView::Create, ReplyView::Exists) => match self.subject {
                Subject::Database => StepView::DropTemporary(Ok(false)),
                Subject::List => StepView::End(Ok(false)),
            },
            (StepView::Compare, ReplyView::Same) => StepView::Remove(false),
            (step, ReplyView::Failed(report)) => self.after_failure(step, report),
            (step, _) => self.after_done(step),
        }
    }

    fn explain(&self, step: &Step) -> (words: String)
        ensures
            words@ == self.failure_words(step@),
    {
        let list = match self.subject {
            Subject::List => true,
            Subject::Database => false,
        };
        match step {
            Step::MakeDirectory(directory) => if list {
                cat2("unable to create security list directory ", directory.as_str())
            } else {
                cat2("unable to create ip2region directory ", directory.as_str())
            },
            Step::Create => if list {
                cat2("unable to publish security list to ", self.path.as_str())
            } else {
                cat2("unable to create ip2region database ", self.path.as_str())
            },
            Step::Open => if list {
                cat2("unable to open temporary security list ", self.temporary.as_str())
            } else {
                cat2("unable to open temporary download file ", self.temporary.as_str())
            },
            Step::Copy => if list {
                cat2("unable to finish publishing security list to ", self.path.as_str())
            } else {
                cat2("unable to publish ip2region database ", self.path.as_str())
            },
            Step::Sync => cat2("unable to sync ip2region database ", self.path.as_str()),
            Step::Replace => cat4(
                "unable to atomically replace ",
                self.subject.name(),
                " ",
                self.path.as_str(),
            ),
            Step::Remove(changed) => if *changed {
                cat2("unable to remove temporary download file ", self.temporary.as_str())
            } else {
                cat4(
                    "unable to remove unchanged temporary ",
                    self.subject.name(),
                    " ",
                    self.temporary.as_str(),
                )
            },
            _ => String::new(),
        }
    }

    /// What is to be done first, given whether the file is there.
    pub fn start(&self, exists: bool) -> (step: Step)
        ensures
            step@ == self.first(exists),
    {
        match self.task {
            Task::Missing => {
                if exists {
                    return Step::End(Ok(false));
                }
            },
            Task::Refresh => {},
        }
        match parent(self.path.as_str()) {
            Some(directory) => {
                if directory.is_empty() {
                    Step::Fetch
                } else {
                    Step::MakeDirectory(directory.to_owned())
                }
            },
            None => Step::Fetch,
        }
    }

    fn advance_done(&self, step: Step) -> (next: Step)
        ensures
            next@ == self.after_done(step@),
    {
        match step {
            Step::MakeDirectory(_) => Step::Fetch,
            Step::Fetch => Step::Validate,
            Step::Validate => match (self.task, self.subject) {
                (Task::Refresh, _) => Step::Compare,
                (Task::Missing, Subject::Database) => Step::Create,
                (Task::Missing, Subject::List) => Step::Open,
            },
            Step::Compare => Step::Replace,
            Step::Create => match self.subject {
                Subject::Database => Step::Open,
                Subject::List => Step::Copy,
            },
            Step::Open => match self.subject {
                Subject::Database => Step::Copy,
                Subject::List => Step::Create,
            },
            Step::Copy => match self.subject {
                Subject::Database => Step::Sync,
                Subject::List => Step::End(Ok(true)),
            },
            Step::Sync => Step::Remove(true),
            Step::Replace => Step::End(Ok(true)),
            Step::Remove(changed) => Step::End(Ok(changed)),
            Step::DropDestination(problem) => Step::DropTemporary(Err(problem)),
            Step::DropTemporary(outcome) => Step::End(outcome),
            Step::End(outcome) => Step::End(outcome),
        }
    }

    fn advance_failed(&self, step: Step, problem: Problem) -> (next: Step)
        ensures
            next@ == self.after_failure(step@, problem@),
    {
        let words = self.explain(&step);
        match step {
            Step::MakeDirectory(_) => Step::End(Err(problem.within(words))),
            Step::Fetch => Step::DropTemporary(Err(problem)),
            Step::Validate => Step::DropTemporary(Err(problem)),
            Step::Compare => Step::End(Err(problem)),
            Step::Create => Step::DropTemporary(Err(problem.within(words))),
            Step::Open => match self.subject {
                Subject::Database => Step::DropDestination(problem.within(words)),
                Subject::List => Step::DropTemporary(Err(problem.within(words))),
            },
            Step::Copy => Step::DropDestination(problem.within(words)),
            Step::Sync => Step::DropDestination(problem.within(words)),
            Step::Replace => Step::End(Err(problem.within(words))),
            Step::Remove(changed) => if changed {
                Step::DropTemporary(Err(problem.within(words)))
            } else {
                Step::End(Err(problem.within(words)))
            },
            Step::DropDestination(earlier) => Step::DropTemporary(Err(earlier)),
            Step::DropTemporary(outcome) => Step::End(outcome),
            Step::End(outcome) => Step::End(outcome),
        }
    }

    /// What is to be done after a step, given what came of it.
    pub fn advance(&self, step: Step, reply: Reply) -> (next: Step)
        ensures
            next@ == self.after(step@, reply@),
    {
        match (step, reply) {
            (Step::Create, Reply::Exists) => match self.subject {
                Subject::Database => Step::DropTemporary(Ok(false)),
                Subject::List => Step::End(Ok(false)),
            },
            (Step::Compare, Reply::Same) => Step::Remove(false),
            (step, Reply::Failed(problem)) => self.advance_failed(step, problem),
            (step, _) => self.advance_done(step),
        }
    }

    /// How many steps are left at most.
    pub open spec fn steps_left(self, step: StepView) -> nat {
        match step {
            StepView::MakeDirectory(_) => 11,
            StepView::Fetch => 10,
            StepView::Validate => 9,
            StepView::Compare => 8,
            StepView::Create => if self.subject is Database {
                8
            } else {
                6
            },
            StepView::Open => 7,
            StepView::Copy => 5,
            StepView::Sync => 4,
            StepView::Replace => 3,
            StepView::Remove(_) => 3,
            StepView::DropDestination(_) => 2,
            StepView::DropTemporary(_) => 1,
            StepView::End(_) => 0,
        }
    }
}

/// The step that a run has come to after several replies.
pub open spec fn step_after_all(save: Save, exists: bool, replies: Seq<ReplyView>) -> StepView
    decreases replies.len(),
{
    if replies.len() == 0 {
        save.first(exists)
    } else {
        save.after(step_after_all(save, exists, replies.drop_last()), replies.last())
    }
}

/// Whether a step uses what was fetched, or has used it.
pub open spec fn uses_download(step: StepView) -> bool {
    match step {
        StepView::Compare | StepView::Create | StepView::Open | StepView::Copy
        | StepView::Sync | StepView::Replace | StepView::Remove(_)
        | StepView::DropDestination(_) => true,
        StepView::End(Ok(true)) => true,
        _ => false,
    }
}

/// Whether what was fetched had been found good when the last of these replies came.
pub open spec fn found_good(save: Save, exists: bool, replies: Seq<ReplyView>) -> bool {
    exists|i: int|
        #![trigger replies[i]]
        0 <= i < replies.len() && step_after_all(save, exists, replies.take(i)) is Validate
            && replies[i] !is Failed
}

/// Nothing is put in its place before it has been found good, whatever comes of the steps of
/// a run.
pub proof fn lemma_only_checked_files_are_used(
    save: Save,
    exists: bool,
    replies: Seq<ReplyView>,
)
    requires
        uses_download(step_after_all(save, exists, replies)),
    ensures
        found_good(save, exists, replies),
    decreases replies.len(),
{
    if replies.len() > 0 {
        let rest = replies.drop_last();
        if uses_download(step_after_all(save, exists, rest)) {
            lemma_only_checked_files_are_used(save, exists, rest);
            let i = choose|i: int|
                #![trigger rest[i]]
                0 <= i < rest.len() && step_after_all(save, exists, rest.take(i)) is Validate
                    && rest[i] !is Failed;
            assert(rest.take(i) == replies.take(i));
        }
    }
}

/// Whether a step writes to a new file at the path, or removes it.
pub open spec fn has_new_file(save: Save, step: StepView) -> bool {
    match step {
        StepView::Copy | StepView::Sync | StepView::Remove(true) | StepView::DropDestination(
            _,
        ) => true,
        StepView::Open => save.subject is Database,
        _ => false,
    }
}

/// Whether a new file had been made at the path when the last of these replies came.
pub open spec fn made_file(save: Save, exists: bool, replies: Seq<ReplyView>) -> bool {
    exists|i: int|
        #![trigger replies[i]]
        0 <= i < replies.len() && step_after_all(save, exists, replies.take(i)) is Create
            && replies[i] !is Exists && replies[i] !is Failed
}

/// A file that was there before is neither written to nor removed: the steps that do so
/// follow on the making of a new file, which fails where there is one.
pub proof fn lemma_existing_file_is_left_alone(
    save: Save,
    exists: bool,
    replies: Seq<ReplyView>,
)
    requires
        has_new_file(save, step_after_all(save, exists, replies)),
    ensures
        made_file(save, exists, replies),
    decreases replies.len(),
{
    if replies.len() > 0 {
        let rest = replies.drop_last();
        if has_new_file(save, step_after_all(save, exists, rest)) {
            lemma_existing_file_is_left_alone(save, exists, rest);
            let i = choose|i: int|
                #![trigger rest[i]]
                0 <= i < rest.len() && step_after_all(save, exists, rest.take(i)) is Create
                    && rest[i] !is Exists && rest[i] !is Failed;
            assert(rest.take(i) == replies.take(i));
        }
    }
}

/// Whether a step belongs to a refresh alone.
pub open spec fn is_refreshing(step: StepView) -> bool {
    step is Compare || step is Replace || step == StepView::Remove(false)
}

/// A file is replaced only by a refresh, and only by one that differs from it.
pub proof fn lemma_only_refreshes_replace(save: Save, exists: bool, replies: Seq<ReplyView>)
    ensures
        is_refreshing(step_after_all(save, exists, replies)) ==> save.task is Refresh,
        step_after_all(save, exists, replies) is Replace ==> replies.len() > 0 && step_after_all(
            save,
            exists,
            replies.drop_last(),
        ) is Compare && replies.last() !is Same && replies.last() !is Failed,
    decreases replies.len(),
{
}

/// A run for a missing file that fails does so only after the step that removes what was
/// fetched, or before anything was fetched.
pub proof fn lemma_failure_drops_download(
    save: Save,
    exists: bool,
    replies: Seq<ReplyView>,
)
    requires
        save.task is Missing,
        replies.len() > 0,
        step_after_all(save, exists, replies.drop_last()) !is End,
        step_after_all(save, exists, replies) matches StepView::End(Err(_)),
    ensures
        step_after_all(save, exists, replies.drop_last()) is DropTemporary || step_after_all(
            save,
            exists,
            replies.drop_last(),
        ) is MakeDirectory,
{
    lemma_only_refreshes_replace(save, exists, replies.drop_last());
}

/// Every run comes to its end after eleven steps at most.
pub proof fn lemma_runs_end(save: Save, exists: bool, replies: Seq<ReplyView>)
    ensures
        save.steps_left(step_after_all(save, exists, replies)) + replies.len() <= 11
            || step_after_all(save, exists, replies) is End,
        replies.len() >= 11 ==> step_after_all(save, exists, replies) is End,
    decreases replies.len(),
{
    if replies.len() > 0 {
        lemma_runs_end(save, exists, replies.drop_last());
    }
}

/// The name of the file that a download is first written to.
pub open spec fn temporary_name(subject: Subject, path: Seq<char>, id: Seq<u8>) -> Seq<char> {
    match subject {
        Subject::Database => "."@ + named_or(path, "ip2region.xdb"@) + "."@ + identity::hyphenated_text(id)
            + ".part"@,
        Subject::List => "."@ + named_or(path, "security-list"@) + "."@ + identity::hex_text(id)
            + ".download"@,
    }
}

/// The name of the file at a path, or another name if the path has none.
pub open spec fn named_or(path: Seq<char>, other: Seq<char>) -> Seq<char> {
    match path::file_name_of(path) {
        Some(name) => name,
        None => other,
    }
}

/// The path that a download is first written to, given the identifier in its name.
pub fn temporary_path_for(subject: Subject, path: &str, id: &Uuid) -> (temporary: String)
    ensures
        temporary@ == path::renamed(path@, temporary_name(subject, path@, id@)),
{
    let name = match subject {
        Subject::Database => {
            let name = match file_name(path) {
                Some(name) => name,
                None => "ip2region.xdb",
            };
            cat5(".", name, ".", grouped_text(id).as_str(), ".part")
        },
        Subject::List => {
            let name = match file_name(path) {
                Some(name) => name,
                None => "security-list",
            };
            cat5(".", name, ".", simple_text(id).as_str(), ".download")
        },
    };
    with_file_name(path, name.as_str())
}

/// A new path that a download is first written to.
pub fn temporary_path(subject: Subject, path: &str) -> (temporary: String)
    ensures
        exists|id: Seq<u8>|
            identity::is_random_uuid(id) && temporary@ == path::renamed(
                path@,
                #[trigger] temporary_name(subject, path@, id),
            ),
{
    let id = fresh_uuid();
    temporary_path_for(subject, path, &id)
}

/// What two parts that were read from two files say of the files.
#[derive(Debug, Clone, Copy, PartialEq, Eq, Structural)]
pub enum PartVerdict {
    /// The files differ.
    Differ,
    /// Both files are at their end, without a difference.
    End,
    /// No difference so far.
    More,
}

/// What two parts that were read from two files say of the files.
pub fn compare_parts(first: &[u8], second: &[u8]) -> (verdict: PartVerdict)
    ensures
        verdict == if first@ != second@ {
            PartVerdict::Differ
        } else if first@.len() == 0 {
            PartVerdict::End
        } else {
            PartVerdict::More
        },
{
    if first.len() != second.len() {
        return PartVerdict::Differ;
    }
    if first.len() == 0 {
        assert(first@ =~= second@);
        return PartVerdict::End;
    }
    let mut i: usize = 0;
    while i < first.len()
        invariant
            i <= first.len() == second.len(),
            first.len() > 0,
            forall|k: int| 0 <= k < i ==> first@[k] == second@[k],
        decreases first.len() - i,
    {
        if first[i] != second[i] {
            return PartVerdict::Differ;
        }
        i += 1;
    }
    assert(first@ =~= second@);
    PartVerdict::More
}

/// A file by its label and its path.
pub type Named = (Seq<char>, Seq<char>);

/// Of the first `n` files, those that a run put in their place.
pub open spec fn placed(
    files: Seq<Named>,
    outcomes: Seq<Result<bool, Problem>>,
    n: nat,
) -> Seq<Named>
    decreases n,
{
    if n == 0 {
        Seq::empty()
    } else {
        let i = (n - 1) as nat;
        match outcomes[i as int] {
            Ok(true) => placed(files, outcomes, i).push(files[i as int]),
            _ => placed(files, outcomes, i),
        }
    }
}

/// Of the first `n` files, what went wrong with those whose runs failed.
pub open spec fn complaints(
    files: Seq<Named>,
    outcomes: Seq<Result<bool, Problem>>,
    n: nat,
) -> Seq<Seq<char>>
    decreases n,
{
    if n == 0 {
        Seq::empty()
    } else {
        let i = (n - 1) as nat;
        match outcomes[i as int] {
            Err(problem) => complaints(files, outcomes, i).push(
                files[i as int].0 + ": "@ + problem@.message,
            ),
            _ => complaints(files, outcomes, i),
        }
    }
}

/// The reports of runs, run by run.
pub open spec fn run_findings(outcomes: Seq<Result<bool, Problem>>) -> Seq<Option<Report>> {
    Seq::new(outcomes.len(), |i: int| problem::failure(outcomes[i]))
}

/// A file that a run puts in its place is one of the files, and its run worked.
pub proof fn lemma_placed_files_worked(
    files: Seq<Named>,
    outcomes: Seq<Result<bool, Problem>>,
    n: nat,
    file: Named,
)
    requires
        n <= outcomes.len() <= files.len(),
        placed(files, outcomes, n).contains(file),
    ensures
        exists|i: int|
            0 <= i < n && #[trigger] files[i] == file && outcomes[i] == Ok::<bool, Problem>(true),
    decreases n,
{
    let i = (n - 1) as nat;
    let rest = placed(files, outcomes, i);
    if rest.contains(file) {
        lemma_placed_files_worked(files, outcomes, i, file);
    }
}

/// Every run that put a file in its place is reported, whatever came of the others.
pub proof fn lemma_working_files_are_placed(
    files: Seq<Named>,
    outcomes: Seq<Result<bool, Problem>>,
    n: nat,
    i: int,
)
    requires
        0 <= i < n <= outcomes.len() <= files.len(),
        outcomes[i] == Ok::<bool, Problem>(true),
    ensures
        placed(files, outcomes, n).contains(files[i]),
    decreases n,
{
    let all = placed(files, outcomes, n);
    if i < n - 1 {
        let rest = placed(files, outcomes, (n - 1) as nat);
        lemma_working_files_are_placed(files, outcomes, (n - 1) as nat, i);
        let k = rest.index_of(files[i]);
        assert(all[k] == files[i]);
    } else {
        assert(all.last() == files[i]);
    }
}

/// Whether the last of the outcomes is a failure.
pub open spec fn ends_in_failure(outcomes: Seq<Result<bool, Problem>>) -> bool {
    outcomes.len() > 0 && outcomes.last() is Err
}

/// Whether none of the outcomes but perhaps the last is a failure.
pub open spec fn worked_before_last(outcomes: Seq<Result<bool, Problem>>) -> bool {
    forall|i: int| 0 <= i < outcomes.len() - 1 ==> (#[trigger] outcomes[i]) is Ok
}

/// Whether these are the outcomes of a round over `count` files that tries every file.
pub open spec fn tried_all(count: nat, outcomes: Seq<Result<bool, Problem>>) -> bool {
    outcomes.len() == count
}

/// Whether these are the outcomes of a round over `count` files that stops at the first
/// failure: all of them, or those up to the only one that failed.
pub open spec fn tried_until_failure(count: nat, outcomes: Seq<Result<bool, Problem>>) -> bool {
    &&& outcomes.len() <= count
    &&& worked_before_last(outcomes)
    &&& outcomes.len() == count || ends_in_failure(outcomes)
}

/// A round over several files, which are tried one after the other.
#[derive(Debug)]
pub struct Round {
    /// How many files there are.
    pub count: usize,
    /// Whether the round stops at the first failure.
    pub stops: bool,
    /// What came of the files that were tried.
    pub outcomes: Vec<Result<bool, Problem>>,
}

/// Whether a round with these outcomes is over.
pub open spec fn is_over(count: nat, stops: bool, outcomes: Seq<Result<bool, Problem>>) -> bool {
    outcomes.len() >= count || (stops && ends_in_failure(outcomes))
}

impl Round {
    pub open spec fn well_formed(self) -> bool {
        &&& self.outcomes@.len() <= self.count
        &&& self.stops ==> worked_before_last(self.outcomes@)
    }

    pub open spec fn over(self) -> bool {
        is_over(self.count as nat, self.stops, self.outcomes@)
    }

    /// A round that has not begun.
    pub fn new(count: usize, stops: bool) -> (round: Self)
        ensures
            round.well_formed(),
            round.count == count,
            round.stops == stops,
            round.outcomes@.len() == 0,
    {
        Round { count, stops, outcomes: Vec::new() }
    }

    /// The place of the file that is to be tried next; none once the round is over.
    pub fn next(&self) -> (place: Option<usize>)
        requires
            self.well_formed(),
        ensures
            match place {
                Some(place) => !self.over() && place == self.outcomes@.len() && place < self.count,
                None => self.over(),
            },
            place is None && !self.stops ==> tried_all(self.count as nat, self.outcomes@),
            place is None && self.stops ==> tried_until_failure(
                self.count as nat,
                self.outcomes@,
            ),
    {
        let tried = self.outcomes.len();
        if tried >= self.count {
            return None;
        }
        if self.stops && tried > 0 && self.outcomes[tried - 1].is_err() {
            return None;
        }
        Some(tried)
    }

    /// Notes what came of the file that was to be tried next.
    pub fn on_outcome(&mut self, outcome: Result<bool, Problem>)
        requires
            old(self).well_formed(),
            !old(self).over(),
        ensures
            final(self).well_formed(),
            final(self).count == old(self).count,
            final(self).stops == old(self).stops,
            final(self).outcomes@ == old(self).outcomes@.push(outcome),
    {
        self.outcomes.push(outcome);
    }
}

/// The outcomes of a round after `n` chances to try a file, where `fates` is what comes of
/// each file once it is tried.
pub open spec fn outcomes_after(
    stops: bool,
    fates: Seq<Result<bool, Problem>>,
    n: nat,
) -> Seq<Result<bool, Problem>>
    decreases n,
{
    if n == 0 {
        Seq::empty()
    } else {
        let before = outcomes_after(stops, fates, (n - 1) as nat);
        if is_over(fates.len(), stops, before) {
            before
        } else {
            before.push(fates[before.len() as int])
        }
    }
}

/// A file that fails does not keep the others from being tried, unless the round stops at
/// failures: each of them has its outcome in the end.
pub proof fn lemma_failures_do_not_stop_the_others(fates: Seq<Result<bool, Problem>>)
    ensures
        outcomes_after(false, fates, fates.len()) == fates,
{
    lemma_tried_in_order(fates, fates.len());
    assert(fates.take(fates.len() as int) == fates);
}

proof fn lemma_tried_in_order(fates: Seq<Result<bool, Problem>>, n: nat)
    requires
        n <= fates.len(),
    ensures
        outcomes_after(false, fates, n) == fates.take(n as int),
    decreases n,
{
    if n > 0 {
        lemma_tried_in_order(fates, (n - 1) as nat);
        assert(fates.take(n as int) == fates.take(n - 1).push(fates[n - 1]));
    }
}

/// A round that stops at failures tries the files in order up to the first that fails, and
/// none behind it.
pub proof fn lemma_round_stops_at_failure(
    fates: Seq<Result<bool, Problem>>,
    first: int,
    n: nat,
)
    requires
        0 <= first < fates.len(),
        fates[first] is Err,
        forall|i: int| 0 <= i < first ==> (#[trigger] fates[i]) is Ok,
    ensures
        outcomes_after(true, fates, n) == fates.take(
            if n <= first {
                n as int
            } else {
                first + 1
            },
        ),
    decreases n,
{
    if n > 0 {
        lemma_round_stops_at_failure(fates, first, (n - 1) as nat);
        let before = outcomes_after(true, fates, (n - 1) as nat);
        if n <= first + 1 {
            assert(n - 1 > 0 ==> before.last() == fates[n - 2]);
            assert(fates.take(n as int) == fates.take(n - 1).push(fates[n - 1]));
        } else {
            assert(before.last() == fates[first]);
        }
    }
}

/// How much is downloaded at most: half a gibibyte for a database, 64 mebibytes for a list.
pub proof fn lemma_download_limits(subject: Subject, limit: u64)
    requires
        call_ensures(Subject::max_download_size, (subject,), limit),
    ensures
        subject is Database ==> limit == 512 * 1024 * 1024,
        subject is List ==> limit == 64 * 1024 * 1024,
        limit == subject.limit(),
{
}

/// An answer is taken exactly when it came, says that it worked, and does not announce more
/// than may be downloaded.
pub proof fn lemma_answers_that_are_taken(
    fetch: Fetch,
    head: Result<ResponseHead, String>,
    outcome: Result<(), Problem>,
    limit: u64,
)
    requires
        call_ensures(Fetch::on_response, (&fetch, head), outcome),
        call_ensures(Subject::max_download_size, (fetch.subject,), limit),
    ensures
        outcome is Ok <==> head is Ok && head->Ok_0.success && (head->Ok_0.length is None
            || head->Ok_0.length->0 <= limit),
{
}

/// Of the first `n` runs, the one at `i` failed: what went wrong is told with the label of its
/// file in front. Nothing else is told.
pub proof fn lemma_failures_are_told(
    files: Seq<Named>,
    outcomes: Seq<Result<bool, Problem>>,
    n: nat,
    words: Seq<char>,
)
    requires
        n <= outcomes.len(),
        n <= files.len(),
    ensures
        complaints(files, outcomes, n).contains(words) <==> exists|i: int|
            0 <= i < n && (#[trigger] outcomes[i]) is Err && words == files[i].0 + ": "@
                + outcomes[i]->Err_0.message@,
    decreases n,
{
    if n > 0 {
        let last = (n - 1) as nat;
        let before = complaints(files, outcomes, last);
        let after = complaints(files, outcomes, n);
        lemma_failures_are_told(files, outcomes, last, words);
        if after.contains(words) {
            let j = after.index_of(words);
            if j < before.len() {
                assert(before[j] == words);
                assert(before.contains(words));
                let i = choose|i: int|
                    0 <= i < last && (#[trigger] outcomes[i]) is Err && words == files[i].0 + ": "@
                        + outcomes[i]->Err_0.message@;
                assert(outcomes[i] is Err);
            } else {
                assert(outcomes[last as int] is Err);
            }
        }
        if exists|i: int|
            0 <= i < n && (#[trigger] outcomes[i]) is Err && words == files[i].0 + ": "@
                + outcomes[i]->Err_0.message@ {
            let i = choose|i: int|
                0 <= i < n && (#[trigger] outcomes[i]) is Err && words == files[i].0 + ": "@
                    + outcomes[i]->Err_0.message@;
            if i < last {
                assert(before.contains(words));
                let j = before.index_of(words);
                assert(after[j] == words);
            } else {
                assert(after.last() == words);
            }
        }
    } else {
        assert(complaints(files, outcomes, n).len() == 0);
    }
}

/// A download is first written next to the file that it is for, under a hidden name that ends
/// in the mark of a download and holds the identifier.
pub proof fn lemma_download_lies_next_to_its_file(
    subject: Subject,
    directory: Seq<char>,
    name: Seq<char>,
    path: &str,
    id: Uuid,
    temporary: String,
)
    requires
        call_ensures(temporary_path_for, (subject, path, &id), temporary),
        path::file_name_of(path@) == Some(name),
        path::parent_of(path@) == Some(directory),
        directory.len() > 0 && directory.last() != '/',
        subject is List,
    ensures
        temporary@ == directory + "/"@ + ("."@ + name + "."@ + identity::hex_text(id@)
            + ".download"@),
{
    reveal_strlit(".");
    let hidden = "."@ + name + "."@ + identity::hex_text(id@) + ".download"@;
    assert(hidden[0] == '.');
}

/// Two files that were read part by part are the same exactly when no part differs and both
/// end together.
pub proof fn lemma_parts_tell_files_apart(first: &[u8], second: &[u8], verdict: PartVerdict)
    requires
        call_ensures(compare_parts, (first, second), verdict),
    ensures
        verdict is Differ <==> first@ != second@,
        verdict is End <==> first@.len() == 0 && second@.len() == 0,
{
    if first@.len() == 0 && second@.len() == 0 {
        assert(first@ =~= second@);
    }
}

/// The files on a disk: what lies at each path.
pub type Files = Map<Seq<char>, Seq<u8>>;

/// Whether the same lies at a path on two disks, or nothing on both.
pub open spec fn same_at(before: Files, after: Files, path: Seq<char>) -> bool {
    &&& before.dom().contains(path) <==> after.dom().contains(path)
    &&& before.dom().contains(path) ==> before[path] == after[path]
}

/// What a step does to the files, given what came of it, where `data` is what the server
/// sends. A step that failed may have left a file of its own behind half done.
pub open spec fn does(
    save: Save,
    step: StepView,
    reply: ReplyView,
    data: Seq<u8>,
    before: Files,
    after: Files,
) -> bool {
    let path = save.path@;
    let temporary = save.temporary@;
    match (step, reply) {
        (StepView::Fetch, ReplyView::Failed(_)) => after.remove(temporary) == before.remove(
            temporary,
        ),
        (StepView::Fetch, _) => after == before.insert(temporary, data),
        (StepView::Compare, ReplyView::Same) => after == before && before.dom().contains(path)
            && before[path] == before[temporary],
        (StepView::Create, ReplyView::Exists) => after == before && before.dom().contains(path),
        (StepView::Create, ReplyView::Failed(_)) => after == before,
        (StepView::Create, _) => !before.dom().contains(path) && after == before.insert(
            path,
            Seq::empty(),
        ),
        (StepView::Copy, ReplyView::Failed(_)) => after.remove(path) == before.remove(path),
        (StepView::Copy, _) => after == before.insert(path, before[temporary]),
        (StepView::Replace, ReplyView::Failed(_)) => after == before,
        (StepView::Replace, _) => after == before.remove(temporary).insert(path, before[temporary]),
        (StepView::Remove(_), ReplyView::Failed(_)) => after == before,
        (StepView::Remove(_), _) => after == before.remove(temporary),
        (StepView::DropTemporary(_), ReplyView::Failed(_)) => after == before,
        (StepView::DropTemporary(_), _) => after == before.remove(temporary),
        (StepView::DropDestination(_), ReplyView::Failed(_)) => after == before,
        (StepView::DropDestination(_), _) => after == before.remove(path),
        _ => after == before,
    }
}

/// Whether disks are what a run goes through: the first is that before the run, and each of
/// the others is what a step made of the one before it.
pub open spec fn goes_through(
    save: Save,
    exists: bool,
    replies: Seq<ReplyView>,
    data: Seq<u8>,
    disks: Seq<Files>,
) -> bool {
    &&& disks.len() == replies.len() + 1
    &&& forall|i: int|
        0 <= i < replies.len() ==> does(
            save,
            step_after_all(save, exists, replies.take(i)),
            #[trigger] replies[i],
            data,
            disks[i],
            disks[i + 1],
        )
}

/// What is true of the files when a run has come to a step.
spec fn stands(save: Save, step: StepView, data: Seq<u8>, start: Files, now: Files) -> bool {
    let path = save.path@;
    let temporary = save.temporary@;
    let fetched = now.dom().contains(temporary) && now[temporary] == data;
    match step {
        StepView::MakeDirectory(_) | StepView::Fetch => same_at(start, now, path),
        StepView::Validate | StepView::Compare | StepView::Replace => fetched && same_at(
            start,
            now,
            path,
        ),
        StepView::Create => fetched && same_at(start, now, path) && save.task is Missing,
        StepView::Open => fetched && save.task is Missing && if save.subject is Database {
            !start.dom().contains(path)
        } else {
            same_at(start, now, path)
        },
        StepView::Copy => fetched && !start.dom().contains(path),
        StepView::Sync | StepView::Remove(true) => !start.dom().contains(path)
            && now.dom().contains(path) && now[path] == data,
        StepView::Remove(false) => same_at(start, now, path),
        StepView::DropDestination(_) => !start.dom().contains(path),
        StepView::DropTemporary(Ok(true)) => false,
        StepView::DropTemporary(Ok(false)) | StepView::End(Ok(false)) => same_at(start, now, path),
        StepView::End(Ok(true)) => now.dom().contains(path) && now[path] == data,
        StepView::DropTemporary(Err(_)) | StepView::End(Err(_)) => start.dom().contains(path)
            ==> same_at(start, now, path),
    }
}

proof fn lemma_files_stand(
    save: Save,
    exists: bool,
    replies: Seq<ReplyView>,
    data: Seq<u8>,
    disks: Seq<Files>,
    other: Seq<char>,
)
    requires
        save.path@ != save.temporary@,
        goes_through(save, exists, replies, data, disks),
    ensures
        stands(save, step_after_all(save, exists, replies), data, disks[0], disks.last()),
        other != save.path@ && other != save.temporary@ ==> same_at(disks[0], disks.last(), other),
    decreases replies.len(),
{
    if replies.len() > 0 {
        let rest = replies.drop_last();
        let earlier = disks.drop_last();
        assert forall|i: int| 0 <= i < rest.len() implies does(
            save,
            step_after_all(save, exists, rest.take(i)),
            #[trigger] rest[i],
            data,
            earlier[i],
            earlier[i + 1],
        ) by {
            assert(rest.take(i) == replies.take(i));
            assert(rest[i] == replies[i]);
        }
        lemma_files_stand(save, exists, rest, data, earlier, other);
        let last = replies.len() - 1;
        assert(replies.take(last) == rest);
        let step = step_after_all(save, exists, rest);
        let before = earlier.last();
        let after = disks.last();
        assert(does(save, step, replies[last], data, before, after));
        lemma_only_refreshes_replace(save, exists, rest);
        lemma_step_stands(save, step, replies[last], data, disks[0], before, after, other);
    }
}

proof fn lemma_step_stands(
    save: Save,
    step: StepView,
    reply: ReplyView,
    data: Seq<u8>,
    start: Files,
    before: Files,
    after: Files,
    other: Seq<char>,
)
    requires
        save.path@ != save.temporary@,
        stands(save, step, data, start, before),
        does(save, step, reply, data, before, after),
        is_refreshing(step) ==> save.task is Refresh,
        other != save.path@ && other != save.temporary@ ==> same_at(start, before, other),
    ensures
        stands(save, save.after(step, reply), data, start, after),
        other != save.path@ && other != save.temporary@ ==> same_at(start, after, other),
{
    let path = save.path@;
    let temporary = save.temporary@;
    match (step, reply) {
        (StepView::Fetch, ReplyView::Failed(_)) => {
            assert(same_at(before, after, path)) by {
                assert(before.remove(temporary).dom().contains(path) == before.dom().contains(path));
                assert(after.remove(temporary).dom().contains(path) == after.dom().contains(path));
                assert(before.dom().contains(path) ==> before.remove(temporary)[path]
                    == before[path]);
                assert(after.dom().contains(path) ==> after.remove(temporary)[path] == after[path]);
            }
            if other != path && other != temporary {
                assert(before.remove(temporary).dom().contains(other) == before.dom().contains(
                    other,
                ));
                assert(after.remove(temporary).dom().contains(other) == after.dom().contains(
                    other,
                ));
                assert(before.dom().contains(other) ==> before.remove(temporary)[other]
                    == before[other]);
                assert(after.dom().contains(other) ==> after.remove(temporary)[other]
                    == after[other]);
            }
        },
        (StepView::Copy, ReplyView::Failed(_)) => {
            if other != path && other != temporary {
                assert(before.remove(path).dom().contains(other) == before.dom().contains(other));
                assert(after.remove(path).dom().contains(other) == after.dom().contains(other));
                assert(before.dom().contains(other) ==> before.remove(path)[other]
                    == before[other]);
                assert(after.dom().contains(other) ==> after.remove(path)[other] == after[other]);
            }
        },
        _ => {},
    }
}

/// What a run does to the files. A run that says that it put the file in its place has put
/// there what the server sent. One that says that it did not, has left the place as it was. One
/// that failed has left a file that was there as it was. Nothing else is touched but the place
/// where the download is first written to.
pub proof fn lemma_run_keeps_its_word(
    save: Save,
    exists: bool,
    replies: Seq<ReplyView>,
    data: Seq<u8>,
    disks: Seq<Files>,
    other: Seq<char>,
)
    requires
        save.path@ != save.temporary@,
        goes_through(save, exists, replies, data, disks),
        step_after_all(save, exists, replies) is End,
    ensures
        step_after_all(save, exists, replies) == StepView::End(Ok(true))
            ==> disks.last().dom().contains(
            save.path@,
        ) && disks.last()[save.path@] == data,
        step_after_all(save, exists, replies) == StepView::End(Ok(false)) ==> same_at(
            disks[0],
            disks.last(),
            save.path@,
        ),
        step_after_all(save, exists, replies)->End_0 is Err && disks[0].dom().contains(save.path@)
            ==> same_at(disks[0], disks.last(), save.path@),
        other != save.path@ && other != save.temporary@ ==> same_at(disks[0], disks.last(), other),
{
    lemma_files_stand(save, exists, replies, data, disks, other);
}

/// A run in which every step works puts the file in its place: a missing file, and a refresh
/// that differs from what is there. A missing file that is there after all ends the run at
/// once.
pub proof fn lemma_working_run_places_the_file(
    save: Save,
    exists: bool,
    replies: Seq<ReplyView>,
)
    requires
        replies.len() >= 11,
        forall|i: int| 0 <= i < replies.len() ==> (#[trigger] replies[i]) is Done,
    ensures
        !(save.task is Missing && exists) ==> step_after_all(save, exists, replies)
            == StepView::End(Ok(true)),
        save.task is Missing && exists ==> step_after_all(save, exists, replies) == StepView::End(
            Ok(false),
        ),
{
    lemma_runs_end(save, exists, replies);
    lemma_working_steps(save, exists, replies);
}

proof fn lemma_working_steps(save: Save, exists: bool, replies: Seq<ReplyView>)
    requires
        forall|i: int| 0 <= i < replies.len() ==> (#[trigger] replies[i]) is Done,
    ensures
        ({
            let step = step_after_all(save, exists, replies);
            if save.task is Missing && exists {
                step == StepView::End(Ok(false))
            } else {
                match step {
                    StepView::DropDestination(_) | StepView::DropTemporary(_) => false,
                    StepView::Remove(changed) => changed,
                    StepView::End(outcome) => outcome == Ok::<bool, Report>(true),
                    _ => true,
                }
            }
        }),
    decreases replies.len(),
{
    if replies.len() > 0 {
        let rest = replies.drop_last();
        assert forall|i: int| 0 <= i < rest.len() implies (#[trigger] rest[i]) is Done by {
            assert(rest[i] == replies[i]);
        }
        lemma_working_steps(save, exists, rest);
        assert(replies[replies.len() - 1] is Done);
    }
}

/// A refresh that finds the same in place as it fetched says that nothing was changed.
pub proof fn lemma_same_file_is_no_change(
    save: Save,
    exists: bool,
    replies: Seq<ReplyView>,
)
    requires
        replies.len() > 1,
        step_after_all(save, exists, replies.drop_last().drop_last()) is Compare,
        replies[replies.len() - 2] is Same,
        replies.last() is Done,
    ensures
        step_after_all(save, exists, replies) == StepView::End(Ok(false)),
{
    let rest = replies.drop_last();
    assert(rest.last() == replies[replies.len() - 2]);
    assert(step_after_all(save, exists, rest) == StepView::Remove(false));
}

/// The steps of a run, one after the other, where every one works. What was fetched is checked
/// before anything else is done with it. A missing database is copied to a new file and made
/// sure of before the download is removed; a missing list is copied to a new file; a refresh is
/// compared with what is there and put in its place.
pub open spec fn working_steps(save: Save) -> Seq<StepView> {
    (match path::parent_of(save.path@) {
        Some(directory) if directory.len() > 0 => seq![StepView::MakeDirectory(directory)],
        _ => Seq::empty(),
    }) + seq![StepView::Fetch, StepView::Validate] + match (save.task, save.subject) {
        (Task::Refresh, _) => seq![StepView::Compare, StepView::Replace],
        (Task::Missing, Subject::Database) => seq![
            StepView::Create,
            StepView::Open,
            StepView::Copy,
            StepView::Sync,
            StepView::Remove(true),
        ],
        (Task::Missing, Subject::List) => seq![StepView::Open, StepView::Create, StepView::Copy],
    } + seq![StepView::End(Ok(true))]
}

/// A run that works takes these steps, and leaves none of them out.
pub proof fn lemma_no_step_of_a_run_is_left_out(
    save: Save,
    exists: bool,
    replies: Seq<ReplyView>,
)
    requires
        !(save.task is Missing && exists),
        forall|i: int| 0 <= i < replies.len() ==> (#[trigger] replies[i]) is Done,
        replies.len() < working_steps(save).len(),
    ensures
        step_after_all(save, exists, replies) == working_steps(save)[replies.len() as int],
    decreases replies.len(),
{
    if replies.len() > 0 {
        let rest = replies.drop_last();
        assert forall|i: int| 0 <= i < rest.len() implies (#[trigger] rest[i]) is Done by {
            assert(rest[i] == replies[i]);
        }
        lemma_no_step_of_a_run_is_left_out(save, exists, rest);
        assert(replies[replies.len() - 1] is Done);
    }
}

} // verus!
