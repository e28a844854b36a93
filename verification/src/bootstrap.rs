//! The files that the gateway writes on its first run, and how it does so without touching
//! what is there.
use crate::download;
use crate::language::{self, builtin_template, Language, DEFAULT_LANGUAGE_DIRECTORY};
use crate::path::{self, directory, join, parent};
use crate::problem::{self, Problem, Report};
use crate::templates::{ALPHA_VHOST_TEMPLATE, BETA_VHOST_TEMPLATE, DEFAULT_CONFIG_TEMPLATE};
use crate::text::cat4;
use vstd::prelude::*;
use vstd::string::*;

verus! {

/// What a new file is for.
#[derive(Debug, Clone, Copy, PartialEq, Eq, Structural)]
pub enum FileKind {
    Configuration,
    Language,
    Vhost,
}

impl FileKind {
    pub open spec fn noun(self) -> Seq<char> {
        match self {
            FileKind::Configuration => "configuration"@,
            FileKind::Language => "language"@,
            FileKind::Vhost => "vhost configuration"@,
        }
    }

    fn name(self) -> (name: &'static str)
        ensures
            name@ == self.noun(),
    {
        match self {
            FileKind::Configuration => "configuration",
            FileKind::Language => "language",
            FileKind::Vhost => "vhost configuration",
        }
    }
}

/// A file that is to be written unless it is there.
#[derive(Debug)]
pub struct NewFile {
    pub kind: FileKind,
    pub path: String,
    pub contents: &'static str,
}

/// What is to be done next.
#[derive(Debug)]
pub enum NewStep {
    /// Make the directory of the file.
    MakeDirectory(String),
    /// Make the file, if there is none.
    Create,
    Write,
    Flush,
    Sync,
    /// The end: whether the file was written.
    End(Result<bool, Problem>),
}

/// What came of a step.
#[derive(Debug)]
pub enum NewReply {
    Done,
    /// There is such a file already.
    Exists,
    Failed(Problem),
}

/// The contents of a [`NewStep`].
pub enum NewStepView {
    MakeDirectory(Seq<char>),
    Create,
    Write,
    Flush,
    Sync,
    End(Result<bool, Report>),
}

impl View for NewStep {
    type V = NewStepView;

    open spec fn view(&self) -> NewStepView {
        match *self {
            NewStep::MakeDirectory(path) => NewStepView::MakeDirectory(path@),
            NewStep::Create => NewStepView::Create,
            NewStep::Write => NewStepView::Write,
            NewStep::Flush => NewStepView::Flush,
            NewStep::Sync => NewStepView::Sync,
            NewStep::End(outcome) => NewStepView::End(crate::download::result_view(outcome)),
        }
    }
}

impl NewFile {
    /// The words for a step that failed.
    pub open spec fn failure_words(self, step: NewStepView) -> Seq<char> {
        let noun = self.kind.noun();
        match step {
            NewStepView::MakeDirectory(directory) => "unable to create "@ + noun + " directory "@
                + directory,
            NewStepView::Create => "unable to create "@ + noun + " file "@ + self.path@,
            NewStepView::Write => "unable to write "@ + noun + " file "@ + self.path@,
            NewStepView::Flush => "unable to flush "@ + noun + " file "@ + self.path@,
            NewStepView::Sync => "unable to sync "@ + noun + " file "@ + self.path@,
            NewStepView::End(_) => Seq::empty(),
        }
    }

    /// What is to be done first.
    pub open spec fn first(self) -> NewStepView {
        match download::needed_directory(self.path@) {
            Some(directory) => NewStepView::MakeDirectory(directory),
            None => NewStepView::Create,
        }
    }

    /// What is to be done after a step, given what came of it.
    pub open spec fn after(self, step: NewStepView, reply: NewReply) -> NewStepView {
        match (step, reply) {
            (NewStepView::End(outcome), _) => NewStepView::End(outcome),
            (NewStepView::Create, NewReply::Exists) => NewStepView::End(Ok(false)),
            (step, NewReply::Failed(problem)) => NewStepView::End(
                Err(problem::inside(self.failure_words(step), problem@)),
            ),
            (NewStepView::MakeDirectory(_), _) => NewStepView::Create,
            (NewStepView::Create, _) => NewStepView::Write,
            (NewStepView::Write, _) => NewStepView::Flush,
            (NewStepView::Flush, _) => NewStepView::Sync,
            (NewStepView::Sync, _) => NewStepView::End(Ok(true)),
        }
    }

    fn explain(&self, step: &NewStep) -> (words: String)
        ensures
            words@ == self.failure_words(step@),
    {
        let noun = self.kind.name();
        match step {
            NewStep::MakeDirectory(directory) => cat4(
                "unable to create ",
                noun,
                " directory ",
                directory.as_str(),
            ),
            NewStep::Create => cat4("unable to create ", noun, " file ", self.path.as_str()),
            NewStep::Write => cat4("unable to write ", noun, " file ", self.path.as_str()),
            NewStep::Flush => cat4("unable to flush ", noun, " file ", self.path.as_str()),
            NewStep::Sync => cat4("unable to sync ", noun, " file ", self.path.as_str()),
            NewStep::End(_) => String::new(),
        }
    }

    /// What is to be done first.
    pub fn start(&self) -> (step: NewStep)
        ensures
            step@ == self.first(),
    {
        match parent(self.path.as_str()) {
            Some(directory) => {
                if directory.is_empty() {
                    NewStep::Create
                } else {
                    NewStep::MakeDirectory(directory.to_owned())
                }
            },
            None => NewStep::Create,
        }
    }

    /// What is to be done after a step, given what came of it.
    pub fn advance(&self, step: NewStep, reply: NewReply) -> (next: NewStep)
        ensures
            next@ == self.after(step@, reply),
    {
        let words = self.explain(&step);
        match (step, reply) {
            (NewStep::End(outcome), _) => NewStep::End(outcome),
            (NewStep::Create, NewReply::Exists) => NewStep::End(Ok(false)),
            (_, NewReply::Failed(problem)) => NewStep::End(Err(problem.within(words))),
            (NewStep::MakeDirectory(_), _) => NewStep::Create,
            (NewStep::Create, _) => NewStep::Write,
            (NewStep::Write, _) => NewStep::Flush,
            (NewStep::Flush, _) => NewStep::Sync,
            (NewStep::Sync, _) => NewStep::End(Ok(true)),
        }
    }
}

/// The step that the making of a file has come to after several replies.
pub open spec fn step_after_all(file: NewFile, replies: Seq<NewReply>) -> NewStepView
    decreases replies.len(),
{
    if replies.len() == 0 {
        file.first()
    } else {
        file.after(step_after_all(file, replies.drop_last()), replies.last())
    }
}

/// Whether a step writes to the file, or has written it.
pub open spec fn writes(step: NewStepView) -> bool {
    match step {
        NewStepView::Write | NewStepView::Flush | NewStepView::Sync => true,
        NewStepView::End(Ok(true)) => true,
        _ => false,
    }
}

/// A file that is there is not written to, whatever comes of the steps: writing follows on
/// the making of a new file, which fails where there is one.
pub proof fn lemma_existing_file_is_not_written(file: NewFile, replies: Seq<NewReply>)
    requires
        writes(step_after_all(file, replies)),
    ensures
        exists|i: int|
            #![trigger replies[i]]
            0 <= i < replies.len() && step_after_all(file, replies.take(i)) is Create
                && replies[i] is Done,
    decreases replies.len(),
{
    if replies.len() > 0 {
        let rest = replies.drop_last();
        if writes(step_after_all(file, rest)) {
            lemma_existing_file_is_not_written(file, rest);
            let i = choose|i: int|
                #![trigger rest[i]]
                0 <= i < rest.len() && step_after_all(file, rest.take(i)) is Create
                    && rest[i] is Done;
            assert(rest.take(i) == replies.take(i));
        }
    }
}

/// The contents of files, by path.
pub type Disk = Map<Seq<char>, Seq<char>>;

/// Whether a step with a reply can have turned the files `before` into the files `after`.
/// Only a file that is not there can be made, and it is empty then; a write that fails can
/// have written a part.
pub open spec fn acts(
    file: NewFile,
    step: NewStepView,
    reply: NewReply,
    before: Disk,
    after: Disk,
) -> bool {
    let path = file.path@;
    match (step, reply) {
        (NewStepView::Create, NewReply::Done) => !before.dom().contains(path) && after
            == before.insert(path, Seq::empty()),
        (NewStepView::Create, NewReply::Exists) => before.dom().contains(path) && after == before,
        (NewStepView::Write, NewReply::Done) => after == before.insert(path, file.contents@),
        (NewStepView::Write, NewReply::Failed(_)) => after == before.insert(path, after[path]),
        (_, NewReply::Exists) => false,
        _ => after == before,
    }
}

/// Whether the replies are those of a disk whose files went through the states `disks`.
pub open spec fn is_run(file: NewFile, replies: Seq<NewReply>, disks: Seq<Disk>) -> bool {
    &&& disks.len() == replies.len() + 1
    &&& forall|i: int|
        0 <= i < replies.len() ==> acts(
            file,
            step_after_all(file, replies.take(i)),
            #[trigger] replies[i],
            disks[i],
            disks[i + 1],
        )
}

/// Whether the making of a file, with its outcome, can have turned the files `before` into
/// the files `after`.
pub open spec fn makes(
    file: NewFile,
    before: Disk,
    after: Disk,
    outcome: Result<bool, Report>,
) -> bool {
    exists|replies: Seq<NewReply>, disks: Seq<Disk>| #[trigger]
        is_run(file, replies, disks) && step_after_all(file, replies) == NewStepView::End(outcome)
            && disks[0] == before && disks.last() == after
}

/// The files with one more, unless there was one at its path.
pub open spec fn with_file(disk: Disk, path: Seq<char>, contents: Seq<char>) -> Disk {
    if disk.dom().contains(path) {
        disk
    } else {
        disk.insert(path, contents)
    }
}

/// What the files are like at a step, given what they were like at the start.
spec fn fits_step(file: NewFile, start: Disk, step: NewStepView, disk: Disk) -> bool {
    let path = file.path@;
    match step {
        NewStepView::MakeDirectory(_) | NewStepView::Create => disk == start,
        NewStepView::Write => !start.dom().contains(path) && disk == start.insert(
            path,
            Seq::empty(),
        ),
        NewStepView::Flush | NewStepView::Sync | NewStepView::End(Ok(true)) => {
            &&& !start.dom().contains(path)
            &&& disk == start.insert(path, file.contents@)
        },
        NewStepView::End(Ok(false)) => start.dom().contains(path) && disk == start,
        NewStepView::End(Err(_)) => disk == start || (!start.dom().contains(path) && disk
            == start.insert(path, disk[path])),
    }
}

proof fn lemma_run_fits(file: NewFile, replies: Seq<NewReply>, disks: Seq<Disk>)
    requires
        is_run(file, replies, disks),
    ensures
        fits_step(file, disks[0], step_after_all(file, replies), disks.last()),
    decreases replies.len(),
{
    if replies.len() > 0 {
        let rest = replies.drop_last();
        let last = replies.len() - 1;
        assert forall|i: int| 0 <= i < rest.len() implies acts(
            file,
            step_after_all(file, rest.take(i)),
            #[trigger] rest[i],
            disks.drop_last()[i],
            disks.drop_last()[i + 1],
        ) by {
            assert(rest.take(i) == replies.take(i));
            assert(replies[i] == rest[i]);
        }
        lemma_run_fits(file, rest, disks.drop_last());
        assert(replies.take(last) == rest);
        assert(acts(
            file,
            step_after_all(file, rest),
            replies[last],
            disks[last],
            disks[last + 1],
        ));
        let path = file.path@;
        let made = disks[0].insert(path, Seq::empty());
        let partial = disks[last + 1][path];
        assert(made.insert(path, file.contents@) =~= disks[0].insert(path, file.contents@));
        assert(made.insert(path, partial) =~= disks[0].insert(path, partial));
    }
}

/// Making a file that works leaves its template where there was no file, and everything as
/// it was where there was one. Making a file that fails changes nothing but a file that was
/// not there before.
pub proof fn lemma_making_a_file_fills_a_gap(
    file: NewFile,
    before: Disk,
    after: Disk,
    outcome: Result<bool, Report>,
)
    requires
        makes(file, before, after, outcome),
    ensures
        outcome matches Ok(written) ==> after == with_file(before, file.path@, file.contents@)
            && written == !before.dom().contains(file.path@),
        outcome is Err ==> after == before || (!before.dom().contains(file.path@) && after
            == before.insert(file.path@, after[file.path@])),
{
    let (replies, disks) = choose|replies: Seq<NewReply>, disks: Seq<Disk>| #[trigger]
        is_run(file, replies, disks) && step_after_all(file, replies) == NewStepView::End(outcome)
            && disks[0] == before && disks.last() == after;
    lemma_run_fits(file, replies, disks);
}

/// Whether the making of several files, one after the other, with these outcomes, can have
/// taken the disk through the states `disks`. A failure ends it.
pub open spec fn makes_all(
    files: Seq<NewFile>,
    outcomes: Seq<Result<bool, Report>>,
    disks: Seq<Disk>,
) -> bool {
    &&& outcomes.len() <= files.len()
    &&& disks.len() == outcomes.len() + 1
    &&& forall|i: int|
        0 <= i < outcomes.len() ==> makes(
            files[i],
            disks[i],
            disks[i + 1],
            #[trigger] outcomes[i],
        )
    &&& forall|i: int| 0 <= i < outcomes.len() - 1 ==> (#[trigger] outcomes[i]) is Ok
}

/// Whether all files were made, or found to be there.
pub open spec fn all_made(files: Seq<NewFile>, outcomes: Seq<Result<bool, Report>>) -> bool {
    &&& outcomes.len() == files.len()
    &&& forall|i: int| 0 <= i < outcomes.len() ==> (#[trigger] outcomes[i]) is Ok
}

/// The files of a disk after those of `files` that were missing got their templates.
pub open spec fn filled_up(disk: Disk, files: Seq<NewFile>) -> Disk
    decreases files.len(),
{
    if files.len() == 0 {
        disk
    } else {
        with_file(
            filled_up(disk, files.drop_last()),
            files.last().path@,
            files.last().contents@,
        )
    }
}

proof fn lemma_states_are_filled_up(
    files: Seq<NewFile>,
    outcomes: Seq<Result<bool, Report>>,
    disks: Seq<Disk>,
    n: int,
)
    requires
        makes_all(files, outcomes, disks),
        0 <= n <= outcomes.len(),
        forall|i: int| 0 <= i < n ==> (#[trigger] outcomes[i]) is Ok,
    ensures
        disks[n] == filled_up(disks[0], files.take(n)),
    decreases n,
{
    if n > 0 {
        lemma_states_are_filled_up(files, outcomes, disks, n - 1);
        lemma_making_a_file_fills_a_gap(
            files[n - 1],
            disks[n - 1],
            disks[n],
            outcomes[n - 1],
        );
        assert(files.take(n).drop_last() == files.take(n - 1));
        assert(files.take(n).last() == files[n - 1]);
    }
}

/// Files that were all made are there afterwards: those that were there before as they were,
/// the missing ones with their templates, and nothing else has changed.
pub proof fn lemma_missing_files_get_their_templates(
    files: Seq<NewFile>,
    outcomes: Seq<Result<bool, Report>>,
    disks: Seq<Disk>,
)
    requires
        makes_all(files, outcomes, disks),
        all_made(files, outcomes),
    ensures
        disks.last() == filled_up(disks[0], files),
{
    lemma_states_are_filled_up(files, outcomes, disks, files.len() as int);
    assert(files.take(files.len() as int) == files);
}

/// What filling up does at each path: a file that was there stays, a missing one gets the
/// template of the first of `files` with that path, and other paths are left alone.
pub proof fn lemma_filled_up(disk: Disk, files: Seq<NewFile>, path: Seq<char>)
    ensures
        disk.dom().contains(path) ==> filled_up(disk, files).dom().contains(path) && filled_up(
            disk,
            files,
        )[path] == disk[path],
        forall|i: int|
            !disk.dom().contains(path) && 0 <= i < files.len() && (#[trigger] files[i]).path@
                == path && (forall|j: int| 0 <= j < i ==> (#[trigger] files[j]).path@ != path)
                ==> filled_up(disk, files).dom().contains(path) && filled_up(disk, files)[path]
                == files[i].contents@,
        !disk.dom().contains(path) && (forall|i: int|
            0 <= i < files.len() ==> (#[trigger] files[i]).path@ != path) ==> !filled_up(
            disk,
            files,
        ).dom().contains(path),
    decreases files.len(),
{
    if files.len() > 0 {
        let rest = files.drop_last();
        lemma_filled_up(disk, rest, path);
        assert forall|i: int| 0 <= i < rest.len() implies rest[i] == #[trigger] files[i] by {}
        if forall|i: int| 0 <= i < rest.len() ==> (#[trigger] files[i]).path@ != path {
            assert forall|i: int| 0 <= i < rest.len() implies (#[trigger] rest[i]).path@
                != path by {
                assert(files[i].path@ != path);
            }
        }
        assert forall|i: int|
            !disk.dom().contains(path) && 0 <= i < files.len() && (#[trigger] files[i]).path@
                == path && (forall|j: int| 0 <= j < i ==> (#[trigger] files[j]).path@ != path)
                implies filled_up(disk, files).dom().contains(path) && filled_up(disk, files)[path]
            == files[i].contents@ by {
            if i < rest.len() {
                assert(rest[i].path@ == path);
                assert forall|j: int| 0 <= j < i implies (#[trigger] rest[j]).path@ != path by {
                    assert(files[j].path@ != path);
                }
            }
        }
    }
}

/// No file that was there before is changed, whatever came of the making of the files.
pub proof fn lemma_nothing_is_overwritten(
    files: Seq<NewFile>,
    outcomes: Seq<Result<bool, Report>>,
    disks: Seq<Disk>,
    path: Seq<char>,
)
    requires
        makes_all(files, outcomes, disks),
        disks[0].dom().contains(path),
    ensures
        disks.last().dom().contains(path),
        disks.last()[path] == disks[0][path],
{
    let n = outcomes.len() as int;
    if n > 0 {
        lemma_states_are_filled_up(files, outcomes, disks, n - 1);
        lemma_filled_up(disks[0], files.take(n - 1), path);
        lemma_making_a_file_fills_a_gap(
            files[n - 1],
            disks[n - 1],
            disks[n],
            outcomes[n - 1],
        );
    }
}

/// Once all files were made, making them again changes nothing, whatever comes of it.
pub proof fn lemma_second_run_changes_nothing(
    files: Seq<NewFile>,
    outcomes: Seq<Result<bool, Report>>,
    disks: Seq<Disk>,
    again: Seq<Result<bool, Report>>,
    later: Seq<Disk>,
)
    requires
        makes_all(files, outcomes, disks),
        all_made(files, outcomes),
        makes_all(files, again, later),
        later[0] == disks.last(),
    ensures
        later.last() == disks.last(),
{
    lemma_missing_files_get_their_templates(files, outcomes, disks);
    assert forall|i: int| 0 <= i < files.len() implies later[0].dom().contains(
        (#[trigger] files[i]).path@,
    ) by {
        lemma_all_are_there(disks[0], files, i);
    }
    lemma_present_files_change_nothing(files, again, later, again.len() as int);
}

proof fn lemma_all_are_there(disk: Disk, files: Seq<NewFile>, i: int)
    requires
        0 <= i < files.len(),
    ensures
        filled_up(disk, files).dom().contains(files[i].path@),
    decreases files.len(),
{
    if i < files.len() - 1 {
        lemma_all_are_there(disk, files.drop_last(), i);
    }
}

proof fn lemma_present_files_change_nothing(
    files: Seq<NewFile>,
    outcomes: Seq<Result<bool, Report>>,
    disks: Seq<Disk>,
    n: int,
)
    requires
        makes_all(files, outcomes, disks),
        0 <= n <= outcomes.len(),
        forall|i: int|
            0 <= i < files.len() ==> disks[0].dom().contains((#[trigger] files[i]).path@),
    ensures
        disks[n] == disks[0],
    decreases n,
{
    if n > 0 {
        lemma_present_files_change_nothing(files, outcomes, disks, n - 1);
        lemma_making_a_file_fills_a_gap(
            files[n - 1],
            disks[n - 1],
            disks[n],
            outcomes[n - 1],
        );
        assert(disks[0].dom().contains(files[n - 1].path@));
    }
}

/// What a file is for, its path and its contents.
pub type FileText = (FileKind, Seq<char>, Seq<char>);

pub open spec fn file_texts(files: Seq<NewFile>) -> Seq<FileText> {
    files.map_values(|file: NewFile| (file.kind, file.path@, file.contents@))
}

/// The path of the directory with the language files of a first run.
pub open spec fn language_directory(config_path: Seq<char>) -> Seq<char> {
    path::joined(path::directory_of(config_path), DEFAULT_LANGUAGE_DIRECTORY@)
}

/// The path of the directory with the host files of a first run.
pub open spec fn vhost_directory(config_path: Seq<char>) -> Seq<char> {
    path::joined(path::directory_of(config_path), "vhosts"@)
}

/// The path of the directory with the language files of a first run.
pub fn first_run_language_directory(config_path: &str) -> (path: String)
    ensures
        path@ == language_directory(config_path@),
{
    join(directory(config_path), DEFAULT_LANGUAGE_DIRECTORY)
}

/// The host files of a first run.
pub open spec fn vhost_texts(config_path: Seq<char>) -> Seq<FileText> {
    seq![
        (
            FileKind::Vhost,
            path::joined(vhost_directory(config_path), "alpha.toml"@),
            ALPHA_VHOST_TEMPLATE@,
        ),
        (
            FileKind::Vhost,
            path::joined(vhost_directory(config_path), "beta.toml"@),
            BETA_VHOST_TEMPLATE@,
        ),
    ]
}

/// What is at a path once a template was put there unless there was a file.
pub open spec fn kept_or(disk: Disk, path: Seq<char>, template: Seq<char>) -> Seq<char> {
    if disk.dom().contains(path) {
        disk[path]
    } else {
        template
    }
}

/// The host files of a first run are there once they were all made: those that were there
/// before as they were, the missing ones with their templates. No other file has changed.
pub proof fn lemma_vhost_files_are_filled_up(
    config_path: Seq<char>,
    files: Seq<NewFile>,
    outcomes: Seq<Result<bool, Report>>,
    disks: Seq<Disk>,
)
    requires
        file_texts(files) == vhost_texts(config_path),
        makes_all(files, outcomes, disks),
        all_made(files, outcomes),
    ensures
        ({
            let alpha = path::joined(vhost_directory(config_path), "alpha.toml"@);
            let beta = path::joined(vhost_directory(config_path), "beta.toml"@);
            let before = disks[0];
            disks.last() == before.insert(alpha, kept_or(before, alpha, ALPHA_VHOST_TEMPLATE@)).insert(
                beta,
                kept_or(before, beta, BETA_VHOST_TEMPLATE@),
            )
        }),
{
    let directory = vhost_directory(config_path);
    let alpha = path::joined(directory, "alpha.toml"@);
    let beta = path::joined(directory, "beta.toml"@);
    let before = disks[0];
    lemma_missing_files_get_their_templates(files, outcomes, disks);
    assert(file_texts(files).len() == 2);
    assert(file_texts(files)[0] == (files[0].kind, files[0].path@, files[0].contents@));
    assert(file_texts(files)[1] == (files[1].kind, files[1].path@, files[1].contents@));
    reveal_with_fuel(filled_up, 3);
    assert(files.drop_last().last() == files[0]);
    reveal_strlit("alpha.toml");
    reveal_strlit("beta.toml");
    assert(alpha.len() != beta.len());
    assert(disks.last() =~= before.insert(
        alpha,
        kept_or(before, alpha, ALPHA_VHOST_TEMPLATE@),
    ).insert(beta, kept_or(before, beta, BETA_VHOST_TEMPLATE@)));
}

/// The host files of a first run.
pub fn vhost_files(config_path: &str) -> (files: Vec<NewFile>)
    ensures
        file_texts(files@) == vhost_texts(config_path@),
{
    let base = join(directory(config_path), "vhosts");
    let mut files: Vec<NewFile> = Vec::new();
    files.push(
        NewFile {
            kind: FileKind::Vhost,
            path: join(base.as_str(), "alpha.toml"),
            contents: ALPHA_VHOST_TEMPLATE,
        },
    );
    files.push(
        NewFile {
            kind: FileKind::Vhost,
            path: join(base.as_str(), "beta.toml"),
            contents: BETA_VHOST_TEMPLATE,
        },
    );
    files
}

/// The configuration file of a first run.
pub fn config_file(config_path: &str) -> (file: NewFile)
    ensures
        file.kind == FileKind::Configuration,
        file.path@ == config_path@,
        file.contents@ == DEFAULT_CONFIG_TEMPLATE@,
{
    NewFile {
        kind: FileKind::Configuration,
        path: config_path.to_owned(),
        contents: DEFAULT_CONFIG_TEMPLATE,
    }
}

/// The language file for a locale at a path.
pub fn language_file(path: &str, locale: &str) -> (file: NewFile)
    ensures
        file.kind == FileKind::Language,
        file.path@ == path@,
        file.contents@ == language::template_for(locale@),
{
    NewFile {
        kind: FileKind::Language,
        path: path.to_owned(),
        contents: builtin_template(locale),
    }
}

/// The language files of a first run.
pub fn language_files(config_path: &str) -> (files: Vec<NewFile>)
    ensures
        file_texts(files@) == seq![
            (
                FileKind::Language,
                path::joined(language_directory(config_path@), "zh-CN.toml"@),
                language::template_for("zh-CN"@),
            ),
            (
                FileKind::Language,
                path::joined(language_directory(config_path@), "en-US.toml"@),
                language::template_for("en-US"@),
            ),
        ],
{
    let base = first_run_language_directory(config_path);
    let mut files: Vec<NewFile> = Vec::new();
    files.push(language_file(join(base.as_str(), "zh-CN.toml").as_str(), "zh-CN"));
    files.push(language_file(join(base.as_str(), "en-US.toml").as_str(), "en-US"));
    files
}

/// What the gateway says after its first run.
pub fn first_run_message(language: &Language, config_path: &str) -> (text: String)
    ensures
        text@ == language.rendered(
            "log.first_run"@,
            seq![
                ("config"@, config_path@),
                ("directory"@, language_directory(config_path@)),
            ],
        ),
{
    let base = first_run_language_directory(config_path);
    let values = [("config", config_path), ("directory", base.as_str())];
    let text = language.render("log.first_run", &values);
    assert(language::value_texts(values@) =~= seq![
        ("config"@, config_path@),
        ("directory"@, language_directory(config_path@)),
    ]);
    text
}

/// The files of a first run: the configuration file at its own path, the files of the two
/// hosts in `vhosts` and the language files in `lang`, both next to it, each with its template.
pub proof fn lemma_files_of_a_first_run(
    config_path: &str,
    config: NewFile,
    hosts: Vec<NewFile>,
    languages: Vec<NewFile>,
)
    requires
        call_ensures(config_file, (config_path,), config),
        call_ensures(vhost_files, (config_path,), hosts),
        call_ensures(language_files, (config_path,), languages),
    ensures
        config.path@ == config_path@,
        config.contents@ == DEFAULT_CONFIG_TEMPLATE@,
        hosts@.len() == 2,
        languages@.len() == 2,
        ({
            let base = path::directory_of(config_path@);
            let around = if base.last() == '/' {
                base
            } else {
                base + "/"@
            };
            &&& base.len() > 0
            &&& hosts@[0].path@ == around + "vhosts"@ + "/"@ + "alpha.toml"@
            &&& hosts@[1].path@ == around + "vhosts"@ + "/"@ + "beta.toml"@
            &&& languages@[0].path@ == around + "./lang"@ + "/"@ + "zh-CN.toml"@
            &&& languages@[1].path@ == around + "./lang"@ + "/"@ + "en-US.toml"@
        }),
        hosts@[0].contents@ == ALPHA_VHOST_TEMPLATE@,
        hosts@[1].contents@ == BETA_VHOST_TEMPLATE@,
        languages@[0].contents@ == crate::templates::BUILTIN_ZH_CN@,
        languages@[1].contents@ == crate::templates::BUILTIN_EN_US@,
{
    let host_texts = file_texts(hosts@);
    let language_texts = file_texts(languages@);
    assert(host_texts.len() == 2 && language_texts.len() == 2);
    assert(host_texts[0] == (hosts@[0].kind, hosts@[0].path@, hosts@[0].contents@));
    assert(host_texts[1] == (hosts@[1].kind, hosts@[1].path@, hosts@[1].contents@));
    assert(language_texts[0] == (
        languages@[0].kind,
        languages@[0].path@,
        languages@[0].contents@,
    ));
    assert(language_texts[1] == (
        languages@[1].kind,
        languages@[1].path@,
        languages@[1].contents@,
    ));
    reveal_strlit("vhosts");
    reveal_strlit("./lang");
    reveal_strlit("alpha.toml");
    reveal_strlit("beta.toml");
    reveal_strlit("zh-CN.toml");
    reveal_strlit("en-US.toml");
    reveal_strlit("zh-CN");
    reveal_strlit("en-US");
    reveal_strlit("/");
    reveal_strlit(".");
    assert("zh-CN"@[0] != "en-US"@[0]);
    let base = path::directory_of(config_path@);
    let vhosts = path::joined(base, "vhosts"@);
    let lang = path::joined(base, "./lang"@);
    assert(vhosts.last() == 's');
    assert(lang.last() == 'g');
}

/// The steps of making a file, one after the other, where every one works: its directory, if
/// it lies in one, the new file, its contents, and both ways to make sure of them.
pub open spec fn working_steps(file: NewFile) -> Seq<NewStepView> {
    (match path::parent_of(file.path@) {
        Some(directory) if directory.len() > 0 => seq![NewStepView::MakeDirectory(directory)],
        _ => Seq::empty(),
    }) + seq![
        NewStepView::Create,
        NewStepView::Write,
        NewStepView::Flush,
        NewStepView::Sync,
        NewStepView::End(Ok(true)),
    ]
}

/// A file whose making works is made step by step, and none of the steps is left out.
pub proof fn lemma_no_step_of_making_is_left_out(file: NewFile, replies: Seq<NewReply>)
    requires
        forall|i: int| 0 <= i < replies.len() ==> (#[trigger] replies[i]) is Done,
        replies.len() < working_steps(file).len(),
    ensures
        step_after_all(file, replies) == working_steps(file)[replies.len() as int],
    decreases replies.len(),
{
    if replies.len() > 0 {
        let rest = replies.drop_last();
        assert forall|i: int| 0 <= i < rest.len() implies (#[trigger] rest[i]) is Done by {
            assert(rest[i] == replies[i]);
        }
        lemma_no_step_of_making_is_left_out(file, rest);
        assert(replies[replies.len() - 1] is Done);
    }
}

/// A step that fails ends the making of a file with its problem as the cause.
pub proof fn lemma_failed_step_ends_the_making(
    file: NewFile,
    step: NewStep,
    problem: Problem,
    next: NewStep,
)
    requires
        step !is End,
        call_ensures(NewFile::advance, (&file, step, NewReply::Failed(problem)), next),
    ensures
        next matches NewStep::End(Err(told)) && told@.cause is Some && told@
            == crate::problem::inside(told@.message, problem@),
{
}

} // verus!
