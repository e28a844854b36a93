//! Which changes on disk make the gateway reload, and what it does when.
use crate::path::{self, directory, file_name};
use crate::problem::{self, Problem};
use crate::text::{self, same_text, to_chars};
use vstd::prelude::*;
use vstd::string::*;

verus! {

/// What happened to files.
#[derive(Debug, Clone, Copy, PartialEq, Eq, Structural)]
pub enum ChangeKind {
    Any,
    Create,
    Modify,
    Remove,
    Other,
}

/// The directory that is watched, and the name of the configuration file in it.
#[derive(Debug)]
pub struct WatchTarget {
    pub directory: String,
    pub file_name: String,
}

/// What is watched for a configuration file.
pub fn watch_target(config_path: &str) -> (target: Result<WatchTarget, Problem>)
    ensures
        match target {
            Ok(target) => {
                &&& path::file_name_of(config_path@) == Some(target.file_name@)
                &&& target.directory@ == path::directory_of(config_path@)
            },
            Err(problem) => path::file_name_of(config_path@) is None && problem@ == problem::plain(
                "configuration path has no file name"@,
            ),
        },
{
    match file_name(config_path) {
        Some(name) => Ok(
            WatchTarget {
                directory: directory(config_path).to_owned(),
                file_name: name.to_owned(),
            },
        ),
        None => Err(Problem::new("configuration path has no file name".to_owned())),
    }
}

/// Whether a file name is that of a TOML file.
pub open spec fn is_toml_name(name: Seq<char>) -> bool {
    name.len() >= 5 && name.skip(name.len() - 5) == ".toml"@
}

/// Whether a changed path matters: it is a TOML file, or has the name of the configuration
/// file.
pub open spec fn concerns(path: Seq<char>, config_name: Seq<char>) -> bool {
    match path::file_name_of(path) {
        Some(name) => name == config_name || is_toml_name(name),
        None => false,
    }
}

/// Whether a change makes the gateway reload: a file that matters was created, changed or
/// removed.
pub open spec fn calls_for_reload(
    kind: ChangeKind,
    paths: Seq<Seq<char>>,
    config_name: Seq<char>,
) -> bool {
    kind !is Other && exists|i: int| 0 <= i < paths.len() && concerns(#[trigger] paths[i], config_name)
}

fn ends_in_toml(name: &str) -> (yes: bool)
    ensures
        yes == is_toml_name(name@),
{
    let chars = to_chars(name);
    if chars.len() < 5 {
        return false;
    }
    let tail = name.substring_char(chars.len() - 5, chars.len());
    same_text(tail, ".toml")
}

/// Whether a change makes the gateway reload.
pub fn is_config_event(kind: ChangeKind, paths: &Vec<String>, config_name: &str) -> (yes: bool)
    ensures
        yes == calls_for_reload(kind, text::texts(paths@), config_name@),
{
    match kind {
        ChangeKind::Other => {
            return false;
        },
        _ => {},
    }
    let ghost all = text::texts(paths@);
    let mut i: usize = 0;
    while i < paths.len()
        invariant
            i <= paths.len(),
            all == text::texts(paths@),
            kind !is Other,
            forall|k: int| 0 <= k < i ==> !concerns(#[trigger] all[k], config_name@),
        decreases paths.len() - i,
    {
        assert(all[i as int] == paths@[i as int]@);
        match file_name(paths[i].as_str()) {
            Some(name) => {
                if same_text(name, config_name) || ends_in_toml(name) {
                    return true;
                }
            },
            None => {},
        }
        i += 1;
    }
    false
}

/// What the watcher is woken up by.
#[derive(Debug)]
pub enum WatchEvent {
    /// The configuration changed.
    Changed,
    /// The watcher failed.
    Failed(String),
    /// There will be no more changes.
    Closed,
    /// Newer databases are to be looked for.
    DatabasesDue,
    /// Newer lists are to be looked for.
    ListsDue,
}

/// What the watcher does.
#[derive(Debug)]
pub enum WatchAction {
    /// Waits out the burst of changes, and reloads.
    Reload,
    /// Warns.
    Warn(String),
    Stop,
    UpdateDatabases,
    UpdateLists,
}

/// Which of the waiting times start over.
#[derive(Debug, Clone, Copy, PartialEq, Eq, Structural)]
pub struct Timers {
    pub databases: bool,
    pub lists: bool,
}

/// What the watcher does, and which waiting times start over afterwards.
pub fn on_watch_event(event: WatchEvent) -> (outcome: (WatchAction, Timers))
    ensures
        match (event, outcome.0) {
            (WatchEvent::Changed, WatchAction::Reload) => outcome.1.databases && outcome.1.lists,
            (WatchEvent::Failed(error), WatchAction::Warn(words)) => words == error
                && !outcome.1.databases && !outcome.1.lists,
            (WatchEvent::Closed, WatchAction::Stop) => !outcome.1.databases && !outcome.1.lists,
            (WatchEvent::DatabasesDue, WatchAction::UpdateDatabases) => outcome.1.databases
                && !outcome.1.lists,
            (WatchEvent::ListsDue, WatchAction::UpdateLists) => !outcome.1.databases
                && outcome.1.lists,
            _ => false,
        },
{
    match event {
        WatchEvent::Changed => (WatchAction::Reload, Timers { databases: true, lists: true }),
        WatchEvent::Failed(error) => (
            WatchAction::Warn(error),
            Timers { databases: false, lists: false },
        ),
        WatchEvent::Closed => (WatchAction::Stop, Timers { databases: false, lists: false }),
        WatchEvent::DatabasesDue => (
            WatchAction::UpdateDatabases,
            Timers { databases: true, lists: false },
        ),
        WatchEvent::ListsDue => (WatchAction::UpdateLists, Timers { databases: false, lists: true }),
    }
}

/// Every TOML file counts, wherever below the watched directory it lies: the configuration
/// file, the files of the hosts and those of the languages.
pub proof fn lemma_toml_files_call_for_reload(
    kind: ChangeKind,
    path: Seq<char>,
    config_name: Seq<char>,
)
    requires
        kind !is Other,
        path::file_name_of(path) is Some,
        is_toml_name(path::file_name_of(path)->0),
    ensures
        calls_for_reload(kind, seq![path], config_name),
{
    assert(concerns(seq![path][0], config_name));
}

/// A change makes the gateway reload exactly when something was created, changed or removed,
/// or it is not known what happened, and one of the paths has the name of the configuration
/// file or a name that ends in `.toml`.
pub proof fn lemma_changes_that_matter(
    kind: ChangeKind,
    paths: Vec<String>,
    config_name: &str,
    yes: bool,
)
    requires
        call_ensures(is_config_event, (kind, &paths, config_name), yes),
    ensures
        yes <==> (kind is Any || kind is Create || kind is Modify || kind is Remove)
            && exists|i: int|
            0 <= i < paths@.len() && {
                let name = path::file_name_of((#[trigger] paths@[i])@);
                name is Some && (name->0 == config_name@ || exists|stem: Seq<char>|
                    name->0 == #[trigger] (stem + ".toml"@))
            },
{
    let all = text::texts(paths@);
    reveal_strlit(".toml");
    assert forall|name: Seq<char>|
        #[trigger] is_toml_name(name) <==> exists|stem: Seq<char>| name == #[trigger] (stem
            + ".toml"@) by {
        if is_toml_name(name) {
            let stem = name.take(name.len() - 5);
            assert(name =~= stem + ".toml"@);
        }
        if exists|stem: Seq<char>| name == #[trigger] (stem + ".toml"@) {
            let stem = choose|stem: Seq<char>| name == #[trigger] (stem + ".toml"@);
            assert(name.skip(name.len() - 5) =~= ".toml"@);
        }
    }
    assert forall|i: int| 0 <= i < paths@.len() implies (concerns(all[i], config_name@) <==> ({
        let name = path::file_name_of((#[trigger] paths@[i])@);
        name is Some && (name->0 == config_name@ || exists|stem: Seq<char>|
            name->0 == #[trigger] (stem + ".toml"@))
    })) by {
        assert(all[i] == paths@[i]@);
        if path::file_name_of(paths@[i]@) is Some {
            assert(is_toml_name(path::file_name_of(paths@[i]@)->0) <==> exists|stem: Seq<char>|
                path::file_name_of(paths@[i]@)->0 == #[trigger] (stem + ".toml"@));
        }
    }
    if yes {
        let i = choose|i: int|
            0 <= i < all.len() && concerns(#[trigger] all[i], config_name@);
        assert(paths@[i]@ == all[i]);
    }
}

} // verus!
