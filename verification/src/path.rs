//! File paths, as text: names separated by slashes, and a slash in front where the path
//! starts at the root, as on Unix.
use crate::text::{cat2, cat3, same_text, to_chars};
use vstd::prelude::*;
use vstd::string::*;

verus! {

pub open spec fn is_absolute(path: Seq<char>) -> bool {
    path.len() > 0 && path[0] == '/'
}

/// A path without the separators and the `.` components that it ends with.
pub open spec fn without_tail(path: Seq<char>) -> Seq<char>
    decreases path.len(),
{
    if path.len() > 1 && (path.last() == '/' || (path.last() == '.' && path[path.len() - 2] == '/')) {
        without_tail(path.drop_last())
    } else {
        path
    }
}

/// How many characters stand up to and with the last separator.
pub open spec fn directory_length(path: Seq<char>) -> nat
    decreases path.len(),
{
    if path.len() == 0 || path.last() == '/' {
        path.len()
    } else {
        directory_length(path.drop_last())
    }
}

/// Whether a path names nothing below the root or the current directory.
pub open spec fn is_bare(path: Seq<char>) -> bool {
    without_tail(path).len() == 0 || without_tail(path) == seq!['/']
}

/// The directory that a path lies in: empty for a single name, none for the root and for
/// the empty path.
pub open spec fn parent_of(path: Seq<char>) -> Option<Seq<char>> {
    let body = without_tail(path);
    if is_bare(path) {
        None
    } else {
        Some(without_tail(body.take(directory_length(body) as int)))
    }
}

/// The last name of a path, if it ends with one.
pub open spec fn file_name_of(path: Seq<char>) -> Option<Seq<char>> {
    let body = without_tail(path);
    let name = body.skip(directory_length(body) as int);
    if is_bare(path) || name == "."@ || name == ".."@ {
        None
    } else {
        Some(name)
    }
}

/// A path that starts where `base` ends; an absolute `path` stands alone.
pub open spec fn joined(base: Seq<char>, path: Seq<char>) -> Seq<char> {
    if is_absolute(path) || base.len() == 0 {
        path
    } else if base.last() == '/' {
        base + path
    } else {
        base + "/"@ + path
    }
}

/// A path with its last name replaced, or extended by a name if it ends with none.
pub open spec fn renamed(path: Seq<char>, name: Seq<char>) -> Seq<char> {
    if file_name_of(path) is Some {
        joined(parent_of(path)->0, name)
    } else {
        joined(path, name)
    }
}

/// The directory of a file; the current directory where the path is a single name.
pub open spec fn directory_of(path: Seq<char>) -> Seq<char> {
    match parent_of(path) {
        Some(parent) => if parent.len() == 0 {
            "."@
        } else {
            parent
        },
        None => "."@,
    }
}

/// A path as seen from the directory of a configuration file.
pub open spec fn resolved(config_path: Seq<char>, path: Seq<char>) -> Seq<char> {
    if is_absolute(path) {
        path
    } else {
        joined(directory_of(config_path), path)
    }
}

/// Like [`resolved`], where an empty path stands for none and stays empty.
pub open spec fn resolved_if_set(config_path: Seq<char>, path: Seq<char>) -> Seq<char> {
    if path.len() == 0 {
        path
    } else {
        resolved(config_path, path)
    }
}

proof fn lemma_without_tail_prefix(path: Seq<char>)
    ensures
        without_tail(path).len() <= path.len(),
        path.len() > 0 ==> without_tail(path).len() > 0,
        without_tail(path) == path.take(without_tail(path).len() as int),
    decreases path.len(),
{
    if path.len() > 1 && (path.last() == '/' || (path.last() == '.' && path[path.len() - 2]
        == '/')) {
        lemma_without_tail_prefix(path.drop_last());
    }
}

fn trim_tail(chars: &Vec<char>, length: usize) -> (end: usize)
    requires
        length <= chars.len(),
    ensures
        end <= length,
        chars@.take(end as int) == without_tail(chars@.take(length as int)),
{
    let mut end: usize = length;
    while end > 1 && (chars[end - 1] == '/' || (chars[end - 1] == '.' && chars[end - 2] == '/'))
        invariant
            end <= length <= chars.len(),
            without_tail(chars@.take(end as int)) == without_tail(chars@.take(length as int)),
        decreases end,
    {
        assert(chars@.take(end as int).drop_last() =~= chars@.take(end - 1));
        end -= 1;
    }
    end
}

fn find_directory_length(chars: &Vec<char>, length: usize) -> (end: usize)
    requires
        length <= chars.len(),
    ensures
        end <= length,
        end == directory_length(chars@.take(length as int)),
{
    let mut end: usize = length;
    while end > 0 && chars[end - 1] != '/'
        invariant
            end <= length <= chars.len(),
            directory_length(chars@.take(end as int)) == directory_length(
                chars@.take(length as int),
            ),
        decreases end,
    {
        assert(chars@.take(end as int).drop_last() =~= chars@.take(end - 1));
        end -= 1;
    }
    end
}

pub fn absolute(path: &str) -> (yes: bool)
    ensures
        yes == is_absolute(path@),
{
    let chars = to_chars(path);
    chars.len() > 0 && chars[0] == '/'
}

/// The directory that a path lies in.
pub fn parent(path: &str) -> (directory: Option<&str>)
    ensures
        crate::text::str_text(directory) == parent_of(path@),
{
    let chars = to_chars(path);
    assert(path@.take(path@.len() as int) =~= path@);
    let body = trim_tail(&chars, chars.len());
    let ghost spec_body = without_tail(path@);
    if body == 0 {
        return None;
    }
    if body == 1 && chars[0] == '/' {
        assert(spec_body =~= seq!['/']);
        return None;
    }
    let directory = find_directory_length(&chars, body);
    assert(spec_body.take(directory as int) =~= path@.take(directory as int));
    let end = trim_tail(&chars, directory);
    Some(path.substring_char(0, end))
}

/// The last name of a path, if it ends with one.
pub fn file_name(path: &str) -> (name: Option<&str>)
    ensures
        crate::text::str_text(name) == file_name_of(path@),
{
    let chars = to_chars(path);
    assert(path@.take(path@.len() as int) =~= path@);
    let body = trim_tail(&chars, chars.len());
    let ghost spec_body = without_tail(path@);
    if body == 0 {
        return None;
    }
    if body == 1 && chars[0] == '/' {
        assert(spec_body =~= seq!['/']);
        return None;
    }
    let directory = find_directory_length(&chars, body);
    let name = path.substring_char(directory, body);
    assert(name@ =~= spec_body.skip(directory as int));
    if same_text(name, ".") || same_text(name, "..") {
        return None;
    }
    Some(name)
}

/// A path that starts where `base` ends; an absolute `path` stands alone.
pub fn join(base: &str, path: &str) -> (whole: String)
    ensures
        whole@ == joined(base@, path@),
{
    let chars = to_chars(base);
    if absolute(path) || chars.len() == 0 {
        path.to_owned()
    } else if chars[chars.len() - 1] == '/' {
        cat2(base, path)
    } else {
        cat3(base, "/", path)
    }
}

/// A path with its last name replaced, or extended by a name if it ends with none.
pub fn with_file_name(path: &str, name: &str) -> (whole: String)
    ensures
        whole@ == renamed(path@, name@),
{
    match (file_name(path), parent(path)) {
        (Some(_), Some(directory)) => join(directory, name),
        _ => join(path, name),
    }
}

/// The directory of a file; the current directory where the path is a single name.
pub fn directory(path: &str) -> (directory: &str)
    ensures
        directory@ == directory_of(path@),
{
    match parent(path) {
        Some(parent) => {
            if parent.is_empty() {
                "."
            } else {
                parent
            }
        },
        None => ".",
    }
}

/// A path as seen from the directory of a configuration file.
pub fn resolve_relative_path(config_path: &str, path: &str) -> (whole: String)
    ensures
        whole@ == resolved(config_path@, path@),
{
    if absolute(path) {
        return path.to_owned();
    }
    join(directory(config_path), path)
}

/// Like [`resolve_relative_path`], where an empty path stands for none and stays empty.
pub fn resolve_if_set(config_path: &str, path: &str) -> (whole: String)
    ensures
        whole@ == resolved_if_set(config_path@, path@),
{
    if path.is_empty() {
        path.to_owned()
    } else {
        resolve_relative_path(config_path, path)
    }
}

/// A path that is set: there is one, and it is not empty.
pub open spec fn is_set(path: Option<Seq<char>>) -> bool {
    path is Some && path->0.len() > 0
}

/// The path, if it is set.
pub fn configured_path(path: &Option<String>) -> (set: Option<&str>)
    ensures
        match set {
            Some(p) => is_set(crate::text::text_of(*path)) && crate::text::text_of(*path) == Some(
                p@,
            ),
            None => !is_set(crate::text::text_of(*path)),
        },
{
    match path {
        Some(path) => {
            if path.as_str().is_empty() {
                None
            } else {
                Some(path.as_str())
            }
        },
        None => None,
    }
}

/// A path that is absolute stays as it is, wherever the configuration file lies.
pub proof fn lemma_absolute_path_stays(config_path: Seq<char>, path: Seq<char>)
    requires
        is_absolute(path),
    ensures
        resolved(config_path, path) == path,
        resolved_if_set(config_path, path) == path,
{
}

/// Seen from an absolute configuration file every path that is set becomes absolute, so
/// that resolving it again changes nothing.
pub proof fn lemma_resolving_twice_changes_nothing(config_path: Seq<char>, path: Seq<char>)
    requires
        is_absolute(config_path),
        !is_bare(config_path),
    ensures
        path.len() > 0 ==> is_absolute(resolved_if_set(config_path, path)),
        resolved_if_set(config_path, resolved_if_set(config_path, path)) == resolved_if_set(
            config_path,
            path,
        ),
{
    lemma_directory_absolute(config_path);
}

proof fn lemma_directory_absolute(path: Seq<char>)
    requires
        is_absolute(path),
        !is_bare(path),
    ensures
        is_absolute(directory_of(path)),
{
    let body = without_tail(path);
    lemma_without_tail_prefix(path);
    lemma_directory_length_positive(body);
    let head = body.take(directory_length(body) as int);
    lemma_without_tail_prefix(head);
}

proof fn lemma_directory_length_positive(path: Seq<char>)
    requires
        is_absolute(path),
    ensures
        1 <= directory_length(path) <= path.len(),
    decreases path.len(),
{
    if path.last() != '/' {
        lemma_directory_length_positive(path.drop_last());
    }
}

/// A path that is not absolute is looked for in the directory of the configuration file: next
/// to it, where the configuration file is a plain name. An absolute path stays as it is.
pub proof fn lemma_paths_are_seen_from_the_configuration_file(
    config_path: &str,
    directory_text: Seq<char>,
    name: Seq<char>,
    path: &str,
    whole: String,
)
    requires
        call_ensures(resolve_relative_path, (config_path, path), whole),
        name.len() > 0,
        name != "."@,
        forall|i: int| 0 <= i < name.len() ==> (#[trigger] name[i]) != '/',
        directory_text.len() > 0 ==> directory_text.last() != '/' && !(directory_text.len() > 1
            && directory_text.last() == '.' && directory_text[directory_text.len() - 2] == '/'),
        config_path@ == (if directory_text.len() > 0 {
            directory_text + "/"@ + name
        } else {
            name
        }),
    ensures
        path@.len() > 0 && path@[0] == '/' ==> whole@ == path@,
        !(path@.len() > 0 && path@[0] == '/') ==> whole@ == (if directory_text.len() > 0 {
            directory_text
        } else {
            "."@
        }) + "/"@ + path@,
{
    reveal_strlit("/");
    reveal_strlit(".");
    let whole_path = config_path@;
    assert(whole_path.last() == name.last());
    assert(name[name.len() - 1] != '/');
    if name.len() == 1 {
        assert(name != seq!['.']) by {
            assert("."@ =~= seq!['.']);
        }
        assert(name[0] != '.') by {
            if name[0] == '.' {
                assert(name =~= "."@);
            }
        }
    } else {
        assert(name[name.len() - 2] != '/');
        assert(whole_path[whole_path.len() - 2] == name[name.len() - 2]);
    }
    assert(without_tail(whole_path) == whole_path);
    if directory_text.len() > 0 {
        let head = directory_text + "/"@;
        lemma_directory_length_of(head, name);
        assert(whole_path =~= head + name);
        assert(whole_path.take(head.len() as int) =~= head);
        assert(head.last() == '/');
        assert(head.drop_last() =~= directory_text);
        assert(without_tail(directory_text) == directory_text);
        assert(without_tail(head) == directory_text);
    } else {
        lemma_directory_length_of(Seq::empty(), name);
        assert(Seq::empty() + name =~= name);
        assert(whole_path.take(0) =~= Seq::empty());
    }
}

proof fn lemma_directory_length_of(head: Seq<char>, name: Seq<char>)
    requires
        head.len() == 0 || head.last() == '/',
        forall|i: int| 0 <= i < name.len() ==> (#[trigger] name[i]) != '/',
    ensures
        directory_length(head + name) == head.len(),
    decreases name.len(),
{
    if name.len() == 0 {
        assert(head + name =~= head);
    } else {
        let rest = name.drop_last();
        assert((head + name).drop_last() =~= head + rest);
        assert((head + name).last() == name[name.len() - 1]);
        assert forall|i: int| 0 <= i < rest.len() implies (#[trigger] rest[i]) != '/' by {
            assert(rest[i] == name[i]);
        }
        lemma_directory_length_of(head, rest);
    }
}

} // verus!
