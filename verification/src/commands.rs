use vstd::prelude::*;
use crate::config::{Archive, Config, has_name, name_accepted, name_verdict, text_result};
use crate::dates::{format_date, timestamp_in_range, timestamp_text};
use crate::size::{format_size, size_text};
use crate::style::{b, color_code, gr, gray_code, p, painted};
use crate::text::{
    chars_of, left_aligned, lemma_trimmed_idempotent, lowercase, pad_left, pad_right, right_aligned,
    same_text, to_lowercase, trim, trimmed,
};

verus! {

broadcast use vstd::string::group_string_axioms;

/// Whether the path given to `archive` stands for the current directory.
pub fn uses_current_dir(path: &str) -> (r: bool)
    ensures
        r == (path@ == seq!['.'] || path@ == seq!['.', '.']),
{
    proof {
        reveal_strlit(".");
        reveal_strlit("..");
        assert("."@ =~= seq!['.']);
        assert(".."@ =~= seq!['.', '.']);
    }
    same_text(path, ".") || same_text(path, "..")
}

/// The archive name taken from the last component of the source path: the
/// validated name, or `None` where there is no usable component or the
/// component is not a valid name.
pub fn name_from_source(file_name: Option<&str>) -> (r: Option<String>)
    ensures
        match file_name {
            None => r is None,
            Some(s) => match name_verdict(s@) {
                Ok(t) => r matches Some(n) && n@ == t,
                Err(_) => r is None,
            },
        },
        r matches Some(n) ==> name_accepted(n@),
{
    match file_name {
        None => None,
        Some(s) => match Archive::validate_name(s) {
            Ok(n) => {
                if n.as_str().unicode_len() == 0 {
                    None
                } else {
                    Some(n)
                }
            },
            Err(_) => None,
        },
    }
}

/// Message for a typed name that is already taken.
pub open spec fn msg_name_taken() -> Seq<char> {
    "name already exists"@
}

/// The outcome of a name typed at the prompt: the validated name where it is
/// free, else the message to show.
pub open spec fn typed_name_verdict(archives: Seq<Archive>, input: Seq<char>) -> Result<Seq<char>, Seq<char>> {
    match name_verdict(trimmed(input)) {
        Ok(t) => if has_name(archives, t) {
            Err(msg_name_taken())
        } else {
            Ok(t)
        },
        Err(m) => Err(m),
    }
}

/// Validating the trimmed input is validating the input.
pub proof fn lemma_typed_name_trim(input: Seq<char>)
    ensures
        name_verdict(trimmed(input)) == name_verdict(input),
{
    lemma_trimmed_idempotent(input);
}

/// A typed name that validates to `t` is accepted exactly when no stored
/// archive is named `t`; it is refused as taken only when a stored name equals
/// `t`, never for a stored name that shares a prefix with it.
pub proof fn lemma_typed_name_taken_iff_equal(archives: Seq<Archive>, input: Seq<char>, t: Seq<char>)
    requires
        name_verdict(trimmed(input)) == Ok::<Seq<char>, Seq<char>>(t),
    ensures
        (forall|j: int| 0 <= j < archives.len() ==> (#[trigger] archives[j]).name@ != t)
            ==> typed_name_verdict(archives, input) == Ok::<Seq<char>, Seq<char>>(t),
        (exists|j: int| 0 <= j < archives.len() && (#[trigger] archives[j]).name@ == t)
            ==> typed_name_verdict(archives, input) == Err::<Seq<char>, Seq<char>>(
            msg_name_taken(),
        ),
{
}

/// Checks a name typed at the prompt: it must be valid and not yet used by a
/// stored archive.
pub fn accept_typed_name(config: &Config, input: &str) -> (r: Result<String, String>)
    ensures
        text_result(r) == typed_name_verdict(config.archives@, input@),
        r matches Ok(n) ==> name_accepted(n@) && !has_name(config.archives@, n@),
        forall|t: Seq<char>|
            name_verdict(trimmed(input@)) == Ok::<Seq<char>, Seq<char>>(t) ==> {
                &&& (forall|j: int|
                    0 <= j < config.archives@.len() ==> (#[trigger] config.archives@[j]).name@
                        != t) ==> (r matches Ok(n) && n@ == t)
                &&& (exists|j: int|
                    0 <= j < config.archives@.len() && (#[trigger] config.archives@[j]).name@
                        == t) ==> (r matches Err(e) && e@ == msg_name_taken())
            },
{
    let name = trim(input);
    match Archive::validate_name(name) {
        Ok(n) => {
            if config.has_archive_named(n.as_str()) {
                Err("name already exists".to_owned())
            } else {
                Ok(n)
            }
        },
        Err(e) => Err(e),
    }
}

/// Whether a lowercased answer starts with `y`.
pub fn answer_is_yes(lowered: &str) -> (r: bool)
    ensures
        r == (lowered@.len() > 0 && lowered@[0] == 'y'),
{
    let v = chars_of(lowered);
    v.len() > 0 && v[0] == 'y'
}

/// Whether the answer to the overwrite question is yes: once trimmed and
/// lowercased it starts with `y`.
pub fn confirms_overwrite(input: &str) -> (r: bool)
    ensures
        r == (lowercase(trimmed(input@)).len() > 0 && lowercase(trimmed(input@))[0] == 'y'),
{
    let lowered = to_lowercase(trim(input));
    answer_is_yes(lowered.as_str())
}

/// The file name of the compressed archive: `<id>_<name>.tar.gz`.
pub fn archive_file_name(id: &str, name: &str) -> (r: String)
    ensures
        r@ == id@ + seq!['_'] + name@ + seq!['.', 't', 'a', 'r', '.', 'g', 'z'],
{
    proof {
        reveal_strlit("_");
        reveal_strlit(".tar.gz");
    }
    let mut s = id.to_owned();
    s.append("_");
    s.append(name);
    s.append(".tar.gz");
    s
}

/// The folder name typed when the mount target exists: the trimmed input, or
/// `None` (abort) where it is empty.
pub fn folder_name_from_input(input: &str) -> (r: Option<String>)
    ensures
        trimmed(input@).len() == 0 ==> r is None,
        trimmed(input@).len() > 0 ==> (r matches Some(n) && n@ == trimmed(input@)),
{
    let t = trim(input);
    if t.unicode_len() == 0 {
        None
    } else {
        Some(t.to_owned())
    }
}

/// One line of the archive list: the name left-aligned to 16 characters in
/// purple, the size right-aligned to 12 in blue, then the creation date in
/// gray.
pub open spec fn list_row_text(a: Archive) -> Seq<char> {
    painted(color_code('5'), left_aligned(a.name@, 16)) + painted(
        color_code('4'),
        right_aligned(size_text(a.size), 12),
    ) + seq![' '] + painted(gray_code(), timestamp_text(a.created_at))
}

/// Formats one line of the archive list.
pub fn list_row(a: &Archive) -> (r: String)
    requires
        timestamp_in_range(a.created_at),
    ensures
        r@ == list_row_text(*a),
{
    let name = pad_right(a.name.as_str(), 16);
    let size_str = format_size(a.size);
    let size = pad_left(size_str.as_str(), 12);
    let date = format_date(a.created_at);
    let mut line = p(name.as_str());
    let sized = b(size.as_str());
    line.append(sized.as_str());
    proof {
        reveal_strlit(" ");
    }
    line.append(" ");
    let dated = gr(date.as_str());
    line.append(dated.as_str());
    line
}

/// The next thing the `archive` command does.
pub enum ArchiveStep {
    /// Ask for a name: the source path gives none that is valid.
    AskName,
    /// Ask whether to replace the stored archive of this name.
    AskOverwrite(String),
    /// Compress the source and store it under this name.
    Store(String),
    /// Show this message and stop, saving nothing.
    Refuse(String),
    /// Stop, saving nothing.
    Abort,
}

/// The name that the last component of the source path gives, if valid.
pub open spec fn source_name(file_name: Option<Seq<char>>) -> Option<Seq<char>> {
    match file_name {
        Some(s) => match name_verdict(s) {
            Ok(t) => Some(t),
            Err(_) => None,
        },
        None => None,
    }
}

/// The first step of the `archive` command: use the source's name where it
/// is valid, asking before replacing a stored archive of that name, and ask
/// for a name otherwise.
pub fn archive_first_step(config: &Config, file_name: Option<&str>) -> (r: ArchiveStep)
    ensures
        match source_name(
            match file_name {
                Some(s) => Some(s@),
                None => None,
            },
        ) {
            Some(t) => if has_name(config.archives@, t) {
                r matches ArchiveStep::AskOverwrite(n) && n@ == t
            } else {
                r matches ArchiveStep::Store(n) && n@ == t
            },
            None => r is AskName,
        },
        r matches ArchiveStep::Store(n) ==> name_accepted(n@),
        r matches ArchiveStep::AskOverwrite(n) ==> name_accepted(n@),
{
    match name_from_source(file_name) {
        Some(n) => {
            if config.has_archive_named(n.as_str()) {
                ArchiveStep::AskOverwrite(n)
            } else {
                ArchiveStep::Store(n)
            }
        },
        None => ArchiveStep::AskName,
    }
}

/// The step after a name was typed: store under it where it is valid and
/// free, else show why and stop.
pub fn archive_after_typed_name(config: &Config, input: &str) -> (r: ArchiveStep)
    ensures
        match typed_name_verdict(config.archives@, input@) {
            Ok(t) => r matches ArchiveStep::Store(n) && n@ == t,
            Err(m) => r matches ArchiveStep::Refuse(e) && e@ == m,
        },
        r matches ArchiveStep::Store(n) ==> name_accepted(n@),
{
    match accept_typed_name(config, input) {
        Ok(n) => ArchiveStep::Store(n),
        Err(e) => ArchiveStep::Refuse(e),
    }
}

/// The step after the overwrite question: store under `name` where the
/// answer is yes, else stop.
pub fn archive_after_overwrite_answer(name: String, input: &str) -> (r: ArchiveStep)
    ensures
        (lowercase(trimmed(input@)).len() > 0 && lowercase(trimmed(input@))[0] == 'y') ==> (
        r matches ArchiveStep::Store(n) && n == name),
        !(lowercase(trimmed(input@)).len() > 0 && lowercase(trimmed(input@))[0] == 'y') ==> (
        r is Abort),
{
    if confirms_overwrite(input) {
        ArchiveStep::Store(name)
    } else {
        ArchiveStep::Abort
    }
}

} // verus!
