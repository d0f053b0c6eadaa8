use vstd::prelude::*;
use crate::text::{chars_of, push_char};

verus! {

broadcast use vstd::string::group_string_axioms;

/// The name under which the source goes into the archive: its last path
/// component, or `archive` where it has none that is valid text.
pub fn entry_name(file_name: Option<&str>) -> (r: String)
    ensures
        match file_name {
            Some(s) => r@ == s@,
            None => r@ == seq!['a', 'r', 'c', 'h', 'i', 'v', 'e'],
        },
{
    match file_name {
        Some(s) => s.to_owned(),
        None => {
            proof {
                reveal_strlit("archive");
                assert("archive"@ =~= seq!['a', 'r', 'c', 'h', 'i', 'v', 'e']);
            }
            "archive".to_owned()
        },
    }
}

/// What extraction does with one entry of the archive. Paths are relative
/// to the target folder, as lists of components.
pub enum EntryAction {
    /// Create this directory.
    MakeDir(Vec<String>),
    /// Unpack this file, after creating its parent directory.
    Unpack(Vec<String>),
}

/// `s` without its first element (empty stays empty).
pub open spec fn without_first<T>(s: Seq<T>) -> Seq<T> {
    if s.len() == 0 {
        s
    } else {
        s.drop_first()
    }
}

/// The action for an archive entry with the given path components: the
/// leading component (the archived folder's own name) is dropped, so the
/// contents land directly in the target folder.
pub fn plan_entry(is_dir: bool, components: Vec<String>) -> (r: EntryAction)
    ensures
        is_dir ==> (r matches EntryAction::MakeDir(rel) && rel@ == without_first(components@)),
        !is_dir ==> (r matches EntryAction::Unpack(rel) && rel@ == without_first(components@)),
{
    let mut rel = components;
    if rel.len() > 0 {
        rel.remove(0);
    }
    assert(rel@ =~= without_first(components@));
    if is_dir {
        EntryAction::MakeDir(rel)
    } else {
        EntryAction::Unpack(rel)
    }
}

/// `c` with a backslash turned into a forward slash.
pub open spec fn forward_slash(c: char) -> char {
    if c == '\\' {
        '/'
    } else {
        c
    }
}

/// The name of a zip entry for a path relative to the archived folder: every
/// backslash becomes a forward slash.
pub fn zip_entry_name(relative: &str) -> (r: String)
    ensures
        r@ == relative@.map_values(|c: char| forward_slash(c)),
{
    let v = chars_of(relative);
    let mut out = String::new();
    let mut i: usize = 0;
    while i < v.len()
        invariant
            i <= v.len(),
            v@ == relative@,
            out@ == v@.take(i as int).map_values(|c: char| forward_slash(c)),
        decreases v.len() - i,
    {
        let c = v[i];
        let d = if c == '\\' {
            '/'
        } else {
            c
        };
        push_char(&mut out, d);
        assert(v@.take(i + 1) == v@.take(i as int).push(c));
        i = i + 1;
        assert(out@ =~= v@.take(i as int).map_values(|c: char| forward_slash(c)));
    }
    assert(v@.take(i as int) == v@);
    out
}

} // verus!
