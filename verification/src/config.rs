use vstd::prelude::*;
use vstd::utf8::encode_utf8;
use crate::dates::{max_timestamp, timestamp_from_nanos, timestamp_in_range};
use crate::text::{
    alphanumeric, chars_of, hex_value, is_alphanumeric, lemma_hex_value_of_lower_hex,
    lemma_lower_hex_injective, lemma_trimmed_idempotent, lower_hex, push_lower_hex, same_text, trim,
    trimmed,
};

verus! {

broadcast use vstd::string::group_string_axioms;

/// A stored archive: where its compressed file lives and what it holds.
pub struct Archive {
    pub id: String,
    pub name: String,
    pub path: String,
    /// Creation time, in seconds since the Unix epoch (UTC).
    pub created_at: i64,
    pub size: u64,
    pub items_count: usize,
}

/// The settings file: where archives are stored, and the archives themselves.
pub struct Config {
    pub archive_path: String,
    pub archives: Vec<Archive>,
}

/// Message for a name that is empty once trimmed.
pub open spec fn msg_empty_name() -> Seq<char> {
    "Archive name cannot be empty"@
}

/// Message for a name longer than 64 bytes.
pub open spec fn msg_long_name() -> Seq<char> {
    "Archive name too long (max 64 characters)"@
}

/// Message for a name holding a path separator.
pub open spec fn msg_separator() -> Seq<char> {
    "Archive name cannot contain path separators"@
}

/// Message for the names `.` and `..`.
pub open spec fn msg_dot_names() -> Seq<char> {
    "Archive name cannot be '.' or '..'"@
}

/// Message for a name starting with a dot.
pub open spec fn msg_leading_dot() -> Seq<char> {
    "Archive name cannot start with '.'"@
}

/// Message for a name with a character outside letters, digits, `_` and `-`.
pub open spec fn msg_bad_char() -> Seq<char> {
    "Archive name can only contain letters, numbers, underscores, and hyphens"@
}

/// The characters an archive name may hold.
pub open spec fn name_char_allowed(c: char) -> bool {
    alphanumeric(c) || c == '_' || c == '-'
}

/// The outcome of validating `name`: the trimmed name, or the message of the
/// first rule it breaks.
pub open spec fn name_verdict(name: Seq<char>) -> Result<Seq<char>, Seq<char>> {
    let t = trimmed(name);
    if t.len() == 0 {
        Err(msg_empty_name())
    } else if encode_utf8(t).len() > 64 {
        Err(msg_long_name())
    } else if t.contains('/') || t.contains('\\') {
        Err(msg_separator())
    } else if t == seq!['.'] || t == seq!['.', '.'] {
        Err(msg_dot_names())
    } else if t[0] == '.' {
        Err(msg_leading_dot())
    } else if !(forall|i: int| 0 <= i < t.len() ==> name_char_allowed(#[trigger] t[i])) {
        Err(msg_bad_char())
    } else {
        Ok(t)
    }
}

/// The characters of a `Result` of strings.
pub open spec fn text_result(r: Result<String, String>) -> Result<Seq<char>, Seq<char>> {
    match r {
        Ok(s) => Ok(s@),
        Err(e) => Err(e@),
    }
}

/// Whether `c` occurs in `v`.
fn holds_char(v: &Vec<char>, c: char) -> (r: bool)
    ensures
        r == v@.contains(c),
{
    let mut i: usize = 0;
    while i < v.len()
        invariant
            i <= v.len(),
            forall|k: int| 0 <= k < i ==> v@[k] != c,
        decreases v.len() - i,
    {
        if v[i] == c {
            assert(v@[i as int] == c);
            return true;
        }
        i = i + 1;
    }
    false
}

/// The number of bytes of the UTF-8 encoding of `c`.
fn utf8_width(c: char) -> (w: usize)
    ensures
        w == vstd::utf8::encode_scalar(c as u32).len(),
{
    let u = c as u32;
    if u <= 0x7f {
        1
    } else if u <= 0x7ff {
        2
    } else if u <= 0xffff {
        assert(!(0xD800 <= u <= 0xDFFF)) by {
            vstd::utf8::char_is_scalar(c);
        }
        3
    } else {
        4
    }
}

proof fn lemma_utf8_len_suffix_mono(s: Seq<char>, j: int, i: int)
    requires
        0 <= j <= i <= s.len(),
    ensures
        encode_utf8(s.skip(j)).len() >= encode_utf8(s.skip(i)).len(),
    decreases i - j,
{
    if j < i {
        assert(s.skip(j).drop_first() == s.skip(j + 1));
        lemma_utf8_len_suffix_mono(s, j + 1, i);
    }
}

/// Whether the UTF-8 encoding of `v` is longer than `limit` bytes.
fn utf8_longer_than(v: &Vec<char>, limit: usize) -> (r: bool)
    ensures
        r == (encode_utf8(v@).len() > limit),
{
    let mut i: usize = v.len();
    let mut total: usize = 0;
    assert(v@.skip(v.len() as int) == Seq::<char>::empty());
    while i > 0
        invariant
            i <= v.len(),
            total <= limit,
            total == encode_utf8(v@.skip(i as int)).len(),
        decreases i,
    {
        let w = utf8_width(v[i - 1]);
        assert(v@.skip(i - 1).drop_first() == v@.skip(i as int));
        assert(v@.skip(i - 1)[0] == v@[i - 1]);
        if w > limit - total {
            proof {
                lemma_utf8_len_suffix_mono(v@, 0, i - 1);
                assert(v@.skip(0) == v@);
            }
            return true;
        }
        total = total + w;
        i = i - 1;
    }
    assert(v@.skip(0) == v@);
    false
}

/// Whether every character of `v` may stand in a name.
fn all_name_chars(v: &Vec<char>) -> (r: bool)
    ensures
        r == (forall|i: int| 0 <= i < v@.len() ==> name_char_allowed(#[trigger] v@[i])),
{
    let mut i: usize = 0;
    while i < v.len()
        invariant
            i <= v.len(),
            forall|k: int| 0 <= k < i ==> name_char_allowed(#[trigger] v@[k]),
        decreases v.len() - i,
    {
        let ch = v[i];
        if !(is_alphanumeric(ch) || ch == '_' || ch == '-') {
            assert(!name_char_allowed(v@[i as int]));
            return false;
        }
        i = i + 1;
    }
    true
}

impl Archive {
    /// Checks a proposed archive name and returns it trimmed.
    ///
    /// The trimmed name must be non-empty, at most 64 bytes long, free of `/`
    /// and `\`, neither `.` nor `..`, not start with `.`, and hold only
    /// letters, digits, `_` and `-`; otherwise the message of the first rule
    /// it breaks is returned.
    pub fn validate_name(name: &str) -> (r: Result<String, String>)
        ensures
            text_result(r) == name_verdict(name@),
            r matches Ok(n) ==> name_accepted(n@),
            ({
                let t = trimmed(name@);
                &&& t.len() > 0
                &&& encode_utf8(t).len() <= 64
                &&& !t.contains('/') && !t.contains('\\')
                &&& t[0] != '.'
                &&& forall|i: int|
                    0 <= i < t.len() ==> alphanumeric(#[trigger] t[i]) || t[i] == '_' || t[i]
                        == '-'
            }) ==> (r matches Ok(n) && n@ == trimmed(name@)),
    {
        proof {
            if name_verdict(name@) is Ok {
                lemma_validated_name_stable(name@);
            }
            let t = trimmed(name@);
            if t.len() > 0 && encode_utf8(t).len() <= 64 && !t.contains('/') && !t.contains('\\')
                && t[0] != '.' && (forall|i: int|
                0 <= i < t.len() ==> alphanumeric(#[trigger] t[i]) || t[i] == '_' || t[i] == '-') {
                lemma_valid_names_accepted(name@);
            }
        }
        let t = trim(name);
        let v = chars_of(t);
        if v.len() == 0 {
            return Err("Archive name cannot be empty".to_owned());
        }
        if utf8_longer_than(&v, 64) {
            return Err("Archive name too long (max 64 characters)".to_owned());
        }
        if holds_char(&v, '/') || holds_char(&v, '\\') {
            return Err("Archive name cannot contain path separators".to_owned());
        }
        if (v.len() == 1 && v[0] == '.') || (v.len() == 2 && v[0] == '.' && v[1] == '.') {
            assert(v.len() == 1 ==> v@ =~= seq!['.']);
            assert(v.len() == 2 ==> v@ =~= seq!['.', '.']);
            return Err("Archive name cannot be '.' or '..'".to_owned());
        }
        assert(v@ != seq!['.']);
        assert(v@ != seq!['.', '.']);
        if v[0] == '.' {
            return Err("Archive name cannot start with '.'".to_owned());
        }
        if !all_name_chars(&v) {
            return Err(
                "Archive name can only contain letters, numbers, underscores, and hyphens".to_owned(),
            );
        }
        Ok(t.to_owned())
    }
}

/// A name that validation accepts is accepted again, unchanged.
pub proof fn lemma_validated_name_stable(name: Seq<char>)
    requires
        name_verdict(name) is Ok,
    ensures
        name_verdict(name_verdict(name)->Ok_0) == name_verdict(name),
{
    lemma_trimmed_idempotent(name);
}

/// Completeness of validation: every name whose trimmed form is non-empty,
/// at most 64 bytes, free of `/` and `\`, not starting with `.`, and made only
/// of alphanumeric characters, `_` and `-` is accepted, as its trimmed form.
pub proof fn lemma_valid_names_accepted(name: Seq<char>)
    requires
        trimmed(name).len() > 0,
        encode_utf8(trimmed(name)).len() <= 64,
        !trimmed(name).contains('/'),
        !trimmed(name).contains('\\'),
        trimmed(name)[0] != '.',
        forall|i: int|
            0 <= i < trimmed(name).len() ==> alphanumeric(#[trigger] trimmed(name)[i])
                || trimmed(name)[i] == '_' || trimmed(name)[i] == '-',
    ensures
        name_verdict(name) == Ok::<Seq<char>, Seq<char>>(trimmed(name)),
{
    let t = trimmed(name);
    assert(t != seq!['.']) by {
        if t == seq!['.'] {
            assert(t[0] == '.');
        }
    }
    assert(t != seq!['.', '.']) by {
        if t == seq!['.', '.'] {
            assert(t[0] == '.');
        }
    }
    assert forall|i: int| 0 <= i < t.len() implies name_char_allowed(#[trigger] t[i]) by {}
}

/// Letters of either case and digits are alphanumeric, so they may stand
/// anywhere in a name.
pub proof fn lemma_ascii_letters_digits_allowed(c: char)
    requires
        'a' <= c <= 'z' || 'A' <= c <= 'Z' || '0' <= c <= '9',
    ensures
        alphanumeric(c),
        name_char_allowed(c),
{
}

/// A name is taken exactly when a stored archive's name equals it; a stored
/// name that merely starts with it, or that it starts with, does not count.
pub proof fn lemma_name_taken_iff_equal(s: Seq<Archive>, name: Seq<char>)
    ensures
        has_name(s, name) <==> exists|j: int| 0 <= j < s.len() && (#[trigger] s[j]).name@ == name,
        (forall|j: int| 0 <= j < s.len() ==> (#[trigger] s[j]).name@ != name) ==> !has_name(s, name),
{
}

/// What an accepted name is: the trimmed input, non-empty, at most 64 bytes,
/// without separators, not starting with a dot, and made of letters, digits,
/// `_` and `-` only.
pub proof fn lemma_accepted_name_shape(name: Seq<char>)
    requires
        name_verdict(name) is Ok,
    ensures
        name_verdict(name)->Ok_0 == trimmed(name),
        ({
            let t = name_verdict(name)->Ok_0;
            &&& t.len() > 0
            &&& encode_utf8(t).len() <= 64
            &&& !t.contains('/') && !t.contains('\\')
            &&& t[0] != '.'
            &&& forall|i: int| 0 <= i < t.len() ==> name_char_allowed(#[trigger] t[i])
        }),
{
}

/// Whether `key` names the archive `a`, by its id or by its name.
pub open spec fn archive_matches(a: Archive, key: Seq<char>) -> bool {
    a.id@ == key || a.name@ == key
}

/// Whether `i` is the first position in `s` of an archive that `key` names.
pub open spec fn first_match(s: Seq<Archive>, key: Seq<char>, i: int) -> bool {
    &&& 0 <= i < s.len()
    &&& archive_matches(s[i], key)
    &&& forall|j: int| 0 <= j < i ==> !archive_matches(#[trigger] s[j], key)
}

/// Whether no archive of `s` is named by `key`.
pub open spec fn no_match(s: Seq<Archive>, key: Seq<char>) -> bool {
    forall|j: int| 0 <= j < s.len() ==> !archive_matches(#[trigger] s[j], key)
}

/// Whether some archive of `s` has the name `name`.
pub open spec fn has_name(s: Seq<Archive>, name: Seq<char>) -> bool {
    exists|j: int| 0 <= j < s.len() && (#[trigger] s[j]).name@ == name
}

/// `s` with every archive named `name` left out, order kept.
pub open spec fn without_name(s: Seq<Archive>, name: Seq<char>) -> Seq<Archive> {
    s.filter(other_name(name))
}

/// The test that an archive is not named `name`.
pub open spec fn other_name(name: Seq<char>) -> spec_fn(Archive) -> bool {
    |a: Archive| a.name@ != name
}

/// The total of the sizes of the archives of `s`.
pub open spec fn total_of(s: Seq<Archive>) -> nat
    decreases s.len(),
{
    if s.len() == 0 {
        0
    } else {
        total_of(s.drop_last()) + s.last().size as nat
    }
}

proof fn lemma_total_prefix_mono(s: Seq<Archive>, i: int)
    requires
        0 <= i <= s.len(),
    ensures
        total_of(s.take(i)) <= total_of(s),
    decreases s.len() - i,
{
    if i < s.len() {
        lemma_total_prefix_mono(s, i + 1);
        assert(s.take(i + 1).drop_last() == s.take(i));
    } else {
        assert(s.take(i) == s);
    }
}

impl Config {
    /// The position of the first archive whose id or name is `key`.
    pub fn find_archive(&self, key: &str) -> (r: Option<usize>)
        ensures
            match r {
                Some(i) => first_match(self.archives@, key@, i as int),
                None => no_match(self.archives@, key@),
            },
    {
        let mut i: usize = 0;
        while i < self.archives.len()
            invariant
                i <= self.archives.len(),
                forall|j: int| 0 <= j < i ==> !archive_matches(#[trigger] self.archives@[j], key@),
            decreases self.archives.len() - i,
        {
            let a = &self.archives[i];
            if same_text(a.id.as_str(), key) || same_text(a.name.as_str(), key) {
                return Some(i);
            }
            i = i + 1;
        }
        None
    }

    /// Whether an archive named `name` is stored.
    pub fn has_archive_named(&self, name: &str) -> (r: bool)
        ensures
            r == has_name(self.archives@, name@),
            r == (exists|j: int|
                0 <= j < self.archives@.len() && (#[trigger] self.archives@[j]).name@ == name@),
    {
        let mut i: usize = 0;
        while i < self.archives.len()
            invariant
                i <= self.archives.len(),
                forall|j: int| 0 <= j < i ==> (#[trigger] self.archives@[j]).name@ != name@,
            decreases self.archives.len() - i,
        {
            if same_text(self.archives[i].name.as_str(), name) {
                assert(self.archives@[i as int].name@ == name@);
                return true;
            }
            i = i + 1;
        }
        false
    }

    /// Takes out the first archive whose id or name is `key`, if any.
    pub fn remove_archive(&mut self, key: &str) -> (r: Option<Archive>)
        ensures
            final(self).archive_path == old(self).archive_path,
            match r {
                Some(a) => exists|i: int|
                    {
                        &&& first_match(old(self).archives@, key@, i)
                        &&& a == old(self).archives@[i]
                        &&& final(self).archives@ == old(self).archives@.remove(i)
                    },
                None => {
                    &&& no_match(old(self).archives@, key@)
                    &&& final(self).archives@ == old(self).archives@
                },
            },
            store_sound(old(self).archives@) ==> store_sound(final(self).archives@),
    {
        match self.find_archive(key) {
            Some(i) => {
                proof {
                    if store_sound(self.archives@) {
                        lemma_remove_keeps_sound(self.archives@, i as int);
                    }
                }
                let a = self.archives.remove(i);
                Some(a)
            },
            None => None,
        }
    }

    /// Stores `archive`, replacing every stored archive of the same name; the
    /// others keep their order and `archive` comes last.
    pub fn upsert_archive(&mut self, archive: Archive)
        ensures
            final(self).archive_path == old(self).archive_path,
            final(self).archives@ == without_name(old(self).archives@, archive.name@).push(archive),
            store_sound(old(self).archives@) && name_accepted(archive.name@) ==> store_sound(
                final(self).archives@,
            ),
    {
        proof {
            if store_sound(self.archives@) && name_accepted(archive.name@) {
                lemma_upsert_keeps_sound(self.archives@, archive);
            }
        }
        let mut rest: Vec<Archive> = Vec::new();
        std::mem::swap(&mut rest, &mut self.archives);
        let ghost orig = rest@;
        let ghost pred = other_name(archive.name@);
        let mut kept: Vec<Archive> = Vec::new();
        let ghost mut k: int = 0;
        assert(orig.take(0) =~= Seq::<Archive>::empty());
        proof {
            reveal(Seq::filter);
        }
        assert(orig.take(0).filter(pred) =~= Seq::<Archive>::empty());
        assert(orig.skip(0) == orig);
        while rest.len() > 0
            invariant
                0 <= k <= orig.len(),
                rest@ == orig.skip(k),
                kept@ == orig.take(k).filter(pred),
                pred == other_name(archive.name@),
            decreases rest.len(),
        {
            let x = rest.remove(0);
            proof {
                assert(orig.skip(k)[0] == orig[k]);
                assert(orig.skip(k).remove(0) =~= orig.skip(k + 1));
                assert(orig.take(k + 1).drop_last() =~= orig.take(k));
                assert(orig.take(k + 1).last() == orig[k]);
                reveal(Seq::filter);
            }
            if x.name != archive.name {
                kept.push(x);
            }
            proof {
                k = k + 1;
            }
        }
        assert(orig.take(k) =~= orig);
        kept.push(archive);
        self.archives = kept;
    }

    /// Stores a new archive created at the time given in nanoseconds since
    /// the Unix epoch, replacing any of the same name, and returns `true`;
    /// returns `false` and stores nothing where that time lies after the year
    /// 9999.
    pub fn record_archive_at(
        &mut self,
        id: String,
        name: String,
        path: String,
        size: u64,
        nanos: u128,
    ) -> (r: bool)
        ensures
            final(self).archive_path == old(self).archive_path,
            r == (nanos / 1_000_000_000 <= max_timestamp()),
            r ==> final(self).archives@ == without_name(old(self).archives@, name@).push(
                Archive {
                    id,
                    name,
                    path,
                    created_at: (nanos / 1_000_000_000) as i64,
                    size,
                    items_count: 0,
                },
            ),
            !r ==> final(self).archives@ == old(self).archives@,
            store_sound(old(self).archives@) && name_accepted(name@) ==> store_sound(
                final(self).archives@,
            ),
    {
        match timestamp_from_nanos(nanos) {
            Some(created_at) => {
                self.upsert_archive(Archive { id, name, path, created_at, size, items_count: 0 });
                true
            },
            None => false,
        }
    }

    /// Stores a new archive created now, replacing any of the same name, and
    /// returns `true`; returns `false` and stores nothing where the system
    /// clock reads before the Unix epoch or after the year 9999.
    pub fn record_archive(&mut self, id: String, name: String, path: String, size: u64) -> (r: bool)
        ensures
            final(self).archive_path == old(self).archive_path,
            r ==> exists|ts: i64|
                {
                    &&& timestamp_in_range(ts)
                    &&& final(self).archives@ == without_name(old(self).archives@, name@).push(
                        Archive { id, name, path, created_at: ts, size, items_count: 0 },
                    )
                },
            !r ==> final(self).archives@ == old(self).archives@,
            store_sound(old(self).archives@) && name_accepted(name@) ==> store_sound(
                final(self).archives@,
            ),
    {
        match nanos_since_epoch() {
            Some(nanos) => {
                let ghost entry = Archive {
                    id,
                    name,
                    path,
                    created_at: (nanos / 1_000_000_000) as i64,
                    size,
                    items_count: 0,
                };
                let stored = self.record_archive_at(id, name, path, size, nanos);
                assert(stored ==> timestamp_in_range(entry.created_at));
                stored
            },
            None => false,
        }
    }

    /// The total size of the stored archives, or `None` where it exceeds
    /// `u64::MAX`.
    pub fn total_size(&self) -> (r: Option<u64>)
        ensures
            match r {
                Some(t) => t == total_of(self.archives@),
                None => total_of(self.archives@) > u64::MAX,
            },
    {
        let mut total: u64 = 0;
        let mut i: usize = 0;
        assert(self.archives@.take(0) =~= Seq::<Archive>::empty());
        while i < self.archives.len()
            invariant
                i <= self.archives.len(),
                total == total_of(self.archives@.take(i as int)),
            decreases self.archives.len() - i,
        {
            assert(self.archives@.take(i + 1).drop_last() =~= self.archives@.take(i as int));
            let size = self.archives[i].size;
            if size > u64::MAX - total {
                proof {
                    lemma_total_prefix_mono(self.archives@, i + 1);
                }
                return None;
            }
            total = total + size;
            i = i + 1;
        }
        assert(self.archives@.take(i as int) =~= self.archives@);
        Some(total)
    }
}

/// Lookup and removal agree: there is only one first match for a key, so
/// `remove_archive(key)` takes out the archive at `find_archive(key)`.
pub proof fn lemma_first_match_unique(s: Seq<Archive>, key: Seq<char>, i: int, j: int)
    requires
        first_match(s, key, i),
        first_match(s, key, j),
    ensures
        i == j,
{
}

/// Whether no two archives of `s` share a name.
pub open spec fn names_unique(s: Seq<Archive>) -> bool {
    forall|i: int, j: int|
        0 <= i < j < s.len() ==> (#[trigger] s[i]).name@ != (#[trigger] s[j]).name@
}

proof fn lemma_filter_keeps_unique(s: Seq<Archive>, name: Seq<char>)
    requires
        names_unique(s),
    ensures
        names_unique(without_name(s, name)),
    decreases s.len(),
{
    let pred = other_name(name);
    reveal(Seq::filter);
    if s.len() > 0 {
        let rest = s.drop_last();
        assert(names_unique(rest));
        lemma_filter_keeps_unique(rest, name);
        let fr = rest.filter(pred);
        if pred(s.last()) {
            assert forall|i: int| 0 <= i < fr.len() implies (#[trigger] fr[i]).name@ != s.last().name@ by {
                rest.lemma_filter_contains_rev(pred, fr[i]);
                let k = choose|k: int| 0 <= k < rest.len() && rest[k] == fr[i];
                assert(s[k] == rest[k]);
            }
            assert(without_name(s, name) == fr.push(s.last()));
        } else {
            assert(without_name(s, name) == fr);
        }
    }
}

/// After `upsert_archive(a)`, `a` is the only archive with its name, it comes
/// last, and if names were unique before they stay unique.
pub proof fn lemma_upsert_single_name(s: Seq<Archive>, a: Archive)
    ensures
        ({
            let t = without_name(s, a.name@).push(a);
            &&& t.last() == a
            &&& forall|i: int| 0 <= i < t.len() - 1 ==> (#[trigger] t[i]).name@ != a.name@
            &&& names_unique(s) ==> names_unique(t)
        }),
{
    let pred = other_name(a.name@);
    let f = without_name(s, a.name@);
    let t = f.push(a);
    assert forall|i: int| 0 <= i < t.len() - 1 implies (#[trigger] t[i]).name@ != a.name@ by {
        assert(t[i] == f[i]);
        s.lemma_filter_pred(pred, i);
    }
    if names_unique(s) {
        lemma_filter_keeps_unique(s, a.name@);
        assert forall|i: int, j: int| 0 <= i < j < t.len() implies (#[trigger] t[i]).name@
            != (#[trigger] t[j]).name@ by {
            if j == t.len() - 1 {
                assert(t[i] == f[i]);
                s.lemma_filter_pred(pred, i);
            } else {
                assert(t[i] == f[i] && t[j] == f[j]);
            }
        }
    }
}

/// Reading back what was written: after `upsert_archive(a)`, looking up
/// `a`'s name finds `a`, provided no stored archive has that name as its id.
pub proof fn lemma_upsert_then_find(s: Seq<Archive>, a: Archive)
    requires
        forall|i: int| 0 <= i < s.len() ==> (#[trigger] s[i]).id@ != a.name@,
    ensures
        ({
            let t = without_name(s, a.name@).push(a);
            &&& first_match(t, a.name@, t.len() - 1)
            &&& t[t.len() - 1] == a
        }),
{
    let pred = other_name(a.name@);
    let f = without_name(s, a.name@);
    let t = f.push(a);
    assert forall|j: int| 0 <= j < t.len() - 1 implies !archive_matches(#[trigger] t[j], a.name@) by {
        assert(t[j] == f[j]);
        s.lemma_filter_pred(pred, j);
        assert(f.contains(f[j]));
        s.lemma_filter_contains_rev(pred, f[j]);
        let k = choose|k: int| 0 <= k < s.len() && s[k] == f[j];
        assert(s[k].id@ != a.name@);
    }
}

/// Trusted: the nanoseconds elapsed since the Unix epoch, from
/// `std::time::UNIX_EPOCH.elapsed()` (the current system time minus the
/// epoch), or `None` where the clock reads earlier than the epoch. Nothing is
/// stated of the value: it depends on the clock.
#[verifier::external_body]
fn nanos_since_epoch() -> (r: Option<u128>) {
    match std::time::UNIX_EPOCH.elapsed() {
        Ok(d) => Some(d.as_nanos()),
        Err(_) => None,
    }
}

/// The archive id for a creation time given in nanoseconds since the epoch:
/// the time in lowercase hexadecimal.
pub fn id_from_nanos(nanos: u128) -> (r: String)
    ensures
        r@ == lower_hex(nanos as nat),
        hex_value(r@) == nanos,
{
    proof {
        lemma_hex_value_of_lower_hex(nanos as nat);
    }
    let mut s = String::new();
    push_lower_hex(&mut s, nanos);
    s
}

/// A fresh archive id made from the current time, or `None` where the system
/// clock reads earlier than the Unix epoch.
pub fn generate_id() -> (r: Option<String>)
    ensures
        r matches Some(id) ==> exists|n: u128| id@ == lower_hex(n as nat) && hex_value(id@) == n,
{
    match nanos_since_epoch() {
        Some(n) => Some(id_from_nanos(n)),
        None => None,
    }
}

/// Ids read as hexadecimal numbers keep the order of the times they were
/// made at: a later time gives a larger number.
pub proof fn lemma_ids_ordered(a: u128, b: u128)
    requires
        a < b,
    ensures
        hex_value(lower_hex(a as nat)) < hex_value(lower_hex(b as nat)),
{
    lemma_hex_value_of_lower_hex(a as nat);
    lemma_hex_value_of_lower_hex(b as nat);
}

/// Ids made at different times differ.
pub proof fn lemma_ids_distinct(a: u128, b: u128)
    requires
        a != b,
    ensures
        lower_hex(a as nat) != lower_hex(b as nat),
{
    lemma_lower_hex_injective(a as nat, b as nat);
}

/// Whether validation accepts `n` as it stands.
pub open spec fn name_accepted(n: Seq<char>) -> bool {
    name_verdict(n) == Ok::<Seq<char>, Seq<char>>(n)
}

/// Whether the archive list is sound: no two archives share a name, and
/// every name is one that validation accepts.
pub open spec fn store_sound(s: Seq<Archive>) -> bool {
    &&& names_unique(s)
    &&& forall|i: int| 0 <= i < s.len() ==> name_accepted(#[trigger] s[i].name@)
}

/// Storing an archive whose name validation accepts keeps the list sound.
pub proof fn lemma_upsert_keeps_sound(s: Seq<Archive>, a: Archive)
    requires
        store_sound(s),
        name_accepted(a.name@),
    ensures
        store_sound(without_name(s, a.name@).push(a)),
{
    lemma_upsert_single_name(s, a);
    let pred = other_name(a.name@);
    let f = without_name(s, a.name@);
    let t = f.push(a);
    assert forall|i: int| 0 <= i < t.len() implies name_accepted(#[trigger] t[i].name@) by {
        if i < t.len() - 1 {
            assert(t[i] == f[i]);
            assert(f.contains(f[i]));
            s.lemma_filter_contains_rev(pred, f[i]);
            let k = choose|k: int| 0 <= k < s.len() && s[k] == f[i];
            assert(name_accepted(s[k].name@));
        }
    }
}

/// Removing an archive keeps the list sound.
pub proof fn lemma_remove_keeps_sound(s: Seq<Archive>, i: int)
    requires
        store_sound(s),
        0 <= i < s.len(),
    ensures
        store_sound(s.remove(i)),
{
    let t = s.remove(i);
    assert forall|j: int| 0 <= j < t.len() implies name_accepted(#[trigger] t[j].name@) by {
        if j < i {
            assert(t[j] == s[j]);
        } else {
            assert(t[j] == s[j + 1]);
        }
    }
    assert forall|j: int, k: int| 0 <= j < k < t.len() implies (#[trigger] t[j]).name@
        != (#[trigger] t[k]).name@ by {
        let jj = if j < i { j } else { j + 1 };
        let kk = if k < i { k } else { k + 1 };
        assert(t[j] == s[jj] && t[k] == s[kk]);
        assert(s[jj].name@ != s[kk].name@);
    }
}

} // verus!
