use vstd::prelude::*;
use crate::settings::error::SettingsError;
use crate::text::{find_char, find_from, lemma_find_from, contains_char, split_on, substring, to_owned_string};

verus! {

/// Placeholder names and the values they stand for; a later entry for a name
/// overrides an earlier one.
pub struct PlaceholderValues {
    entries: Vec<(String, String)>,
}

/// The value that the last entry for `name` gives, if any.
pub open spec fn lookup_entries(entries: Seq<(String, String)>, name: Seq<char>) -> Option<Seq<char>>
    decreases entries.len(),
{
    if entries.len() == 0 {
        None
    } else if entries.last().0@ == name {
        Some(entries.last().1@)
    } else {
        lookup_entries(entries.drop_last(), name)
    }
}

impl PlaceholderValues {
    /// The value stored for `name`, if any.
    pub closed spec fn lookup(&self, name: Seq<char>) -> Option<Seq<char>> {
        lookup_entries(self.entries@, name)
    }

    /// The values as a map from placeholder name to value.
    pub open spec fn as_map(&self) -> Map<Seq<char>, Seq<char>> {
        Map::new(|k: Seq<char>| self.lookup(k) is Some, |k: Seq<char>| self.lookup(k).unwrap())
    }

    /// No values.
    pub fn new() -> (r: Self)
        ensures
            forall|k: Seq<char>| #[trigger] r.lookup(k) is None,
    {
        PlaceholderValues { entries: Vec::new() }
    }

    /// Sets the value of `name`, replacing any earlier one.
    pub fn insert(&mut self, name: String, value: String)
        ensures
            final(self).lookup(name@) == Some(value@),
            forall|k: Seq<char>| k != name@ ==> #[trigger] final(self).lookup(k) == old(self).lookup(k),
    {
        let ghost n = name@;
        let ghost v = value@;
        self.entries.push((name, value));
        proof {
            assert(self.entries@.drop_last() == old(self).entries@);
        }
    }

    /// The value stored for `name`.
    pub fn get(&self, name: &str) -> (r: Option<&String>)
        ensures
            match r {
                Some(v) => self.lookup(name@) == Some(v@),
                None => self.lookup(name@) is None,
            },
    {
        let key = to_owned_string(name);
        let mut i = self.entries.len();
        proof {
            assert(self.entries@.take(i as int) == self.entries@);
        }
        while i > 0
            invariant
                i <= self.entries@.len(),
                key@ == name@,
                lookup_entries(self.entries@, name@) == lookup_entries(self.entries@.take(i as int), name@),
            decreases i,
        {
            proof {
                assert(self.entries@.take(i as int).drop_last() == self.entries@.take(i - 1));
            }
            if self.entries[i - 1].0 == key {
                return Some(&self.entries[i - 1].1);
            }
            i -= 1;
        }
        None
    }
}

/// Why resolving placeholders failed.
pub enum ResolveFailure {
    /// A `{` without a later `}`.
    Unclosed,
    /// A placeholder name with no value.
    Missing(Seq<char>),
}

/// Resolves the placeholders of `s` from position `pos` on: each `{name}` is
/// replaced by the value of `name`; the text between placeholders is kept.
pub open spec fn resolve_from(s: Seq<char>, values: Map<Seq<char>, Seq<char>>, pos: int) -> Result<Seq<char>, ResolveFailure>
    decreases s.len() - pos,
{
    if pos < 0 || pos > s.len() {
        Ok(Seq::empty())
    } else {
        match find_from(s, '{', pos) {
            None => Ok(s.subrange(pos, s.len() as int)),
            Some(i) => match find_from(s, '}', i) {
                None => Err(ResolveFailure::Unclosed),
                Some(j) => {
                    let name = s.subrange(i + 1, j);
                    if !(pos <= i < j < s.len()) {
                        Ok(Seq::empty())
                    } else if values.contains_key(name) {
                        match resolve_from(s, values, j + 1) {
                            Ok(rest) => Ok(s.subrange(pos, i) + values[name] + rest),
                            Err(e) => Err(e),
                        }
                    } else {
                        Err(ResolveFailure::Missing(name))
                    }
                },
            },
        }
    }
}

/// When no value holds a `{`, a resolved path holds no `{` either: every placeholder,
/// not just the first, is replaced, and text outside placeholders holds no `{` (an
/// unclosed `{` is an error).
pub proof fn resolved_paths_hold_no_placeholder(s: Seq<char>, values: Map<Seq<char>, Seq<char>>, pos: int)
    requires
        forall|k: Seq<char>| #[trigger] values.contains_key(k) ==> !values[k].contains('{'),
    ensures
        resolve_from(s, values, pos) matches Ok(r) ==> !r.contains('{'),
    decreases s.len() - pos,
{
    if 0 <= pos <= s.len() {
        lemma_find_from(s, '{', pos);
        match find_from(s, '{', pos) {
            None => {
                let r = s.subrange(pos, s.len() as int);
                assert forall|k: int| 0 <= k < r.len() implies r[k] != '{' by {
                    assert(r[k] == s[pos + k]);
                }
            },
            Some(i) => {
                lemma_find_from(s, '}', i);
                match find_from(s, '}', i) {
                    None => {},
                    Some(j) => {
                        let name = s.subrange(i + 1, j);
                        if pos <= i < j < s.len() && values.contains_key(name) {
                            resolved_paths_hold_no_placeholder(s, values, j + 1);
                            if let Ok(rest) = resolve_from(s, values, j + 1) {
                                let a = s.subrange(pos, i);
                                let r = a + values[name] + rest;
                                assert(!values[name].contains('{'));
                                assert forall|k: int| 0 <= k < r.len() implies r[k] != '{' by {
                                    if k < a.len() {
                                        assert(r[k] == s[pos + k]);
                                    } else if k < a.len() + values[name].len() {
                                        assert(r[k] == values[name][k - a.len()]);
                                    } else {
                                        assert(r[k] == rest[k - a.len() - values[name].len()]);
                                    }
                                }
                            }
                        }
                    },
                }
            },
        }
    }
}

proof fn lemma_find_shift(p: Seq<char>, b: Seq<char>, c: char, q: int)
    requires
        0 <= q,
    ensures
        find_from(p + b, c, p.len() + q) == match find_from(b, c, q) {
            Some(i) => Some(i + p.len()),
            None => None::<int>,
        },
    decreases b.len() - q,
{
    if q < b.len() {
        assert((p + b)[p.len() + q] == b[q]);
        if b[q] != c {
            lemma_find_shift(p, b, c, q + 1);
        }
    }
}

/// Resolving the part of a text after a prefix is resolving that part alone.
proof fn lemma_resolve_shift(p: Seq<char>, b: Seq<char>, values: Map<Seq<char>, Seq<char>>, q: int)
    requires
        0 <= q <= b.len(),
    ensures
        resolve_from(p + b, values, p.len() + q) == resolve_from(b, values, q),
    decreases b.len() - q,
{
    let s = p + b;
    lemma_find_shift(p, b, '{', q);
    match find_from(b, '{', q) {
        None => {
            assert(s.subrange(p.len() + q, s.len() as int) =~= b.subrange(q, b.len() as int));
        },
        Some(i) => {
            lemma_find_from(b, '{', q);
            lemma_find_shift(p, b, '}', i);
            lemma_find_from(b, '}', i);
            match find_from(b, '}', i) {
                None => {},
                Some(j) => {
                    assert(s.subrange(p.len() + i + 1, p.len() + j) =~= b.subrange(i + 1, j));
                    assert(s.subrange(p.len() + q, p.len() + i) =~= b.subrange(q, i));
                    if q <= i < j < b.len() {
                        lemma_resolve_shift(p, b, values, j + 1);
                    }
                },
            }
        },
    }
}

/// A path without `{` resolves to itself.
pub proof fn paths_without_placeholders_stay(a: Seq<char>, values: Map<Seq<char>, Seq<char>>)
    requires
        !a.contains('{'),
    ensures
        resolve_from(a, values, 0) == Ok::<Seq<char>, ResolveFailure>(a),
{
    lemma_find_from(a, '{', 0);
    if find_from(a, '{', 0) is Some {
        let i = find_from(a, '{', 0)->0;
        assert(a[i] == '{');
    }
    assert(a.subrange(0, a.len() as int) =~= a);
}

/// Placeholders are replaced in turn: text before the first `{` is kept, the first
/// `{name}` becomes the value of `name`, and the rest of the path is resolved the same
/// way on its own (what a value holds is not read again).
pub proof fn placeholders_resolve_in_turn(a: Seq<char>, name: Seq<char>, b: Seq<char>, values: Map<Seq<char>, Seq<char>>)
    requires
        !a.contains('{'),
        !name.contains('}'),
        values.contains_key(name),
    ensures
        resolve_from(a + seq!['{'] + name + seq!['}'] + b, values, 0) == match resolve_from(b, values, 0) {
            Ok(r) => Ok(a + values[name] + r),
            Err(e) => Err(e),
        },
{
    let p = a + seq!['{'] + name + seq!['}'];
    let s = p + b;
    assert(a + seq!['{'] + name + seq!['}'] + b == s);
    let i = a.len() as int;
    let j: int = (a.len() + 1 + name.len()) as int;
    assert(s[i] == '{');
    assert(s[j] == '}');
    lemma_find_from(s, '{', 0);
    match find_from(s, '{', 0) {
        Some(k) => {
            if k < i {
                assert(s[k] == a[k]);
            }
        },
        None => {},
    }
    assert(find_from(s, '{', 0) == Some(i));
    lemma_find_from(s, '}', i);
    match find_from(s, '}', i) {
        Some(k) => {
            if k < j {
                if k > i {
                    assert(s[k] == name[k - i - 1]);
                }
            }
        },
        None => {},
    }
    assert(find_from(s, '}', i) == Some(j));
    assert(s.subrange(i + 1, j) =~= name);
    assert(s.subrange(0, i) =~= a);
    lemma_resolve_shift(p, b, values, 0);
    assert(p.len() == j + 1);
}

/// The placeholder names of `s` from position `pos` on, in order; scanning stops
/// at a `{` that no `}` follows.
pub open spec fn placeholders_from(s: Seq<char>, pos: int) -> Seq<Seq<char>>
    decreases s.len() - pos,
{
    if pos < 0 || pos > s.len() {
        Seq::empty()
    } else {
        match find_from(s, '{', pos) {
            None => Seq::empty(),
            Some(i) => match find_from(s, '}', i) {
                None => Seq::empty(),
                Some(j) => if !(pos <= i < j < s.len()) {
                    Seq::empty()
                } else {
                    seq![s.subrange(i + 1, j)] + placeholders_from(s, j + 1)
                },
            },
        }
    }
}

/// The message of the error for a missing placeholder value.
pub open spec fn missing_value_message(name: Seq<char>) -> Seq<char> {
    "Missing placeholder value for '"@ + name + "'"@
}

/// The message of the error for a `{` without a closing `}`.
pub open spec fn unclosed_message() -> Seq<char> {
    "Unclosed placeholder brace"@
}

/// A validated settings path: UTF-8 text in which `{name}` marks a placeholder.
#[derive(Debug, Clone, PartialEq, Eq, Hash)]
pub struct SettingsPath {
    inner: String,
}

impl View for SettingsPath {
    type V = Seq<char>;

    closed spec fn view(&self) -> Seq<char> {
        self.inner@
    }
}

/// The last position of `c` in `s`.
pub open spec fn last_index_of(s: Seq<char>, c: char) -> Option<int>
    decreases s.len(),
{
    if s.len() == 0 {
        None
    } else if s.last() == c {
        Some(s.len() - 1)
    } else {
        last_index_of(s.drop_last(), c)
    }
}

/// A relative path of plain names: not empty, without `\` or `:`, and every piece
/// between `/`s a non-empty name other than `.` and `..` (so no leading, trailing or
/// doubled `/`). Such a path reads the same on every platform.
pub open spec fn plain_path(p: Seq<char>) -> bool {
    &&& p.len() > 0
    &&& !p.contains('\\')
    &&& !p.contains(':')
    &&& forall|i: int| 0 <= i < split_on(p, '/').len() ==> {
        let name = #[trigger] split_on(p, '/')[i];
        name.len() > 0 && name != "."@ && name != ".."@
    }
}

/// The file name of a plain path: its last piece.
pub open spec fn file_name_of(p: Seq<char>) -> Seq<char> {
    split_on(p, '/').last()
}

/// The extension of a file name: what follows its last `.`, unless it has no `.` or
/// its only `.` is its first character.
pub open spec fn name_extension(name: Seq<char>) -> Option<Seq<char>> {
    match last_index_of(name, '.') {
        Some(i) => if i > 0 { Some(name.skip(i + 1)) } else { None },
        None => None,
    }
}

/// The parent of a plain path: the text before its last `/`, or nothing for a single name.
pub open spec fn parent_of(p: Seq<char>) -> Seq<char> {
    match last_index_of(p, '/') {
        Some(i) => p.take(i),
        None => Seq::empty(),
    }
}

/// The text of a `camino` path's extension, if it has one (`Utf8Path::extension`).
///
/// As camino documents it, this is the part of the file name (the final component)
/// after its last `.`, with none when the name has no `.` or begins with its only `.`.
/// Which part is the final component depends on the platform's separators, so the
/// result is stated for [`plain_path`]s, which read the same everywhere; of any
/// other path the contract states only that the extension holds no `.`.
#[verifier::external_body]
fn camino_extension(path: &str) -> (r: Option<&str>)
    ensures
        r matches Some(e) ==> !e@.contains('.'),
        plain_path(path@) ==> match name_extension(file_name_of(path@)) {
            Some(e) => r matches Some(x) && x@ == e,
            None => r is None,
        },
{
    camino::Utf8Path::new(path).extension()
}

/// The text of a `camino` path's parent directory, if it has one (`Utf8Path::parent`).
///
/// As camino documents it, this is the path without its final component. Which part
/// is the final component depends on the platform's separators, so the result is
/// stated for [`plain_path`]s (the text before the last `/`, or the empty path for a
/// single name); of any other path the contract states only that the parent is a
/// prefix of the path and that the empty path has none.
#[verifier::external_body]
fn camino_parent(path: &str) -> (r: Option<String>)
    ensures
        r matches Some(p) ==> p@.is_prefix_of(path@),
        path@.len() == 0 ==> r is None,
        plain_path(path@) ==> r is Some && r.unwrap()@ == parent_of(path@),
{
    camino::Utf8Path::new(path).parent().map(|p| p.as_str().to_string())
}

/// Joining `other` to `base` where `sep` is the platform's path separator: `other`
/// alone when `base` is empty or `other` begins with `/`; otherwise `base`, the
/// separator, then `other`.
pub open spec fn join_with(base: Seq<char>, other: Seq<char>, sep: char) -> Seq<char> {
    if base.len() == 0 || (other.len() > 0 && other[0] == '/') {
        other
    } else {
        base + seq![sep] + other
    }
}

/// A join that reads the same on every platform up to the separator: the base is empty
/// or a [`plain_path`], and `other` holds no `\` and no `:` (so neither names a drive,
/// a share or a verbatim prefix).
pub open spec fn portable_join(base: Seq<char>, other: Seq<char>) -> bool {
    &&& (base.len() == 0 || plain_path(base))
    &&& !other.contains('\\')
    &&& !other.contains(':')
}

/// The text of `Utf8Path::join(path, other)`, which pushes `other` onto the path as
/// `std::path::PathBuf::push` documents it: a path with a root replaces the base, and a
/// relative one is appended after the platform's separator (`/`, or `\` on Windows),
/// none being added to an empty base. For a [`portable_join`] the contract states that
/// result, with either separator; of other inputs, where prefixes and verbatim
/// paths make the result differ between platforms, it states nothing.
#[verifier::external_body]
pub(crate) fn camino_join(path: &str, other: &str) -> (r: String)
    ensures
        portable_join(path@, other@) ==> (r@ == join_with(path@, other@, '/') || r@ == join_with(path@, other@, '\\')),
{
    camino::Utf8Path::new(path).join(other).as_str().to_string()
}

impl SettingsPath {
    /// Creates a settings path from its text; a `&str` is always valid UTF-8, so this succeeds.
    pub fn new(path: &str) -> (r: Result<Self, SettingsError>)
        ensures
            r matches Ok(p) && p@ == path@,
    {
        Ok(SettingsPath { inner: to_owned_string(path) })
    }

    /// Returns the path as a string slice.
    pub fn as_str(&self) -> (r: &str)
        ensures
            r@ == self@,
    {
        self.inner.as_str()
    }

    /// Returns the file extension, if any: for a [`plain_path`], what follows the last
    /// `.` of its file name (none when the name has no `.` or begins with its only `.`).
    pub fn extension(&self) -> (r: Option<&str>)
        ensures
            r matches Some(e) ==> !e@.contains('.'),
            plain_path(self@) ==> match name_extension(file_name_of(self@)) {
                Some(e) => r matches Some(x) && x@ == e,
                None => r is None,
            },
    {
        camino_extension(self.inner.as_str())
    }

    /// Returns the parent directory, if any: for a [`plain_path`], the text before its
    /// last `/` (the empty path for a single name).
    pub fn parent(&self) -> (r: Option<SettingsPath>)
        ensures
            r matches Some(p) ==> p@.is_prefix_of(self@),
            self@.len() == 0 ==> r is None,
            plain_path(self@) ==> (r matches Some(p) && p@ == parent_of(self@)),
    {
        match camino_parent(self.inner.as_str()) {
            Some(p) => Some(SettingsPath { inner: p }),
            None => None,
        }
    }

    /// Joins another path component to this path (`Utf8Path::join`): for a
    /// [`portable_join`], `path` alone when this path is empty or `path` begins with `/`,
    /// else this path, the platform's separator and `path`.
    pub fn join(&self, path: &str) -> (r: Self)
        ensures
            portable_join(self@, path@) ==> (r@ == join_with(self@, path@, '/') || r@ == join_with(self@, path@, '\\')),
    {
        SettingsPath { inner: camino_join(self.inner.as_str(), path) }
    }

    /// Resolves placeholders in the path using the provided values: every `{name}`
    /// is replaced by the value of `name`. Fails with `PathResolution` when a name
    /// has no value or a `{` is never closed.
    pub fn resolve_placeholders(&self, values: &PlaceholderValues) -> (r: Result<Self, SettingsError>)
        ensures
            match resolve_from(self@, values.as_map(), 0) {
                Ok(s) => r matches Ok(p) && p@ == s,
                Err(ResolveFailure::Unclosed) => r matches Err(SettingsError::PathResolution(m)) && m@ == unclosed_message(),
                Err(ResolveFailure::Missing(name)) => r matches Err(SettingsError::PathResolution(m))
                    && m@ == missing_value_message(name),
            },
    {
        let s = self.inner.as_str();
        let n = s.unicode_len();
        let mut out = String::new();
        let mut pos: usize = 0;
        let ghost map = values.as_map();
        loop
            invariant
                n == s@.len(),
                s@ == self@,
                map == values.as_map(),
                pos <= n,
                resolve_from(s@, map, 0) == match resolve_from(s@, map, pos as int) {
                    Ok(rest) => Ok(out@ + rest),
                    Err(e) => Err(e),
                },
            decreases n - pos,
        {
            let open = find_char(s, '{', pos);
            proof { lemma_find_from(s@, '{', pos as int); }
            match open {
                None => {
                    let tail = substring(s, pos, n);
                    out.append(tail.as_str());
                    return Ok(SettingsPath { inner: out });
                },
                Some(i) => {
                    let close = find_char(s, '}', i);
                    proof { lemma_find_from(s@, '}', i as int); }
                    match close {
                        None => {
                            let msg = to_owned_string("Unclosed placeholder brace");
                            proof { reveal_strlit("Unclosed placeholder brace"); }
                            return Err(SettingsError::PathResolution(msg));
                        },
                        Some(j) => {
                            let name = substring(s, i + 1, j);
                            match values.get(name.as_str()) {
                                None => {
                                    let mut msg = to_owned_string("Missing placeholder value for '");
                                    msg.append(name.as_str());
                                    msg.append("'");
                                    proof {
                                        reveal_strlit("Missing placeholder value for '");
                                        reveal_strlit("'");
                                    }
                                    return Err(SettingsError::PathResolution(msg));
                                },
                                Some(v) => {
                                    let before = substring(s, pos, i);
                                    let ghost old_out = out@;
                                    out.append(before.as_str());
                                    out.append(v.as_str());
                                    proof {
                                        assert(out@ == old_out + s@.subrange(pos as int, i as int) + map[name@]);
                                        match resolve_from(s@, map, j + 1) {
                                            Ok(rest) => {
                                                assert(old_out + (s@.subrange(pos as int, i as int) + map[name@] + rest)
                                                    == out@ + rest);
                                            },
                                            Err(e) => {},
                                        }
                                    }
                                    pos = j + 1;
                                },
                            }
                        },
                    }
                },
            }
        }
    }

    /// Checks if this path contains a `{` and a `}`.
    pub fn has_placeholders(&self) -> (r: bool)
        ensures
            r == (self@.contains('{') && self@.contains('}')),
    {
        contains_char(self.inner.as_str(), '{') && contains_char(self.inner.as_str(), '}')
    }

    /// Extracts placeholder names from the path, in order.
    pub fn extract_placeholders(&self) -> (r: Vec<String>)
        ensures
            r@.map_values(|x: String| x@) == placeholders_from(self@, 0),
    {
        let s = self.inner.as_str();
        let n = s.unicode_len();
        let mut out: Vec<String> = Vec::new();
        let mut pos: usize = 0;
        loop
            invariant
                n == s@.len(),
                s@ == self@,
                pos <= n,
                placeholders_from(s@, 0) == out@.map_values(|x: String| x@) + placeholders_from(s@, pos as int),
            decreases n - pos,
        {
            let open = find_char(s, '{', pos);
            proof { lemma_find_from(s@, '{', pos as int); }
            match open {
                None => {
                    proof { assert(out@.map_values(|x: String| x@) + Seq::<Seq<char>>::empty() == out@.map_values(|x: String| x@)); }
                    return out;
                },
                Some(i) => {
                    let close = find_char(s, '}', i);
                    proof { lemma_find_from(s@, '}', i as int); }
                    match close {
                        None => {
                            proof { assert(out@.map_values(|x: String| x@) + Seq::<Seq<char>>::empty() == out@.map_values(|x: String| x@)); }
                            return out;
                        },
                        Some(j) => {
                            let name = substring(s, i + 1, j);
                            let ghost before = out@.map_values(|x: String| x@);
                            out.push(name);
                            proof {
                                assert(out@.map_values(|x: String| x@) == before.push(s@.subrange(i + 1, j as int)));
                                assert(before + (seq![s@.subrange(i + 1, j as int)] + placeholders_from(s@, j + 1))
                                    == out@.map_values(|x: String| x@) + placeholders_from(s@, j + 1));
                            }
                            pos = j + 1;
                        },
                    }
                },
            }
        }
    }
}

/// The message of the error for a placeholder that a context cannot resolve.
pub open spec fn cannot_resolve_message(name: Seq<char>) -> Seq<char> {
    "Cannot resolve placeholder '"@ + name + "'"@
}

/// The first name in `names` that `lookup` has no value for.
pub open spec fn first_unresolved(names: Seq<Seq<char>>, lookup: spec_fn(Seq<char>) -> Option<Seq<char>>) -> Option<Seq<char>>
    decreases names.len(),
{
    if names.len() == 0 {
        None
    } else if lookup(names[0]) is None {
        Some(names[0])
    } else {
        first_unresolved(names.drop_first(), lookup)
    }
}

/// Types that provide values for the placeholders of dynamic settings paths.
pub trait PathContext: Sized {
    /// The value this context gives the placeholder `name`, if any.
    spec fn placeholder_value(&self, name: Seq<char>) -> Option<Seq<char>>;

    /// Resolves a single placeholder name to its value.
    fn resolve_placeholder(&self, name: &str) -> (r: Option<String>)
        ensures
            match r {
                Some(v) => self.placeholder_value(name@) == Some(v@),
                None => self.placeholder_value(name@) is None,
            };

    /// All placeholder values of this context: each name has the value
    /// [`PathContext::resolve_placeholder`] gives it, and no other name has one.
    fn to_map(&self) -> (r: PlaceholderValues)
        ensures
            forall|n: Seq<char>| #[trigger] r.lookup(n) == self.placeholder_value(n);

    /// Resolves all placeholders in a path template: a template in which no
    /// placeholder is found comes back as it is; otherwise this fails with
    /// `PathResolution` naming the first placeholder (in order) that this context has
    /// no value for, and else replaces each placeholder by its value.
    fn resolve_path(&self, template: &str) -> (r: Result<SettingsPath, SettingsError>)
        ensures
            placeholders_from(template@, 0).len() == 0 ==> (r matches Ok(p) && p@ == template@),
            placeholders_from(template@, 0).len() > 0 ==> match first_unresolved(placeholders_from(template@, 0), |n: Seq<char>| self.placeholder_value(n)) {
                Some(name) => r matches Err(SettingsError::PathResolution(m)) && m@ == cannot_resolve_message(name),
                None => match resolve_from(template@, Map::new(|n: Seq<char>| self.placeholder_value(n) is Some, |n: Seq<char>| self.placeholder_value(n).unwrap()), 0) {
                    Ok(s) => r matches Ok(p) && p@ == s,
                    Err(ResolveFailure::Unclosed) => r matches Err(SettingsError::PathResolution(m)) && m@ == unclosed_message(),
                    Err(ResolveFailure::Missing(name)) => r matches Err(SettingsError::PathResolution(m))
                        && m@ == missing_value_message(name),
                },
            },
    {
        let path = SettingsPath { inner: to_owned_string(template) };
        let names = path.extract_placeholders();
        if names.len() == 0 {
            return Ok(path);
        }
        let ghost lookup = |n: Seq<char>| self.placeholder_value(n);
        let ghost all = names@.map_values(|x: String| x@);
        let mut values = PlaceholderValues::new();
        let mut k: usize = 0;
        proof {
            assert(all.skip(0) == all);
        }
        while k < names.len()
            invariant
                k <= names@.len(),
                all == names@.map_values(|x: String| x@),
                all == placeholders_from(template@, 0),
                lookup == (|n: Seq<char>| self.placeholder_value(n)),
                path@ == template@,
                first_unresolved(all, lookup) == first_unresolved(all.skip(k as int), lookup),
                forall|n: Seq<char>| #[trigger] values.lookup(n) is Some ==> values.lookup(n) == self.placeholder_value(n),
                forall|q: int| 0 <= q < k ==> #[trigger] values.lookup(all[q]) is Some,
            decreases names@.len() - k,
        {
            proof {
                assert(all.skip(k as int).drop_first() == all.skip(k + 1));
                assert(all.skip(k as int)[0] == names@[k as int]@);
            }
            match self.resolve_placeholder(names[k].as_str()) {
                Some(v) => {
                    let name = to_owned_string(names[k].as_str());
                    values.insert(name, v);
                },
                None => {
                    let mut msg = to_owned_string("Cannot resolve placeholder '");
                    msg.append(names[k].as_str());
                    msg.append("'");
                    proof {
                        reveal_strlit("Cannot resolve placeholder '");
                        reveal_strlit("'");
                    }
                    return Err(SettingsError::PathResolution(msg));
                },
            }
            k += 1;
        }
        proof {
            assert(all.skip(all.len() as int).len() == 0);
            let m1 = values.as_map();
            let m2 = Map::new(|n: Seq<char>| self.placeholder_value(n) is Some, |n: Seq<char>| self.placeholder_value(n).unwrap());
            lemma_resolve_agrees(template@, m1, m2, 0);
        }
        path.resolve_placeholders(&values)
    }
}

/// Resolution only looks up the placeholder names the template holds, so two
/// maps that agree on those names resolve the same.
pub proof fn lemma_resolve_agrees(s: Seq<char>, m1: Map<Seq<char>, Seq<char>>, m2: Map<Seq<char>, Seq<char>>, pos: int)
    requires
        forall|q: int| 0 <= q < placeholders_from(s, pos).len() ==> {
            let n = #[trigger] placeholders_from(s, pos)[q];
            m1.contains_key(n) && m2.contains_key(n) && m1[n] == m2[n]
        },
    ensures
        resolve_from(s, m1, pos) == resolve_from(s, m2, pos),
    decreases s.len() - pos,
{
    if pos < 0 || pos > s.len() {
    } else {
        match find_from(s, '{', pos) {
            None => {},
            Some(i) => match find_from(s, '}', i) {
                None => {},
                Some(j) => {
                    if pos <= i < j < s.len() {
                        let ps = placeholders_from(s, pos);
                        assert(ps[0] == s.subrange(i + 1, j));
                        assert forall|q: int| 0 <= q < placeholders_from(s, j + 1).len() implies {
                            let n = #[trigger] placeholders_from(s, j + 1)[q];
                            m1.contains_key(n) && m2.contains_key(n) && m1[n] == m2[n]
                        } by {
                            assert(ps[q + 1] == placeholders_from(s, j + 1)[q]);
                        }
                        lemma_resolve_agrees(s, m1, m2, j + 1);
                    }
                },
            },
        }
    }
}

impl PathContext for () {
    open spec fn placeholder_value(&self, name: Seq<char>) -> Option<Seq<char>> {
        None
    }

    fn resolve_placeholder(&self, _name: &str) -> (r: Option<String>) {
        None
    }

    fn to_map(&self) -> (r: PlaceholderValues) {
        PlaceholderValues::new()
    }
}

} // verus!
