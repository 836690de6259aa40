//! The `#[settings(..)]` attribute: where a settings type is stored, and the context
//! type that fills the placeholders of that path. The attribute's arguments come as
//! the tokens the compiler hands over; this module reads them.
//!
//! Two forms are accepted: key-value pairs, `path = "settings/audio.toml"` and
//! `context = SaveContext`, in either order, with other bare keys passed over; and the
//! older form, a string literal first, `"settings/audio.toml"`, optionally followed by
//! `, context = SaveContext`. A value is a string literal, a type path such as
//! `crate::SaveContext`, or a single other token.

use vstd::prelude::*;
use crate::settings::json::str_eq;
use crate::text::to_owned_string;

verus! {

/// One token of an attribute's arguments, as the compiler hands it over: a string
/// literal (its value), an identifier, a punctuation character, or anything else
/// (another literal, a bracketed group).
pub enum AttrToken {
    Str(String),
    Ident(String),
    Punct(char),
    Other,
}

/// An attribute on the type: its name and, when it has parentheses, the tokens in them.
pub struct AttributeText {
    pub name: String,
    pub args: Option<Vec<AttrToken>>,
}

/// What a `#[settings(..)]` attribute gives: the storage path, and the context type's
/// path if one is named.
pub struct SettingsAttributeText {
    pub path: String,
    pub context: Option<String>,
}

/// Why a `#[settings(..)]` attribute was refused.
#[derive(Debug, Clone, Copy, PartialEq, Eq, Structural)]
pub enum AttributeError {
    /// Neither form reads the arguments, or the older form names no path.
    InvalidSyntax,
    /// The key-value form read without a path, and the older form does not read them.
    InvalidLegacySyntax,
    /// The arguments read, but no path is given.
    MissingPath,
}

/// The path and the context read so far.
pub type AttrState = (Option<Seq<char>>, Option<Seq<char>>);

/// Token `i` is the punctuation `c`.
pub open spec fn is_punct(t: Seq<AttrToken>, i: int, c: char) -> bool {
    0 <= i < t.len() && (t[i] matches AttrToken::Punct(p) && p == c)
}

/// The identifier at token `i`, if it is one.
pub open spec fn ident_at(t: Seq<AttrToken>, i: int) -> Option<Seq<char>> {
    if 0 <= i < t.len() {
        match t[i] {
            AttrToken::Ident(s) => Some(s@),
            _ => None,
        }
    } else {
        None
    }
}

/// The tokens of the further segments of a path from token `j`: `::` and an
/// identifier, as often as they follow.
pub open spec fn path_tail_len(t: Seq<AttrToken>, j: int) -> nat
    decreases t.len() - j,
{
    if 0 <= j && j + 2 < t.len() && is_punct(t, j, ':') && is_punct(t, j + 1, ':') && ident_at(t, j + 2) is Some {
        3 + path_tail_len(t, j + 3)
    } else {
        0
    }
}

/// The text of those further segments, each with its `::`.
pub open spec fn path_tail_text(t: Seq<AttrToken>, j: int) -> Seq<char>
    decreases t.len() - j,
{
    if 0 <= j && j + 2 < t.len() && is_punct(t, j, ':') && is_punct(t, j + 1, ':') && ident_at(t, j + 2) is Some {
        "::"@ + ident_at(t, j + 2)->0 + path_tail_text(t, j + 3)
    } else {
        Seq::empty()
    }
}

/// The number of tokens of the path at token `i`: an identifier and its further
/// segments; 0 when no identifier is there.
pub open spec fn path_len(t: Seq<AttrToken>, i: int) -> nat {
    if ident_at(t, i) is Some { 1 + path_tail_len(t, i + 1) } else { 0 }
}

/// `true` and `false` are literals, not paths.
pub open spec fn is_bool_word(s: Seq<char>) -> bool {
    s == "true"@ || s == "false"@
}

/// The number of tokens of the value at token `i`: a type path, or a single string
/// literal, boolean or other token; 0 when no value starts there.
pub open spec fn expr_len(t: Seq<AttrToken>, i: int) -> nat {
    if 0 <= i < t.len() {
        match t[i] {
            AttrToken::Ident(s) => if is_bool_word(s@) { 1 } else { path_len(t, i) },
            AttrToken::Str(_) => 1,
            AttrToken::Other => 1,
            AttrToken::Punct(_) => 0,
        }
    } else {
        0
    }
}

/// The value at token `i` as a string literal, if it is one.
pub open spec fn expr_str(t: Seq<AttrToken>, i: int) -> Option<Seq<char>> {
    if 0 <= i < t.len() {
        match t[i] {
            AttrToken::Str(s) => Some(s@),
            _ => None,
        }
    } else {
        None
    }
}

/// The value at token `i` as a type path, if it is one.
pub open spec fn expr_path(t: Seq<AttrToken>, i: int) -> Option<Seq<char>> {
    match ident_at(t, i) {
        Some(s) => if is_bool_word(s) { None } else { Some(s + path_tail_text(t, i + 1)) },
        None => None,
    }
}

/// Reading key-value pairs from token `i` on, with `st` read before: whether they read,
/// and what was read (as far as it got). Each pair is a path, and for `path` and
/// `context` a `=` and a value; pairs are separated by `,`, a trailing one allowed.
pub open spec fn nested_meta(t: Seq<AttrToken>, i: int, st: AttrState) -> (bool, AttrState)
    decreases t.len() - i,
{
    if i < 0 || i >= t.len() {
        (true, st)
    } else {
        let pl = path_len(t, i);
        let j = i + pl;
        let name = if pl == 1 { ident_at(t, i) } else { None };
        let keyed = name == Some("path"@) || name == Some("context"@);
        let e = expr_len(t, j + 1);
        if pl == 0 || (keyed && !(is_punct(t, j, '=') && e > 0)) {
            (false, st)
        } else {
            let k = if keyed { j + 1 + e } else { j };
            let st2 = if name == Some("path"@) {
                (if expr_str(t, j + 1) is Some { expr_str(t, j + 1) } else { st.0 }, st.1)
            } else if name == Some("context"@) {
                (st.0, if expr_path(t, j + 1) is Some { expr_path(t, j + 1) } else { st.1 })
            } else {
                st
            };
            if k >= t.len() {
                (true, st2)
            } else if is_punct(t, k, ',') {
                if k + 1 >= t.len() {
                    (true, st2)
                } else {
                    nested_meta(t, k + 1, st2)
                }
            } else {
                (false, st2)
            }
        }
    }
}

/// Reading the older form, with `st` read before: a string literal or an identifier
/// (for `path`, followed by `=` and a string literal), then optionally `,`, an
/// identifier and, for `context`, `=` and a value; nothing may follow.
pub open spec fn legacy_form(t: Seq<AttrToken>, st: AttrState) -> (bool, AttrState) {
    let first = if expr_str(t, 0) is Some {
        (true, 1int, (expr_str(t, 0), st.1))
    } else if ident_at(t, 0) == Some("path"@) {
        if is_punct(t, 1, '=') && expr_str(t, 2) is Some {
            (true, 3int, (expr_str(t, 2), st.1))
        } else {
            (false, 0int, st)
        }
    } else if ident_at(t, 0) is Some {
        (true, 1int, st)
    } else {
        (false, 0int, st)
    };
    let (ok1, i1, st1) = first;
    if !ok1 {
        (false, st)
    } else if is_punct(t, i1, ',') {
        let i2 = i1 + 1;
        if ident_at(t, i2) is None {
            (false, st1)
        } else if ident_at(t, i2) == Some("context"@) {
            let e = expr_len(t, i2 + 2);
            if is_punct(t, i2 + 1, '=') && e > 0 {
                let st2 = (st1.0, if expr_path(t, i2 + 2) is Some { expr_path(t, i2 + 2) } else { st1.1 });
                (i2 + 2 + e == t.len(), st2)
            } else {
                (false, st1)
            }
        } else {
            (i2 + 1 == t.len(), st1)
        }
    } else {
        (i1 == t.len(), st1)
    }
}

/// What the arguments of a `#[settings]` attribute give: the key-value form is read
/// first; when it does not read, the older form is read in its place, and when it reads
/// without a path, the older form is read after it. Without parentheses nothing reads.
pub open spec fn settings_args_spec(args: Option<Seq<AttrToken>>) -> Result<(Seq<char>, Option<Seq<char>>), AttributeError> {
    match args {
        None => Err(AttributeError::InvalidSyntax),
        Some(t) => {
            let (ok1, st1) = nested_meta(t, 0, (None, None));
            if !ok1 {
                let (ok2, st2) = legacy_form(t, st1);
                if !ok2 || st2.0 is None {
                    Err(AttributeError::InvalidSyntax)
                } else {
                    Ok((st2.0->0, st2.1))
                }
            } else if st1.0 is Some {
                Ok((st1.0->0, st1.1))
            } else {
                let (ok3, st3) = legacy_form(t, st1);
                if !ok3 {
                    Err(AttributeError::InvalidLegacySyntax)
                } else if st3.0 is None {
                    Err(AttributeError::MissingPath)
                } else {
                    Ok((st3.0->0, st3.1))
                }
            }
        },
    }
}

/// The names and arguments of attributes.
pub open spec fn attrs_view(attrs: Seq<AttributeText>) -> Seq<(Seq<char>, Option<Seq<AttrToken>>)> {
    attrs.map_values(|a: AttributeText| (a.name@, match a.args { Some(v) => Some(v@), None => None }))
}

/// What the attributes of a settings type give: nothing without a `settings`
/// attribute, else what the first one's arguments give.
pub open spec fn settings_attribute_spec(attrs: Seq<(Seq<char>, Option<Seq<AttrToken>>)>) -> Option<Result<(Seq<char>, Option<Seq<char>>), AttributeError>>
    decreases attrs.len(),
{
    if attrs.len() == 0 {
        None
    } else if attrs[0].0 == "settings"@ {
        Some(settings_args_spec(attrs[0].1))
    } else {
        settings_attribute_spec(attrs.drop_first())
    }
}

/// The further segments of a path take no more tokens than there are.
proof fn lemma_path_tail_bound(t: Seq<AttrToken>, j: int)
    requires
        0 <= j <= t.len(),
    ensures
        path_tail_len(t, j) <= t.len() - j,
    decreases t.len() - j,
{
    if 0 <= j && j + 2 < t.len() && is_punct(t, j, ':') && is_punct(t, j + 1, ':') && ident_at(t, j + 2) is Some {
        lemma_path_tail_bound(t, j + 3);
    }
}

/// A value takes no more tokens than there are from where it starts.
proof fn lemma_expr_bound(t: Seq<AttrToken>, i: int)
    requires
        0 <= i,
    ensures
        expr_len(t, i) <= if i < t.len() { t.len() - i } else { 0 },
        path_len(t, i) <= if i < t.len() { t.len() - i } else { 0 },
{
    if i < t.len() {
        lemma_path_tail_bound(t, i + 1);
    }
}

fn is_punct_exec(t: &Vec<AttrToken>, i: usize, c: char) -> (r: bool)
    ensures
        r == is_punct(t@, i as int, c),
{
    if i < t.len() {
        match &t[i] {
            AttrToken::Punct(p) => *p == c,
            _ => false,
        }
    } else {
        false
    }
}

fn ident_at_exec(t: &Vec<AttrToken>, i: usize) -> (r: Option<&String>)
    ensures
        match r {
            Some(s) => ident_at(t@, i as int) == Some(s@),
            None => ident_at(t@, i as int) is None,
        },
{
    if i < t.len() {
        match &t[i] {
            AttrToken::Ident(s) => Some(s),
            _ => None,
        }
    } else {
        None
    }
}

fn is_word(s: Option<&String>, w: &str) -> (r: bool)
    ensures
        r == (match s { Some(x) => x@ == w@, None => false }),
{
    match s {
        Some(x) => str_eq(x.as_str(), w),
        None => false,
    }
}

fn is_bool_word_exec(s: &String) -> (r: bool)
    ensures
        r == is_bool_word(s@),
{
    str_eq(s.as_str(), "true") || str_eq(s.as_str(), "false")
}

/// The path at token `i` (an identifier there): its token count and its text.
fn read_path(t: &Vec<AttrToken>, i: usize) -> (r: (usize, String))
    requires
        ident_at(t@, i as int) is Some,
    ensures
        r.0 == path_len(t@, i as int),
        r.1@ == ident_at(t@, i as int)->0 + path_tail_text(t@, i + 1),
{
    let first = ident_at_exec(t, i).unwrap();
    let n = t.len();
    assert(i < n);
    let mut text = to_owned_string(first.as_str());
    let mut j: usize = i + 1;
    while j < t.len() && t.len() - j > 2 && is_punct_exec(t, j, ':') && is_punct_exec(t, j + 1, ':')
        && ident_at_exec(t, j + 2).is_some()
        invariant
            i < j <= t@.len(),
            path_len(t@, i as int) == (j - i) + path_tail_len(t@, j as int),
            ident_at(t@, i as int)->0 + path_tail_text(t@, i + 1) == text@ + path_tail_text(t@, j as int),
        decreases t@.len() - j,
    {
        let seg = ident_at_exec(t, j + 2).unwrap();
        text.append("::");
        text.append(seg.as_str());
        proof {
            reveal_strlit("::");
        }
        j = j + 3;
    }
    (j - i, text)
}

/// The value at token `i`: its token count, and its text as a string literal or as a
/// type path when it is one.
fn read_value(t: &Vec<AttrToken>, i: usize) -> (r: (usize, Option<String>, Option<String>))
    ensures
        r.0 == expr_len(t@, i as int),
        match r.1 { Some(s) => expr_str(t@, i as int) == Some(s@), None => expr_str(t@, i as int) is None },
        match r.2 { Some(s) => expr_path(t@, i as int) == Some(s@), None => expr_path(t@, i as int) is None },
{
    if i >= t.len() {
        return (0, None, None);
    }
    match &t[i] {
        AttrToken::Ident(s) => {
            if is_bool_word_exec(s) {
                (1, None, None)
            } else {
                let (n, text) = read_path(t, i);
                (n, None, Some(text))
            }
        },
        AttrToken::Str(s) => (1, Some(to_owned_string(s.as_str())), None),
        AttrToken::Other => (1, None, None),
        AttrToken::Punct(_) => (0, None, None),
    }
}

/// A copy of an optional text.
fn copy_opt(s: &Option<String>) -> (r: Option<String>)
    ensures
        match s { Some(x) => r matches Some(y) && y@ == x@, None => r is None },
{
    match s {
        Some(x) => Some(to_owned_string(x.as_str())),
        None => None,
    }
}

/// The view of a path and context read so far.
pub open spec fn state_view(path: Option<String>, context: Option<String>) -> AttrState {
    (match path { Some(p) => Some(p@), None => None }, match context { Some(c) => Some(c@), None => None })
}

/// Reads the key-value form, updating `path` and `context`; true when it reads.
fn read_nested(t: &Vec<AttrToken>, path: &mut Option<String>, context: &mut Option<String>) -> (r: bool)
    ensures
        (r, state_view(*final(path), *final(context))) == nested_meta(t@, 0, state_view(*old(path), *old(context))),
{
    let ghost st0 = state_view(*path, *context);
    let mut i: usize = 0;
    loop
        invariant
            i <= t@.len(),
            st0 == state_view(*old(path), *old(context)),
            nested_meta(t@, 0, st0) == nested_meta(t@, i as int, state_view(*path, *context)),
        decreases t@.len() - i,
    {
        if i >= t.len() {
            return true;
        }
        let name = ident_at_exec(t, i);
        if name.is_none() {
            return false;
        }
        let (pl, _) = read_path(t, i);
        proof {
            lemma_expr_bound(t@, i as int);
        }
        let j = i + pl;
        let single = pl == 1;
        let is_path = single && is_word(name, "path");
        let is_context = single && is_word(name, "context");
        let k: usize;
        if is_path || is_context {
            if j >= t.len() {
                return false;
            }
            let (e, lit, tpath) = read_value(t, j + 1);
            proof {
                lemma_expr_bound(t@, j + 1);
            }
            if !(is_punct_exec(t, j, '=') && e > 0) {
                return false;
            }
            if is_path {
                if lit.is_some() {
                    *path = lit;
                }
            } else {
                if tpath.is_some() {
                    *context = tpath;
                }
            }
            k = j + 1 + e;
        } else {
            k = j;
        }
        if k >= t.len() {
            return true;
        }
        if !is_punct_exec(t, k, ',') {
            return false;
        }
        if k + 1 >= t.len() {
            return true;
        }
        i = k + 1;
    }
}

/// Reads the older form, updating `path` and `context`; true when it reads.
fn read_legacy(t: &Vec<AttrToken>, path: &mut Option<String>, context: &mut Option<String>) -> (r: bool)
    ensures
        r == legacy_form(t@, state_view(*old(path), *old(context))).0,
        r ==> state_view(*final(path), *final(context)) == legacy_form(t@, state_view(*old(path), *old(context))).1,
{
    let i1: usize;
    let (_, lit0, _) = read_value(t, 0);
    let first = ident_at_exec(t, 0);
    if lit0.is_some() {
        *path = lit0;
        i1 = 1;
    } else if is_word(first, "path") {
        let (_, lit2, _) = read_value(t, 2);
        if is_punct_exec(t, 1, '=') && lit2.is_some() {
            *path = lit2;
            i1 = 3;
        } else {
            return false;
        }
    } else if first.is_some() {
        i1 = 1;
    } else {
        return false;
    }
    if !is_punct_exec(t, i1, ',') {
        return i1 == t.len();
    }
    let i2 = i1 + 1;
    let second = ident_at_exec(t, i2);
    if second.is_none() {
        return false;
    }
    if is_word(second, "context") {
        let (e, _, tpath) = read_value(t, i2 + 2);
        proof {
            lemma_expr_bound(t@, i2 + 2);
        }
        if is_punct_exec(t, i2 + 1, '=') && e > 0 {
            if tpath.is_some() {
                *context = tpath;
            }
            e == t.len() - (i2 + 2)
        } else {
            false
        }
    } else {
        i2 + 1 == t.len()
    }
}

/// What the arguments of a `#[settings]` attribute give, as [`settings_args_spec`] states.
pub fn parse_settings_args(args: &Option<Vec<AttrToken>>) -> (r: Result<SettingsAttributeText, AttributeError>)
    ensures
        match settings_args_spec(match args { Some(v) => Some(v@), None => None }) {
            Ok((p, c)) => r matches Ok(a) && a.path@ == p && state_view(None, a.context).1 == c,
            Err(e) => r == Err::<SettingsAttributeText, AttributeError>(e),
        },
{
    let t = match args {
        Some(t) => t,
        None => {
            return Err(AttributeError::InvalidSyntax);
        },
    };
    let mut path: Option<String> = None;
    let mut context: Option<String> = None;
    let ok1 = read_nested(t, &mut path, &mut context);
    if !ok1 {
        let ok2 = read_legacy(t, &mut path, &mut context);
        if !ok2 {
            return Err(AttributeError::InvalidSyntax);
        }
        return match path {
            Some(p) => Ok(SettingsAttributeText { path: p, context }),
            None => Err(AttributeError::InvalidSyntax),
        };
    }
    if path.is_none() {
        let ok3 = read_legacy(t, &mut path, &mut context);
        if !ok3 {
            return Err(AttributeError::InvalidLegacySyntax);
        }
    }
    match path {
        Some(p) => Ok(SettingsAttributeText { path: p, context }),
        None => Err(AttributeError::MissingPath),
    }
}

/// The `#[settings(..)]` attribute among a type's attributes: `None` without one, else
/// what the first one's arguments give.
pub fn parse_settings_attribute(attrs: &[AttributeText]) -> (r: Result<Option<SettingsAttributeText>, AttributeError>)
    ensures
        match settings_attribute_spec(attrs_view(attrs@)) {
            None => r matches Ok(x) && x is None,
            Some(Ok((p, c))) => r matches Ok(Some(a)) && a.path@ == p && state_view(None, a.context).1 == c,
            Some(Err(e)) => r == Err::<Option<SettingsAttributeText>, AttributeError>(e),
        },
{
    let mut i: usize = 0;
    proof {
        assert(attrs_view(attrs@).skip(0) =~= attrs_view(attrs@));
    }
    while i < attrs.len()
        invariant
            i <= attrs@.len(),
            settings_attribute_spec(attrs_view(attrs@)) == settings_attribute_spec(attrs_view(attrs@).skip(i as int)),
        decreases attrs@.len() - i,
    {
        let ghost rest = attrs_view(attrs@).skip(i as int);
        proof {
            assert(rest[0] == attrs_view(attrs@)[i as int]);
            assert(rest.drop_first() =~= attrs_view(attrs@).skip(i + 1));
        }
        if str_eq(attrs[i].name.as_str(), "settings") {
            return match parse_settings_args(&attrs[i].args) {
                Ok(a) => Ok(Some(a)),
                Err(e) => Err(e),
            };
        }
        i += 1;
    }
    proof {
        assert(attrs_view(attrs@).skip(i as int).len() == 0);
    }
    Ok(None)
}

} // verus!
