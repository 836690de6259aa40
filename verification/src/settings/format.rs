use vstd::prelude::*;
use crate::settings::error::SettingsError;
use crate::settings::path::{file_name_of, name_extension, plain_path};
use crate::text::to_owned_string;

verus! {

/// TOML serialization format.
#[derive(Debug, Clone, Copy, PartialEq, Eq, Structural, Hash)]
pub enum Format {
    /// Tom's Obvious, Minimal Language (TOML)
    Toml,
}

/// The extension as `std::path::Path::extension` finds it, when it is valid UTF-8.
///
/// As std documents it, this is the part of the file name (the final component)
/// after its last `.`, with none when there is no file name, when the name has no
/// `.`, or when it begins with its only `.`. Which part is the final component
/// depends on the platform's separators, so the result is stated for
/// [`plain_path`]s, which read the same everywhere; of any other path the contract
/// states only that the extension holds no `.`.
#[verifier::external_body]
fn std_path_extension(path: &str) -> (r: Option<String>)
    ensures
        r matches Some(e) ==> !e@.contains('.'),
        plain_path(path@) ==> match name_extension(file_name_of(path@)) {
            Some(e) => r matches Some(x) && x@ == e,
            None => r is None,
        },
{
    std::path::Path::new(path).extension().and_then(|e| e.to_str()).map(|e| e.to_string())
}

/// True when `c` lowercases to `lower`, an ASCII lowercase letter: `c` is that
/// letter or its ASCII uppercase form (no other Unicode character lowercases to
/// `t`, `o`, `m` or `l`).
pub open spec fn lowercases_to(c: char, lower: char) -> bool {
    c == lower || c as int == lower as int - 32
}

/// True when the extension, lowercased, is `toml`.
pub open spec fn is_toml_ext(e: Seq<char>) -> bool {
    &&& e.len() == 4
    &&& lowercases_to(e[0], 't')
    &&& lowercases_to(e[1], 'o')
    &&& lowercases_to(e[2], 'm')
    &&& lowercases_to(e[3], 'l')
}

/// What [`Format::from_extension`] gives for a path and its extension: TOML for the
/// extension `toml` in any letter case, and otherwise the failure that carries the path.
pub open spec fn format_from_extension_spec(path: Seq<char>, ext: Option<Seq<char>>) -> Result<Format, Seq<char>> {
    match ext {
        Some(e) => if is_toml_ext(e) { Ok(Format::Toml) } else { Err(path) },
        None => Err(path),
    }
}

/// Relates a result of [`Format::from_extension`] to its specification: the format,
/// or `InvalidExtension` with the path.
pub open spec fn format_result_matches(r: Result<Format, SettingsError>, s: Result<Format, Seq<char>>) -> bool {
    match s {
        Ok(f) => r matches Ok(g) && g == f,
        Err(p) => r matches Err(SettingsError::InvalidExtension(m)) && m@ == p,
    }
}

fn char_lowercases_to(c: char, lower: char) -> (r: bool)
    requires
        'a' <= lower <= 'z',
    ensures
        r == lowercases_to(c, lower),
{
    c == lower || (c as u32) + 32 == (lower as u32)
}

impl Format {
    /// Returns the file extension for this format.
    pub fn extension(&self) -> (r: &'static str)
        ensures
            r@ == "toml"@,
    {
        "toml"
    }

    /// The format for a path whose extension is `ext` (`None` when it has none):
    /// TOML for the extension `toml` in any letter case; `InvalidExtension` with the
    /// path when there is no extension or it is not recognized.
    pub fn from_extension(path: &str, ext: Option<&str>) -> (r: Result<Format, SettingsError>)
        ensures
            format_result_matches(r, format_from_extension_spec(path@, match ext { Some(e) => Some(e@), None => None })),
    {
        match ext {
            None => Err(SettingsError::InvalidExtension(to_owned_string(path))),
            Some(e) => {
                if e.unicode_len() == 4 && char_lowercases_to(e.get_char(0), 't')
                    && char_lowercases_to(e.get_char(1), 'o') && char_lowercases_to(e.get_char(2), 'm')
                    && char_lowercases_to(e.get_char(3), 'l') {
                    Ok(Format::Toml)
                } else {
                    Err(SettingsError::InvalidExtension(to_owned_string(path)))
                }
            },
        }
    }

    /// Detects the format from a file path based on its extension, as
    /// [`Format::from_extension`] decides for the extension that `Path::extension` finds:
    /// for a [`plain_path`], the extension of its file name.
    pub fn from_path(path: &str) -> (r: Result<Format, SettingsError>)
        ensures
            plain_path(path@) ==> format_result_matches(
                r,
                format_from_extension_spec(path@, name_extension(file_name_of(path@))),
            ),
            !plain_path(path@) ==> exists|ext: Option<Seq<char>>|
                format_result_matches(r, #[trigger] format_from_extension_spec(path@, ext)),
    {
        let ext = std_path_extension(path);
        match ext {
            Some(e) => Format::from_extension(path, Some(e.as_str())),
            None => Format::from_extension(path, None),
        }
    }

    /// Returns true if this format supports delta storage; TOML always does.
    pub fn supports_delta(&self) -> (r: bool)
        ensures
            r,
    {
        true
    }
}

} // verus!
