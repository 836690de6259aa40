//! The decisions of loading and saving settings: where a file lives, what a failed load
//! falls back to, how a save edits an existing file, and which event a finished
//! operation raises.

use vstd::prelude::*;
use crate::edit::{
    bare, filled, lemma_bare_update, lemma_filled_bare, lemma_update_filled, toml_parse_error, toml_parsed, update_spec, value_outcome, path_keys, EditError,
    TomlEditor, TomlItem,
};
use crate::settings::error::SettingsError;
use crate::settings::path::{camino_join, join_with, portable_join, SettingsPath};
use crate::text::{split_char, split_on, to_owned_string};
use toml_edit::Value;

verus! {

/// Settings files under a base directory.
#[derive(Debug, Clone)]
pub struct AsyncFileStorage {
    base_path: String,
}

impl AsyncFileStorage {
    /// The base directory.
    pub closed spec fn base(&self) -> Seq<char> {
        self.base_path@
    }

    /// A storage under `base_path`.
    pub fn with_base_path(base_path: String) -> (r: AsyncFileStorage)
        ensures
            r.base() == base_path@,
    {
        AsyncFileStorage { base_path }
    }

    /// The base directory.
    pub fn base_path(&self) -> (r: &str)
        ensures
            r@ == self.base(),
    {
        self.base_path.as_str()
    }

    /// Where the file of `path` lives: the path joined to the base directory, as
    /// [`SettingsPath::join`] joins them.
    pub fn resolve_path(&self, path: &SettingsPath) -> (r: String)
        ensures
            portable_join(self.base(), path@) ==> (r@ == join_with(self.base(), path@, '/') || r@ == join_with(self.base(), path@, '\\')),
    {
        camino_join(self.base_path.as_str(), path.as_str())
    }
}

/// What a load comes to: the settings read, the defaults when the file does not exist,
/// or the error.
pub fn settle_load<T>(result: Result<T, SettingsError>, default: T) -> (r: Result<T, SettingsError>)
    ensures
        match result {
            Ok(t) => r == Ok::<T, SettingsError>(t),
            Err(SettingsError::NotFound(_)) => r == Ok::<T, SettingsError>(default),
            Err(e) => r == Err::<T, SettingsError>(e),
        },
{
    match result {
        Ok(t) => Ok(t),
        Err(SettingsError::NotFound(_)) => Ok(default),
        Err(e) => Err(e),
    }
}

/// How a save proceeds.
#[derive(Debug, Clone, Copy, PartialEq, Eq, Structural)]
pub enum SavePlan {
    /// Edit the existing file in place, field by field.
    EditExisting,
    /// Nothing changed: leave the file as it is.
    Unchanged,
    /// Write the whole file anew.
    FullWrite,
}

/// The plan of a save: an existing file that could be read is edited (or left when no
/// field changed); a file that does not exist, or could not be read, is written anew.
pub fn plan_save(file_exists: bool, read_ok: bool, changed_fields: usize) -> (r: SavePlan)
    ensures
        r == (if file_exists && read_ok {
            if changed_fields == 0 { SavePlan::Unchanged } else { SavePlan::EditExisting }
        } else {
            SavePlan::FullWrite
        }),
{
    if file_exists && read_ok {
        if changed_fields == 0 { SavePlan::Unchanged } else { SavePlan::EditExisting }
    } else {
        SavePlan::FullWrite
    }
}

/// The keys of the changes.
pub open spec fn change_keys(changed: Seq<(String, Result<Value, EditError>)>) -> Seq<Seq<char>> {
    changed.map_values(|e: (String, Result<Value, EditError>)| e.0@)
}

/// The keys of the failures.
pub open spec fn failure_keys(failed: Seq<(String, EditError)>) -> Seq<Seq<char>> {
    failed.map_values(|e: (String, EditError)| e.0@)
}

/// The keys at the positions that `marks` sets, in order.
pub open spec fn marked_keys(keys: Seq<Seq<char>>, marks: Seq<bool>) -> Seq<Seq<char>>
    decreases keys.len(),
{
    if keys.len() == 0 || marks.len() != keys.len() {
        seq![]
    } else {
        marked_keys(keys.drop_last(), marks.drop_last()) + if marks.last() {
            seq![keys.last()]
        } else {
            seq![]
        }
    }
}

/// Applying the changes in order to the items of a text: which of them fail (the key
/// path, the dotted path split at each `.`, cannot be set, or the value could not be
/// serialized), and the items afterwards, with each change that did not fail applied.
pub open spec fn apply_changes(items: TomlItem, cs: Seq<(String, Result<Value, EditError>)>) -> (Seq<bool>, TomlItem)
    decreases cs.len(),
{
    if cs.len() == 0 {
        (seq![], items)
    } else {
        let prev = apply_changes(items, cs.drop_last());
        match update_spec(prev.1, split_on(cs.last().0@, '.'), value_outcome(cs.last().1)) {
            Ok(n) => (prev.0.push(false), n),
            Err(_) => (prev.0.push(true), prev.1),
        }
    }
}

/// Updates each changed field of a TOML file in place, in order: the field's dotted
/// path, split at each `.`, is set to the new value. A field that cannot be set is
/// passed over and reported, with its error, in order; the others still apply. A
/// change whose new value could not be serialized always fails, and when every change
/// fails the text stays as it was. When the text parses and is [`filled`], the changes
/// that fail are those that [`apply_changes`] marks, and the new text reads back as the
/// items it gives, up to decoration and spans.
pub fn surgical_update(content: &mut String, changed: Vec<(String, Result<Value, EditError>)>) -> (r: Vec<(String, EditError)>)
    ensures
        exists|fails: Seq<bool>| {
            &&& fails.len() == changed@.len()
            &&& failure_keys(r@) == #[trigger] marked_keys(change_keys(changed@), fails)
            &&& forall|j: int| 0 <= j < changed@.len() && (#[trigger] changed@[j]).1 is Err ==> fails[j]
            &&& (forall|j: int| 0 <= j < fails.len() ==> #[trigger] fails[j]) ==> final(content)@ == old(content)@
        },
        changed@.len() == 0 ==> final(content)@ == old(content)@ && r@.len() == 0,
        toml_parse_error(old(content)@) is Some ==> failure_keys(r@) == change_keys(changed@)
            && final(content)@ == old(content)@,
        toml_parse_error(old(content)@) is None && filled(toml_parsed(old(content)@), true) ==> {
            &&& failure_keys(r@) == marked_keys(change_keys(changed@), apply_changes(toml_parsed(old(content)@), changed@).0)
            &&& toml_parse_error(final(content)@) is None
            &&& bare(toml_parsed(final(content)@)) == bare(apply_changes(toml_parsed(old(content)@), changed@).1)
        },
{
    let editor = TomlEditor::new();
    let mut failed: Vec<(String, EditError)> = Vec::new();
    let ghost orig = changed@;
    let mut changed = changed;
    let n = changed.len();
    let mut items: Vec<(String, Result<Value, EditError>)> = Vec::new();
    while changed.len() > 0
        invariant
            changed@.len() + items@.len() == n,
            n == orig.len(),
            changed@ == orig.take(changed@.len() as int),
            forall|i: int| 0 <= i < items@.len() ==> #[trigger] items@[i] == orig[n - 1 - i],
        decreases changed@.len(),
    {
        let item = changed.pop().unwrap();
        items.push(item);
        proof {
            assert(changed@ =~= orig.take(changed@.len() as int));
        }
    }
    let ghost mut fails: Seq<bool> = seq![];
    let ghost keys = change_keys(orig);
    while items.len() > 0
        invariant
            n == orig.len(),
            keys == change_keys(orig),
            fails.len() + items@.len() == n,
            forall|i: int| 0 <= i < items@.len() ==> #[trigger] items@[i] == orig[n - 1 - i],
            failure_keys(failed@) == marked_keys(keys.take(fails.len() as int), fails),
            forall|j: int| 0 <= j < fails.len() && (#[trigger] orig[j]).1 is Err ==> fails[j],
            (forall|j: int| 0 <= j < fails.len() ==> #[trigger] fails[j]) ==> content@ == old(content)@,
            toml_parse_error(old(content)@) is Some ==> content@ == old(content)@
                && failure_keys(failed@) == keys.take(fails.len() as int),
            toml_parse_error(old(content)@) is None && filled(toml_parsed(old(content)@), true) ==> {
                &&& toml_parse_error(content@) is None
                &&& fails == apply_changes(toml_parsed(old(content)@), orig.take(fails.len() as int)).0
                &&& bare(toml_parsed(content@)) == bare(apply_changes(toml_parsed(old(content)@), orig.take(fails.len() as int)).1)
                &&& filled(toml_parsed(content@), true)
            },
        decreases items@.len(),
    {
        let ghost k = fails.len() as int;
        let (path, value) = items.pop().unwrap();
        proof {
            assert(orig[k] == (path, value));
        }
        let parts = split_char(path.as_str(), '.');
        let mut keys_v: Vec<&str> = Vec::new();
        let mut i: usize = 0;
        while i < parts.len()
            invariant
                i <= parts@.len(),
                keys_v@.len() == i,
                forall|q: int| 0 <= q < i ==> (#[trigger] keys_v@[q])@ == parts@[q]@,
            decreases parts@.len() - i,
        {
            keys_v.push(parts[i].as_str());
            i += 1;
        }
        proof {
            crate::settings::delta::lemma_split_from_nonempty(path@, '.', 0);
            assert(path_keys(keys_v@) =~= split_on(path@, '.'));
            assert(orig.take(k + 1).drop_last() =~= orig.take(k));
            assert(orig.take(k + 1).last() == orig[k]);
        }
        let ghost before = content@;
        let ghost vo = value_outcome(value);
        let ghost sk = split_on(path@, '.');
        let ghost old_fails = fails;
        proof {
            if toml_parse_error(old(content)@) is None && filled(toml_parsed(old(content)@), true) {
                let a = apply_changes(toml_parsed(old(content)@), orig.take(k)).1;
                lemma_bare_update(toml_parsed(before), sk, vo);
                lemma_bare_update(a, sk, vo);
            }
        }
        let ghost old_failed = failed@;
        match editor.update_value(content, keys_v.as_slice(), value) {
            Ok(()) => {
                proof {
                    if toml_parse_error(before) is None && filled(toml_parsed(before), true) {
                        lemma_update_filled(toml_parsed(before), sk, vo);
                        let t = update_spec(toml_parsed(before), sk, vo)->Ok_0;
                        lemma_filled_bare(t, true);
                        lemma_filled_bare(t, false);
                        lemma_filled_bare(toml_parsed(content@), true);
                    }
                    fails = fails.push(false);
                    assert(failed@ == old_failed);
                }
            },
            Err(e) => {
                failed.push((path, e));
                proof {
                    fails = fails.push(true);
                    assert(content@ == before);
                    assert(failure_keys(failed@) =~= failure_keys(old_failed).push(path@));
                }
            },
        }
        proof {
            let ks = keys.take(k + 1);
            assert(ks.drop_last() =~= keys.take(k));
            assert(fails.drop_last() =~= old_fails);
            assert(ks.last() == orig[k].0@);
            assert(failure_keys(failed@) =~= marked_keys(ks, fails));
            if toml_parse_error(old(content)@) is Some {
                assert(failure_keys(failed@) =~= keys.take(k + 1));
            }
            if forall|j: int| 0 <= j < fails.len() ==> #[trigger] fails[j] {
                assert(fails[k]);
                assert forall|j: int| 0 <= j < old_fails.len() implies #[trigger] old_fails[j] by {
                    assert(fails[j] == old_fails[j]);
                }
                assert(before == old(content)@);
            }
        }
    }
    proof {
        assert(keys.take(n as int) =~= keys);
        assert(orig.take(n as int) =~= orig);
    }
    failed
}

/// What a finished settings operation raises.
#[derive(Debug, Clone, Copy, PartialEq, Eq, Structural)]
pub enum ResultAction {
    /// The path of the result is unusable: nothing but a log line.
    Skip,
    /// A save succeeded.
    EmitSaved,
    /// A save failed.
    EmitSaveFailed,
    /// A load succeeded: announce it, then store the settings.
    EmitLoadedThenInsert,
    /// A load failed.
    EmitLoadFailed,
}

/// The action for a finished operation: results with an unusable path are skipped;
/// saves and loads each raise their success or failure event.
pub fn result_action(path_valid: bool, is_save: bool, succeeded: bool) -> (r: ResultAction)
    ensures
        r == (if !path_valid {
            ResultAction::Skip
        } else if is_save {
            if succeeded { ResultAction::EmitSaved } else { ResultAction::EmitSaveFailed }
        } else {
            if succeeded { ResultAction::EmitLoadedThenInsert } else { ResultAction::EmitLoadFailed }
        }),
{
    if !path_valid {
        ResultAction::Skip
    } else if is_save {
        if succeeded { ResultAction::EmitSaved } else { ResultAction::EmitSaveFailed }
    } else {
        if succeeded { ResultAction::EmitLoadedThenInsert } else { ResultAction::EmitLoadFailed }
    }
}

} // verus!
