//! The settings events: requests to save, load or reload a settings type (with an
//! optional path context), and the announcements of finished operations.

use vstd::prelude::*;
use std::marker::PhantomData;
use crate::settings::path::SettingsPath;

verus! {

/// A request to save the settings of type `T`, with an optional path context.
#[derive(Debug)]
pub struct SaveSettings<T, C> {
    context: Option<C>,
    _phantom: PhantomData<T>,
}

impl<T, C> SaveSettings<T, C> {
    /// The path context.
    pub closed spec fn context_spec(&self) -> Option<C> {
        self.context
    }

    /// A request without context.
    pub fn new() -> (r: Self)
        ensures
            r.context_spec() is None,
    {
        SaveSettings { context: None, _phantom: PhantomData }
    }

    /// A request with a path context.
    pub fn with_context(context: C) -> (r: Self)
        ensures
            r.context_spec() == Some(context),
    {
        SaveSettings { context: Some(context), _phantom: PhantomData }
    }

    /// The path context, if any.
    pub fn context(&self) -> (r: Option<&C>)
        ensures
            match r {
                Some(c) => self.context_spec() == Some(*c),
                None => self.context_spec() is None,
            },
    {
        self.context.as_ref()
    }

    /// True when the request has a context.
    pub fn has_context(&self) -> (r: bool)
        ensures
            r == self.context_spec() is Some,
    {
        self.context.is_some()
    }
}

/// A request to load the settings of type `T`, with an optional path context.
#[derive(Debug)]
pub struct LoadSettings<T, C> {
    context: Option<C>,
    _phantom: PhantomData<T>,
}

impl<T, C> LoadSettings<T, C> {
    /// The path context.
    pub closed spec fn context_spec(&self) -> Option<C> {
        self.context
    }

    /// A request without context.
    pub fn new() -> (r: Self)
        ensures
            r.context_spec() is None,
    {
        LoadSettings { context: None, _phantom: PhantomData }
    }

    /// A request with a path context.
    pub fn with_context(context: C) -> (r: Self)
        ensures
            r.context_spec() == Some(context),
    {
        LoadSettings { context: Some(context), _phantom: PhantomData }
    }

    /// The path context, if any.
    pub fn context(&self) -> (r: Option<&C>)
        ensures
            match r {
                Some(c) => self.context_spec() == Some(*c),
                None => self.context_spec() is None,
            },
    {
        self.context.as_ref()
    }

    /// True when the request has a context.
    pub fn has_context(&self) -> (r: bool)
        ensures
            r == self.context_spec() is Some,
    {
        self.context.is_some()
    }
}

/// A request to reload the settings of type `T`; a forced reload reloads even when
/// nothing seems to have changed.
#[derive(Debug)]
pub struct ReloadSettings<T, C> {
    context: Option<C>,
    force: bool,
    _phantom: PhantomData<T>,
}

impl<T, C> ReloadSettings<T, C> {
    /// The path context.
    pub closed spec fn context_spec(&self) -> Option<C> {
        self.context
    }

    /// Whether the reload is forced.
    pub closed spec fn forced_spec(&self) -> bool {
        self.force
    }

    /// A plain reload without context.
    pub fn new() -> (r: Self)
        ensures
            r.context_spec() is None && !r.forced_spec(),
    {
        ReloadSettings { context: None, force: false, _phantom: PhantomData }
    }

    /// A forced reload without context.
    pub fn forced() -> (r: Self)
        ensures
            r.context_spec() is None && r.forced_spec(),
    {
        ReloadSettings { context: None, force: true, _phantom: PhantomData }
    }

    /// A plain reload with a path context.
    pub fn with_context(context: C) -> (r: Self)
        ensures
            r.context_spec() == Some(context) && !r.forced_spec(),
    {
        ReloadSettings { context: Some(context), force: false, _phantom: PhantomData }
    }

    /// A forced reload with a path context.
    pub fn forced_with_context(context: C) -> (r: Self)
        ensures
            r.context_spec() == Some(context) && r.forced_spec(),
    {
        ReloadSettings { context: Some(context), force: true, _phantom: PhantomData }
    }

    /// The path context, if any.
    pub fn context(&self) -> (r: Option<&C>)
        ensures
            match r {
                Some(c) => self.context_spec() == Some(*c),
                None => self.context_spec() is None,
            },
    {
        self.context.as_ref()
    }

    /// Whether the reload is forced.
    pub fn is_forced(&self) -> (r: bool)
        ensures
            r == self.forced_spec(),
    {
        self.force
    }
}

/// Announces that settings of type `T` were loaded from `path`.
#[derive(Debug, Clone)]
pub struct SettingsLoaded<T> {
    pub settings: T,
    pub path: SettingsPath,
}

impl<T> SettingsLoaded<T> {
    /// The announcement for `settings` loaded from `path`.
    pub fn new(settings: T, path: SettingsPath) -> (r: Self)
        ensures
            r.settings == settings && r.path@ == path@,
    {
        SettingsLoaded { settings, path }
    }
}

/// Announces that settings of type `T` were saved to `path`.
#[derive(Debug)]
pub struct SettingsSaved<T> {
    pub path: SettingsPath,
    /// Marks the settings type.
    pub _phantom: PhantomData<T>,
}

impl<T> SettingsSaved<T> {
    /// The announcement for a save to `path`.
    pub fn new(path: SettingsPath) -> (r: Self)
        ensures
            r.path@ == path@,
    {
        SettingsSaved { path, _phantom: PhantomData }
    }
}

/// Announces that loading settings of type `T` from `path` failed.
#[derive(Debug)]
pub struct SettingsLoadFailed<T> {
    pub error_message: String,
    pub path: SettingsPath,
    /// Marks the settings type.
    pub _phantom: PhantomData<T>,
}

impl<T> SettingsLoadFailed<T> {
    /// The announcement of a failed load.
    pub fn new(error_message: String, path: SettingsPath) -> (r: Self)
        ensures
            r.error_message@ == error_message@ && r.path@ == path@,
    {
        SettingsLoadFailed { error_message, path, _phantom: PhantomData }
    }
}

/// Announces that saving settings of type `T` to `path` failed.
#[derive(Debug)]
pub struct SettingsSaveFailed<T> {
    pub error_message: String,
    pub path: SettingsPath,
    /// Marks the settings type.
    pub _phantom: PhantomData<T>,
}

impl<T> SettingsSaveFailed<T> {
    /// The announcement of a failed save.
    pub fn new(error_message: String, path: SettingsPath) -> (r: Self)
        ensures
            r.error_message@ == error_message@ && r.path@ == path@,
    {
        SettingsSaveFailed { error_message, path, _phantom: PhantomData }
    }
}

/// A request to save every registered settings type.
#[derive(Debug, Clone, Copy, Default)]
pub struct SaveAllSettings;

/// A request to load every registered settings type.
#[derive(Debug, Clone, Copy, Default)]
pub struct LoadAllSettings;

} // verus!
