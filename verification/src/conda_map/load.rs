//! Loading the mapping, and looking up names in it.

use crate::conda_map::envelope::{CacheEnvelope, EnvelopeView};
use crate::conda_map::error::{
    InvalidMappedName, InvalidMappedNameView, MappingError, MappingErrorView,
};
use crate::conda_map::refresh::{
    action_for, decide, Action, RefreshFailure, RefreshOutcome, RefreshResult,
};
use crate::names::{is_name, package_name};
use crate::table::{Table, TableView};
use crate::text::{chars_of, trim, trim_chars};
use vstd::prelude::*;
use vstd::string::*;

verus! {

/// How the mapping is loaded.
#[derive(Debug, Clone, Copy, PartialEq, Eq)]
pub struct LoadOptions {
    /// Use a mapping however old it is, and refresh it in the background.
    pub allow_stale_mapping: bool,
    /// Refresh the mapping before anything else.
    pub force_refresh: bool,
}

impl Default for LoadOptions {
    fn default() -> (r: Self)
        ensures
            r == (LoadOptions { allow_stale_mapping: false, force_refresh: false }),
    {
        LoadOptions { allow_stale_mapping: false, force_refresh: false }
    }
}

/// A loaded mapping, and whether it is being refreshed in the background.
#[derive(Debug)]
pub struct MappingHandle {
    map: Table<String>,
    pending: bool,
}

/// What a name is mapped to: itself where the mapping does not speak of it.
pub open spec fn mapped_name(map: TableView<Seq<char>>, name: Seq<char>) -> Result<
    Seq<char>,
    InvalidMappedNameView,
> {
    if !map.has(name) {
        Ok(name)
    } else if is_name(map.at(name)) {
        Ok(map.at(name))
    } else {
        Err(InvalidMappedNameView { pypi_name: name, conda_name: map.at(name) })
    }
}

impl MappingHandle {
    /// The mapping.
    pub closed spec fn mapping(&self) -> TableView<Seq<char>> {
        self.map.deep_view()
    }

    /// Whether it is being refreshed in the background.
    pub closed spec fn is_refreshing(&self) -> bool {
        self.pending
    }

    /// A handle to a mapping that is not being refreshed.
    pub fn from_map(map: Table<String>) -> (r: MappingHandle)
        ensures
            r.mapping() == map.deep_view(),
            !r.is_refreshing(),
    {
        MappingHandle { map, pending: false }
    }

    /// A handle to a mapping that is being refreshed in the background.
    pub fn refreshing(map: Table<String>) -> (r: MappingHandle)
        ensures
            r.mapping() == map.deep_view(),
            r.is_refreshing(),
    {
        MappingHandle { map, pending: true }
    }

    /// Whether the mapping is being refreshed in the background.
    pub fn pending(&self) -> (r: bool)
        ensures
            r == self.is_refreshing(),
    {
        self.pending
    }

    /// What a name is mapped to: itself where the mapping does not speak of
    /// it, and an error where it is mapped to what is no package name.
    pub fn get<'a>(&'a self, pypi_name: &'a str) -> (r: Result<&'a str, InvalidMappedName>)
        ensures
            match r {
                Ok(name) => mapped_name(self.mapping(), pypi_name@) == Ok::<
                    Seq<char>,
                    InvalidMappedNameView,
                >(name@),
                Err(error) => mapped_name(self.mapping(), pypi_name@) == Err::<
                    Seq<char>,
                    InvalidMappedNameView,
                >(error.deep_view()),
            },
    {
        match self.map.get(pypi_name) {
            None => Ok(pypi_name),
            Some(conda_name) => match package_name(conda_name.as_str()) {
                Ok(_) => Ok(conda_name.as_str()),
                Err(_) => Err(
                    InvalidMappedName {
                        pypi_name: pypi_name.to_owned(),
                        conda_name: conda_name.clone(),
                    },
                ),
            },
        }
    }

    /// What the refresh did, given what waiting for it gave: its outcome, or
    /// nothing where it was cut short.
    pub fn finish(self, joined: Option<RefreshOutcome>) -> (r: RefreshOutcome)
        ensures
            r == if !self.is_refreshing() {
                RefreshOutcome::NotNeeded
            } else {
                match joined {
                    Some(outcome) => outcome,
                    None => RefreshOutcome::CheckFailed,
                }
            },
    {
        if !self.pending {
            return RefreshOutcome::NotNeeded;
        }
        match joined {
            Some(outcome) => outcome,
            None => RefreshOutcome::CheckFailed,
        }
    }
}

/// Whether a URL to fetch the mapping from is configured.
pub open spec fn is_configured(url: Seq<char>) -> bool {
    trim(url).len() > 0
}

/// Whether a URL to fetch the mapping from is configured.
pub fn check_url(url: &str) -> (r: Result<(), MappingError>)
    ensures
        match r {
            Ok(_) => is_configured(url@),
            Err(error) => !is_configured(url@) && error is UrlNotConfigured,
        },
{
    let cs = chars_of(url);
    if trim_chars(&cs).len() == 0 {
        Err(MappingError::UrlNotConfigured)
    } else {
        Ok(())
    }
}

/// How to get at the mapping.
#[derive(Debug)]
pub enum LoadPlan {
    /// Use the handle; where it says so, refresh in the background.
    Use(MappingHandle),
    /// Refresh first.
    Refresh,
}

/// The mapping of an envelope, if there is one.
pub open spec fn cached_mapping(env: Option<EnvelopeView>) -> TableView<Seq<char>> {
    match env {
        Some(e) => e.mapping,
        None => TableView::empty(),
    }
}

fn take_mapping(current: Option<CacheEnvelope>) -> (r: Table<String>)
    ensures
        r.deep_view() == cached_mapping(current.deep_view()),
{
    match current {
        Some(env) => env.mapping,
        None => {
            let none = Table::new();
            assert(none.deep_view().items =~= Seq::<Seq<char>>::empty());
            none
        },
    }
}

/// Plans how to get at the mapping, given what is cached for the URL.
pub fn plan(current: Option<CacheEnvelope>, now: u64, options: LoadOptions) -> (r: LoadPlan)
    ensures
        match (
            action_for(
                current.deep_view(),
                now,
                options.allow_stale_mapping,
                options.force_refresh,
            ),
            r,
        ) {
            (Action::UseCached, LoadPlan::Use(handle)) => handle.mapping() == cached_mapping(
                current.deep_view(),
            ) && !handle.is_refreshing(),
            (Action::UseCachedAndRefreshInBackground, LoadPlan::Use(handle)) => handle.mapping()
                == cached_mapping(current.deep_view()) && handle.is_refreshing(),
            (Action::BlockingRefresh, LoadPlan::Refresh) => true,
            _ => false,
        },
{
    match decide(
        current.as_ref(),
        now,
        options.allow_stale_mapping,
        options.force_refresh,
    ) {
        Action::UseCached => LoadPlan::Use(MappingHandle::from_map(take_mapping(current))),
        Action::UseCachedAndRefreshInBackground => LoadPlan::Use(
            MappingHandle::refreshing(take_mapping(current)),
        ),
        Action::BlockingRefresh => LoadPlan::Refresh,
    }
}

/// The handle to what a refresh ended with, or why there is no mapping.
pub fn refreshed(result: RefreshResult) -> (r: Result<MappingHandle, MappingError>)
    ensures
        match (result, r) {
            (Ok((env, _)), Ok(handle)) => handle.mapping() == env.deep_view().mapping
                && !handle.is_refreshing(),
            (Err(RefreshFailure::LockFailed(message)), Err(error)) => error.deep_view()
                == MappingErrorView::Lock(message@),
            (Err(RefreshFailure::CheckFailed(inner)), Err(error)) => error.deep_view()
                == MappingErrorView::Fetch(inner.deep_view()),
            (Err(RefreshFailure::DownloadFailed(inner)), Err(error)) => error.deep_view()
                == MappingErrorView::Fetch(inner.deep_view()),
            _ => false,
        },
{
    match result {
        Ok((env, _)) => Ok(MappingHandle::from_map(env.mapping)),
        Err(RefreshFailure::LockFailed(message)) => Err(MappingError::Lock(message)),
        Err(RefreshFailure::CheckFailed(error)) => Err(MappingError::Fetch(error)),
        Err(RefreshFailure::DownloadFailed(error)) => Err(MappingError::Fetch(error)),
    }
}

/// A name is looked up as what the mapping has for it, as itself where the
/// mapping has nothing, and an error names both where what the mapping has
/// is no package name.
pub proof fn lookup_gives_the_entry(map: TableView<Seq<char>>, name: Seq<char>, i: int)
    requires
        map.wf(),
    ensures
        !map.keys.contains(name) ==> mapped_name(map, name) == Ok::<
            Seq<char>,
            InvalidMappedNameView,
        >(name),
        0 <= i < map.keys.len() && map.keys[i] == name && is_name(map.items[i]) ==> mapped_name(
            map,
            name,
        ) == Ok::<Seq<char>, InvalidMappedNameView>(map.items[i]),
        0 <= i < map.keys.len() && map.keys[i] == name && !is_name(map.items[i]) ==> mapped_name(
            map,
            name,
        ) == Err::<Seq<char>, InvalidMappedNameView>(
            InvalidMappedNameView { pypi_name: name, conda_name: map.items[i] },
        ),
{
    if 0 <= i < map.keys.len() && map.keys[i] == name {
        assert(map.keys.contains(name));
        assert(map.keys.index_of(name) == i);
    }
}

/// A URL is configured exactly where it is not white space alone.
pub proof fn configured_is_not_blank(url: Seq<char>)
    ensures
        is_configured(url) <==> exists|i: int|
            0 <= i < url.len() && !crate::text::is_space(#[trigger] url[i]),
{
    crate::text::trim_is_the_middle(url);
}

/// What is cached is the mapping of the envelope, and nothing without one.
pub proof fn envelope_gives_its_mapping(env: EnvelopeView)
    ensures
        cached_mapping(Some(env)) == env.mapping,
        cached_mapping(None).keys.len() == 0,
        cached_mapping(None).items.len() == 0,
{
}

} // verus!
