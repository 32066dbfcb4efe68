//! The cached mapping and what is known of how current it is.

use crate::data::Duplicate;
use crate::table::{Table, TableView};
use crate::text::same;
use vstd::prelude::*;
use vstd::string::*;

verus! {

/// The version of the shape of [`CacheEnvelope`].
pub const SCHEMA_VERSION: u16 = 2;

/// The cached mapping and what is known of it. Times are in seconds.
#[derive(Debug)]
pub struct CacheEnvelope {
    /// The version of the shape that it was stored in.
    pub schema_version: u16,
    /// Where the mapping was fetched from.
    pub url: String,
    /// What to ask for newer mappings by.
    pub etag: Option<String>,
    pub last_modified: Option<String>,
    /// When the mapping was downloaded.
    pub fetched_at: Option<u64>,
    /// When the mapping was last known to be current.
    pub last_checked_at: Option<u64>,
    /// Whether there is known to be a newer mapping.
    pub known_stale: bool,
    /// How many attempts have failed since the last that did not.
    pub consecutive_failures: u32,
    /// When the last attempt was made.
    pub last_attempt_at: Option<u64>,
    /// The mapping.
    pub mapping: Table<String>,
}

/// A cached mapping as mathematical values.
pub struct EnvelopeView {
    pub schema_version: u16,
    pub url: Seq<char>,
    pub etag: Option<Seq<char>>,
    pub last_modified: Option<Seq<char>>,
    pub fetched_at: Option<u64>,
    pub last_checked_at: Option<u64>,
    pub known_stale: bool,
    pub consecutive_failures: u32,
    pub last_attempt_at: Option<u64>,
    pub mapping: TableView<Seq<char>>,
}

impl DeepView for CacheEnvelope {
    type V = EnvelopeView;

    open spec fn deep_view(&self) -> EnvelopeView {
        EnvelopeView {
            schema_version: self.schema_version,
            url: self.url@,
            etag: self.etag.deep_view(),
            last_modified: self.last_modified.deep_view(),
            fetched_at: self.fetched_at,
            last_checked_at: self.last_checked_at,
            known_stale: self.known_stale,
            consecutive_failures: self.consecutive_failures,
            last_attempt_at: self.last_attempt_at,
            mapping: self.mapping.deep_view(),
        }
    }
}

impl Duplicate for CacheEnvelope {
    fn duplicate(&self) -> (r: Self) {
        CacheEnvelope {
            schema_version: self.schema_version,
            url: self.url.clone(),
            etag: self.etag.duplicate(),
            last_modified: self.last_modified.duplicate(),
            fetched_at: self.fetched_at,
            last_checked_at: self.last_checked_at,
            known_stale: self.known_stale,
            consecutive_failures: self.consecutive_failures,
            last_attempt_at: self.last_attempt_at,
            mapping: self.mapping.duplicate(),
        }
    }
}

impl EnvelopeView {
    /// An envelope without a mapping.
    pub open spec fn new_empty() -> EnvelopeView {
        EnvelopeView {
            schema_version: SCHEMA_VERSION,
            url: Seq::empty(),
            etag: None,
            last_modified: None,
            fetched_at: None,
            last_checked_at: None,
            known_stale: false,
            consecutive_failures: 0,
            last_attempt_at: None,
            mapping: TableView::empty(),
        }
    }
}

impl CacheEnvelope {
    /// An envelope without a mapping.
    pub fn new_empty() -> (r: CacheEnvelope)
        ensures
            r.deep_view() == EnvelopeView::new_empty(),
    {
        let r = CacheEnvelope {
            schema_version: SCHEMA_VERSION,
            url: String::new(),
            etag: None,
            last_modified: None,
            fetched_at: None,
            last_checked_at: None,
            known_stale: false,
            consecutive_failures: 0,
            last_attempt_at: None,
            mapping: Table::new(),
        };
        assert(r.mapping.deep_view().items =~= Seq::empty());
        r
    }

    /// The envelope, if it was stored in the current shape.
    pub fn of_current_schema(self) -> (r: Option<CacheEnvelope>)
        ensures
            r == if self.schema_version == SCHEMA_VERSION {
                Some(self)
            } else {
                None
            },
    {
        if self.schema_version == SCHEMA_VERSION {
            Some(self)
        } else {
            None
        }
    }

    /// The envelope, if its mapping was fetched from the given URL. One that
    /// was fetched from elsewhere is as good as none.
    pub fn for_url(self, url: &str) -> (r: Option<CacheEnvelope>)
        ensures
            r == if self.url@ == url@ {
                Some(self)
            } else {
                None
            },
    {
        if same(self.url.as_str(), url) {
            Some(self)
        } else {
            None
        }
    }
}

/// An envelope without a mapping has the current shape and nothing else.
pub proof fn empty_envelope_holds_nothing(e: EnvelopeView)
    ensures
        e == EnvelopeView::new_empty() ==> e.schema_version == 2 && e.url.len() == 0 && e.etag is None
            && e.last_modified is None && e.fetched_at is None && e.last_checked_at is None
            && !e.known_stale && e.consecutive_failures == 0 && e.last_attempt_at is None
            && e.mapping.keys.len() == 0 && e.mapping.items.len() == 0,
        SCHEMA_VERSION == 2,
{
}

/// What an envelope is seen as holds each of its parts.
pub proof fn envelope_view_holds_all(e: CacheEnvelope)
    ensures
        e.deep_view().schema_version == e.schema_version,
        e.deep_view().url == e.url@,
        e.deep_view().etag == e.etag.deep_view(),
        e.deep_view().last_modified == e.last_modified.deep_view(),
        e.deep_view().fetched_at == e.fetched_at,
        e.deep_view().last_checked_at == e.last_checked_at,
        e.deep_view().known_stale == e.known_stale,
        e.deep_view().consecutive_failures == e.consecutive_failures,
        e.deep_view().last_attempt_at == e.last_attempt_at,
        e.deep_view().mapping == e.mapping.deep_view(),
{
}

} // verus!
