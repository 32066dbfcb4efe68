//! What can go wrong when the mapping is fetched or looked up.

use crate::conda_map::http::{http_error_text, HttpError, HttpErrorView};
use crate::text::{concat, concat3, quoted, quoted_text};
use vstd::prelude::*;
use vstd::string::*;

verus! {

/// A name is mapped to what is no conda package name.
#[derive(Debug, Clone, PartialEq, Eq)]
pub struct InvalidMappedName {
    pub pypi_name: String,
    pub conda_name: String,
}

/// An invalid mapping as mathematical values.
pub struct InvalidMappedNameView {
    pub pypi_name: Seq<char>,
    pub conda_name: Seq<char>,
}

impl DeepView for InvalidMappedName {
    type V = InvalidMappedNameView;

    open spec fn deep_view(&self) -> InvalidMappedNameView {
        InvalidMappedNameView { pypi_name: self.pypi_name@, conda_name: self.conda_name@ }
    }
}

/// The message for an invalid mapping.
pub open spec fn invalid_mapped_name_text(e: InvalidMappedNameView) -> Seq<char> {
    "mapped conda name "@ + quoted_text(e.conda_name) + " for pypi package "@ + quoted_text(
        e.pypi_name,
    ) + " is not a valid conda package name"@
}

impl InvalidMappedName {
    /// The message of the error.
    pub fn to_string(&self) -> (r: String)
        ensures
            r@ == invalid_mapped_name_text(self.deep_view()),
    {
        let conda = quoted(self.conda_name.as_str());
        let pypi = quoted(self.pypi_name.as_str());
        let head = concat3("mapped conda name ", conda.as_str(), " for pypi package ");
        concat3(head.as_str(), pypi.as_str(), " is not a valid conda package name")
    }
}

/// Why the mapping could not be fetched.
#[derive(Debug, Clone, PartialEq, Eq)]
pub enum FetchError {
    /// The request failed.
    Http(HttpError),
    /// The response is no mapping, and why.
    Json(String),
}

/// Why the mapping could not be fetched, as mathematical values.
pub enum FetchErrorView {
    Http(HttpErrorView),
    Json(Seq<char>),
}

impl DeepView for FetchError {
    type V = FetchErrorView;

    open spec fn deep_view(&self) -> FetchErrorView {
        match self {
            FetchError::Http(error) => FetchErrorView::Http(error.deep_view()),
            FetchError::Json(message) => FetchErrorView::Json(message@),
        }
    }
}

/// The message of a failed fetch.
pub open spec fn fetch_error_text(e: FetchErrorView) -> Seq<char> {
    match e {
        FetchErrorView::Http(error) => "request failed: "@ + http_error_text(error),
        FetchErrorView::Json(message) => "failed to parse mapping response as JSON: "@ + message,
    }
}

impl FetchError {
    /// The message of the error.
    pub fn to_string(&self) -> (r: String)
        ensures
            r@ == fetch_error_text(self.deep_view()),
    {
        match self {
            FetchError::Http(error) => {
                let inner = error.to_string();
                concat("request failed: ", inner.as_str())
            },
            FetchError::Json(message) => concat(
                "failed to parse mapping response as JSON: ",
                message.as_str(),
            ),
        }
    }
}

/// Why there is no mapping.
#[derive(Debug, Clone, PartialEq, Eq)]
pub enum MappingError {
    /// No URL to fetch it from is configured.
    UrlNotConfigured,
    /// There is no cache directory.
    CacheDir,
    /// The cache lock could not be taken, and why.
    Lock(String),
    /// It could not be fetched.
    Fetch(FetchError),
}

/// Why there is no mapping, as mathematical values.
pub enum MappingErrorView {
    UrlNotConfigured,
    CacheDir,
    Lock(Seq<char>),
    Fetch(FetchErrorView),
}

impl DeepView for MappingError {
    type V = MappingErrorView;

    open spec fn deep_view(&self) -> MappingErrorView {
        match self {
            MappingError::UrlNotConfigured => MappingErrorView::UrlNotConfigured,
            MappingError::CacheDir => MappingErrorView::CacheDir,
            MappingError::Lock(message) => MappingErrorView::Lock(message@),
            MappingError::Fetch(error) => MappingErrorView::Fetch(error.deep_view()),
        }
    }
}

/// The message for a missing mapping.
pub open spec fn mapping_error_text(e: MappingErrorView) -> Seq<char> {
    match e {
        MappingErrorView::UrlNotConfigured =>
            "no pypi-to-conda mapping URL is configured; set pypi_to_conda_uri (see `ana config`)"@,
        MappingErrorView::CacheDir => "could not determine or create the ana cache directory"@,
        MappingErrorView::Lock(message) =>
            "could not acquire the ana-pypi-conda-map cache lock: "@ + message,
        MappingErrorView::Fetch(error) => "failed to download the pypi/conda name mapping: "@
            + fetch_error_text(error),
    }
}

impl MappingError {
    /// The message of the error.
    pub fn to_string(&self) -> (r: String)
        ensures
            r@ == mapping_error_text(self.deep_view()),
    {
        match self {
            MappingError::UrlNotConfigured =>
                "no pypi-to-conda mapping URL is configured; set pypi_to_conda_uri (see `ana config`)".to_owned(),
            MappingError::CacheDir =>
                "could not determine or create the ana cache directory".to_owned(),
            MappingError::Lock(message) => concat(
                "could not acquire the ana-pypi-conda-map cache lock: ",
                message.as_str(),
            ),
            MappingError::Fetch(error) => {
                let inner = error.to_string();
                concat("failed to download the pypi/conda name mapping: ", inner.as_str())
            },
        }
    }
}

/// Each failure says what failed and quotes the names that are at fault.
pub proof fn failures_say_why(
    mapped: InvalidMappedNameView,
    message: Seq<char>,
    http: HttpErrorView,
    fetch: FetchErrorView,
)
    ensures
        invalid_mapped_name_text(mapped) == "mapped conda name "@ + quoted_text(mapped.conda_name)
            + " for pypi package "@ + quoted_text(mapped.pypi_name)
            + " is not a valid conda package name"@,
        fetch_error_text(FetchErrorView::Http(http)) == "request failed: "@ + http_error_text(http),
        fetch_error_text(FetchErrorView::Json(message))
            == "failed to parse mapping response as JSON: "@ + message,
        mapping_error_text(MappingErrorView::UrlNotConfigured)
            == "no pypi-to-conda mapping URL is configured; set pypi_to_conda_uri (see `ana config`)"@,
        mapping_error_text(MappingErrorView::CacheDir)
            == "could not determine or create the ana cache directory"@,
        mapping_error_text(MappingErrorView::Lock(message))
            == "could not acquire the ana-pypi-conda-map cache lock: "@ + message,
        mapping_error_text(MappingErrorView::Fetch(fetch))
            == "failed to download the pypi/conda name mapping: "@ + fetch_error_text(fetch),
{
}

} // verus!
