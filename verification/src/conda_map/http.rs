//! What an HTTP response means for the mapping, and how much of a response
//! body is taken in.

use crate::text::{concat, concat3, decimal, decimal_of};
use vstd::prelude::*;
use vstd::string::*;

verus! {

/// The most bytes of a response body that are taken in.
pub const MAX_RESPONSE_BODY_BYTES: u64 = 52_428_800;

/// What a HEAD response says of the cached mapping.
#[derive(Debug, Clone, Copy, PartialEq, Eq, Structural)]
pub enum HeadResponse {
    /// It is current.
    NotModified,
    /// There is a newer one.
    Changed,
    /// The server does not answer HEAD requests.
    Unsupported,
}

/// What a GET response holds.
#[derive(Debug, Clone, PartialEq, Eq)]
pub enum GetResponse {
    /// Nothing: the cached mapping is current.
    NotModified,
    /// A body, and what to ask for newer ones by.
    Full { body: Vec<u8>, etag: Option<String>, last_modified: Option<String> },
}

/// Why a request failed.
#[derive(Debug, Clone, PartialEq, Eq)]
pub enum HttpError {
    /// It could not be made or answered, and why.
    Transport(String),
    /// It was answered with a status that means nothing here.
    UnexpectedStatus(u16),
    /// The body of the answer is too large.
    ResponseTooLarge,
}

/// Why a request failed, as mathematical values.
pub enum HttpErrorView {
    Transport(Seq<char>),
    UnexpectedStatus(u16),
    ResponseTooLarge,
}

impl DeepView for HttpError {
    type V = HttpErrorView;

    open spec fn deep_view(&self) -> HttpErrorView {
        match self {
            HttpError::Transport(message) => HttpErrorView::Transport(message@),
            HttpError::UnexpectedStatus(status) => HttpErrorView::UnexpectedStatus(*status),
            HttpError::ResponseTooLarge => HttpErrorView::ResponseTooLarge,
        }
    }
}

/// The message of a failed request.
pub open spec fn http_error_text(e: HttpErrorView) -> Seq<char> {
    match e {
        HttpErrorView::Transport(message) => "request failed: "@ + message,
        HttpErrorView::UnexpectedStatus(status) => "unexpected HTTP status "@ + decimal(
            status as nat,
        ),
        HttpErrorView::ResponseTooLarge => "response body exceeds the "@ + decimal(
            MAX_RESPONSE_BODY_BYTES as nat,
        ) + "-byte limit"@,
    }
}

impl HttpError {
    /// The message of the error.
    pub fn to_string(&self) -> (r: String)
        ensures
            r@ == http_error_text(self.deep_view()),
    {
        match self {
            HttpError::Transport(message) => concat("request failed: ", message.as_str()),
            HttpError::UnexpectedStatus(status) => {
                let number = decimal_of(*status as u128);
                concat("unexpected HTTP status ", number.as_str())
            },
            HttpError::ResponseTooLarge => {
                let number = decimal_of(MAX_RESPONSE_BODY_BYTES as u128);
                concat3("response body exceeds the ", number.as_str(), "-byte limit")
            },
        }
    }
}

/// What the status of a HEAD response means.
pub fn head_status(status: u16) -> (r: Result<HeadResponse, HttpError>)
    ensures
        match r {
            Ok(HeadResponse::NotModified) => status == 304,
            Ok(HeadResponse::Changed) => status == 200,
            Ok(HeadResponse::Unsupported) => status == 405 || status == 501,
            Err(error) => status != 304 && status != 200 && status != 405 && status != 501
                && error == HttpError::UnexpectedStatus(status),
        },
{
    match status {
        304 => Ok(HeadResponse::NotModified),
        200 => Ok(HeadResponse::Changed),
        405 | 501 => Ok(HeadResponse::Unsupported),
        _ => Err(HttpError::UnexpectedStatus(status)),
    }
}

/// Whether a GET response with the given status has a body to read.
pub fn get_status(status: u16) -> (r: Result<bool, HttpError>)
    ensures
        match r {
            Ok(has_body) => if has_body {
                status == 200
            } else {
                status == 304
            },
            Err(error) => status != 304 && status != 200 && error == HttpError::UnexpectedStatus(
                status,
            ),
        },
{
    match status {
        304 => Ok(false),
        200 => Ok(true),
        _ => Err(HttpError::UnexpectedStatus(status)),
    }
}

/// Whether so many more bytes would be more than are taken in.
pub fn exceeds_response_cap(so_far: u64, additional: u64) -> (r: bool)
    ensures
        r == (so_far + additional > MAX_RESPONSE_BODY_BYTES),
{
    so_far.saturating_add(additional) > MAX_RESPONSE_BODY_BYTES
}

/// A response body as it arrives, never larger than what is taken in.
#[derive(Debug)]
pub struct ResponseBody {
    bytes: Vec<u8>,
}

impl ResponseBody {
    /// The body is not too large.
    #[verifier::type_invariant]
    pub closed spec fn wf(&self) -> bool {
        self.bytes@.len() <= MAX_RESPONSE_BODY_BYTES
    }

    /// What has arrived.
    pub closed spec fn received(&self) -> Seq<u8> {
        self.bytes@
    }

    /// Starts a body, unless its announced length is too large.
    pub fn start(content_length: Option<u64>) -> (r: Result<ResponseBody, HttpError>)
        ensures
            match r {
                Ok(body) => body.received() == Seq::<u8>::empty() && (content_length is None
                    || content_length->0 <= MAX_RESPONSE_BODY_BYTES),
                Err(error) => content_length is Some && content_length->0
                    > MAX_RESPONSE_BODY_BYTES && error is ResponseTooLarge,
            },
    {
        if let Some(length) = content_length {
            if length > MAX_RESPONSE_BODY_BYTES {
                return Err(HttpError::ResponseTooLarge);
            }
        }
        Ok(ResponseBody { bytes: Vec::new() })
    }

    /// Takes in one more chunk, unless the body would become too large.
    pub fn accept(self, chunk: &[u8]) -> (r: Result<ResponseBody, HttpError>)
        ensures
            match r {
                Ok(body) => body.received() == self.received() + chunk@ && self.received().len()
                    + chunk@.len() <= MAX_RESPONSE_BODY_BYTES,
                Err(error) => self.received().len() + chunk@.len() > MAX_RESPONSE_BODY_BYTES
                    && error is ResponseTooLarge,
            },
    {
        proof {
            use_type_invariant(&self);
        }
        if exceeds_response_cap(self.bytes.len() as u64, chunk.len() as u64) {
            return Err(HttpError::ResponseTooLarge);
        }
        let ghost before = self.bytes@;
        let ResponseBody { mut bytes } = self;
        let mut i: usize = 0;
        assert(bytes@ =~= before + chunk@.take(0));
        while i < chunk.len()
            invariant
                i <= chunk.len(),
                bytes@ == before + chunk@.take(i as int),
            decreases chunk.len() - i,
        {
            bytes.push(chunk[i]);
            i += 1;
            assert(bytes@ =~= before + chunk@.take(i as int));
        }
        assert(chunk@.take(i as int) =~= chunk@);
        Ok(ResponseBody { bytes })
    }

    /// The whole body.
    pub fn into_bytes(self) -> (r: Vec<u8>)
        ensures
            r@ == self.received(),
            r@.len() <= MAX_RESPONSE_BODY_BYTES,
    {
        proof {
            use_type_invariant(&self);
        }
        self.bytes
    }
}

/// At most fifty mebibytes of a response are taken in.
pub proof fn responses_are_limited()
    ensures
        MAX_RESPONSE_BODY_BYTES == 50 * 1024 * 1024,
{
}

/// Each failed request says what failed: why it could not be made, the
/// status that means nothing, or the limit in bytes.
pub proof fn failures_say_why(message: Seq<char>, status: u16)
    ensures
        http_error_text(HttpErrorView::Transport(message)) == "request failed: "@ + message,
        http_error_text(HttpErrorView::UnexpectedStatus(status)) == "unexpected HTTP status "@
            + decimal(status as nat),
        http_error_text(HttpErrorView::ResponseTooLarge) == "response body exceeds the "@
            + decimal(52_428_800) + "-byte limit"@,
{
}

} // verus!
