//! Failures of the remote source.

use vstd::prelude::*;

verus! {

/// What a failure holds, as mathematical values.
pub enum ServerErrorView {
    Reqwest(Seq<char>),
    SerdeJson(Seq<char>),
}

/// Why reading from the remote source failed: the transport failed, or the
/// payload did not have the expected shape. Each holds the cause's message.
#[derive(Debug, PartialEq)]
pub enum ServerError {
    Reqwest(String),
    SerdeJson(String),
}

impl View for ServerError {
    type V = ServerErrorView;

    open spec fn view(&self) -> ServerErrorView {
        match self {
            ServerError::Reqwest(m) => ServerErrorView::Reqwest(m@),
            ServerError::SerdeJson(m) => ServerErrorView::SerdeJson(m@),
        }
    }
}

impl Clone for ServerError {
    fn clone(&self) -> (out: Self)
        ensures
            out@ == self@,
    {
        match self {
            ServerError::Reqwest(m) => ServerError::Reqwest(m.clone()),
            ServerError::SerdeJson(m) => ServerError::SerdeJson(m.clone()),
        }
    }
}

impl ServerErrorView {
    /// The message shown for the failure: the kind of failure, then the
    /// cause's own message.
    pub open spec fn message(self) -> Seq<char> {
        match self {
            ServerErrorView::Reqwest(m) => "reqwest error: "@ + m,
            ServerErrorView::SerdeJson(m) => "json error: "@ + m,
        }
    }
}

impl ServerErrorView {
    /// The text with which a server answers a request that failed.
    pub open spec fn response_text(self) -> Seq<char> {
        "Server error. Error: "@ + self.message()
    }
}

impl ServerError {
    /// The text with which a server answers a request that failed.
    pub fn response_text(&self) -> (out: String)
        ensures
            out@ == self@.response_text(),
    {
        String::from_str("Server error. Error: ").concat(self.message().as_str())
    }

    /// The message shown for the failure.
    pub fn message(&self) -> (out: String)
        ensures
            out@ == self@.message(),
    {
        match self {
            ServerError::Reqwest(m) => String::from_str("reqwest error: ").concat(m.as_str()),
            ServerError::SerdeJson(m) => String::from_str("json error: ").concat(m.as_str()),
        }
    }
}

} // verus!
