//! What the server answers: a status, a content type and a body.

use vstd::prelude::*;
use crate::error::{ServeError, ServeErrorView};

verus! {

/// The body of the answer to a request for what is not there.
pub const NOT_FOUND_TEXT: &'static str = "404 - Not Found";

/// The stylesheet that the pages link to.
pub const STYLE_CSS: &'static str = "body { margin: 2rem auto; max-width: 48rem; }\n\
body { padding: 0 1rem; }\n\
body { font-family: sans-serif; line-height: 1.5; }\n\
header, footer { color: dimgray; }\n\
ul { padding-left: 1.25rem; }\n\
a { color: darkblue; }\n";

/// The status of a response.
#[derive(Debug, Clone, Copy, PartialEq, Eq)]
pub enum Status {
    Success,
    InternalServerError,
}

impl Status {
    /// The status as a number.
    pub open spec fn number(self) -> int {
        match self {
            Status::Success => 200,
            Status::InternalServerError => 500,
        }
    }

    /// The status code to send.
    pub fn code(&self) -> (code: u16)
        ensures
            code == self.number(),
    {
        match self {
            Status::Success => 200,
            Status::InternalServerError => 500,
        }
    }
}

/// What kind of text a response carries.
#[derive(Debug, Clone, Copy, PartialEq, Eq)]
pub enum ContentType {
    Html,
    Css,
}

impl ContentType {
    /// The value of the `Content-Type` header.
    pub open spec fn header_value(self) -> Seq<char> {
        match self {
            ContentType::Html => "text/html; charset=utf-8"@,
            ContentType::Css => "text/css"@,
        }
    }

    /// The value to send in the `Content-Type` header.
    pub fn as_str(&self) -> (value: &'static str)
        ensures
            value@ == self.header_value(),
    {
        match self {
            ContentType::Html => "text/html; charset=utf-8",
            ContentType::Css => "text/css",
        }
    }
}

/// A response, ready to be sent.
#[derive(Debug, PartialEq, Eq)]
pub struct Response {
    pub status: Status,
    pub content_type: ContentType,
    pub body: String,
}

/// The mathematical value of a [`Response`].
pub struct ResponseView {
    pub status: Status,
    pub content_type: ContentType,
    pub body: Seq<char>,
}

impl View for Response {
    type V = ResponseView;

    open spec fn view(&self) -> ResponseView {
        ResponseView { status: self.status, content_type: self.content_type, body: self.body@ }
    }
}

/// A page of HTML, served with success.
pub open spec fn html_page(body: Seq<char>) -> ResponseView {
    ResponseView { status: Status::Success, content_type: ContentType::Html, body }
}

/// The answer to a request for what is not there. Its status is that of
/// success; only its body says that nothing was found.
pub open spec fn not_found_page() -> ResponseView {
    html_page(NOT_FOUND_TEXT@)
}

/// The answer to a request on which the file system failed, with the
/// diagnostic text as its body.
pub open spec fn failure_page(text: Seq<char>) -> ResponseView {
    ResponseView {
        status: Status::InternalServerError,
        content_type: ContentType::Html,
        body: text,
    }
}

/// The answer that reports `error`. A path that escapes the root is answered
/// as one that is not there, so that nothing is said of what lies outside.
pub open spec fn error_page(error: ServeErrorView) -> ResponseView {
    match error {
        ServeErrorView::NotFound => not_found_page(),
        ServeErrorView::PathEscape => not_found_page(),
        ServeErrorView::IoFailure(text) => failure_page(text),
    }
}

/// The stylesheet, served as CSS.
pub open spec fn style_sheet() -> ResponseView {
    ResponseView { status: Status::Success, content_type: ContentType::Css, body: STYLE_CSS@ }
}

/// Serves `body` as a page of HTML.
pub fn ok_html(body: String) -> (response: Response)
    ensures
        response@ == html_page(body@),
{
    Response { status: Status::Success, content_type: ContentType::Html, body }
}

/// Answers a request for what is not there.
pub fn not_found() -> (response: Response)
    ensures
        response@ == not_found_page(),
{
    ok_html(String::from_str(NOT_FOUND_TEXT))
}

/// Answers a request on which the file system failed.
pub fn server_error(text: String) -> (response: Response)
    ensures
        response@ == failure_page(text@),
{
    Response { status: Status::InternalServerError, content_type: ContentType::Html, body: text }
}

/// Turns an error into the response that reports it.
pub fn error_response(error: ServeError) -> (response: Response)
    ensures
        response@ == error_page(error@),
{
    match error {
        ServeError::NotFound => not_found(),
        ServeError::PathEscape => not_found(),
        ServeError::IoFailure(text) => server_error(text),
    }
}

/// Serves the stylesheet.
pub fn serve_style_css() -> (response: Response)
    ensures
        response@ == style_sheet(),
{
    Response {
        status: Status::Success,
        content_type: ContentType::Css,
        body: String::from_str(STYLE_CSS),
    }
}

} // verus!
