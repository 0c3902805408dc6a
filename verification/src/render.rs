//! What a page request is answered with: which template a requested page
//! names, and which response each outcome of loading and rendering earns.
//! The template engine itself stays outside; this module decides around it.

use vstd::prelude::*;
use vstd::string::*;

verus! {

/// The kind of a response.
#[derive(Clone, Copy, Debug, PartialEq, Eq, Structural)]
pub enum Status {
    /// The page was rendered.
    Rendered,
    /// The page names no template that could be rendered.
    NotFound,
    /// The templates or the data could not be had at all.
    InternalError,
}

/// How far the rendering of a page came.
#[derive(Debug)]
pub enum Rendering {
    /// The templates could not be read.
    TemplatesUnavailable,
    /// The data could not be loaded.
    DataUnavailable,
    /// The template is unknown, or rendering it failed.
    Failed,
    /// The template was rendered to this text.
    Rendered(String),
}

/// The answer to a page request.
#[derive(Debug)]
pub struct Response {
    pub status: Status,
    pub body: String,
}

/// The page that a request without a page name asks for.
pub open spec fn default_page() -> Seq<char> {
    "index"@
}

/// The page that a request for `requested` asks for: the default page where
/// no name is given.
pub open spec fn page_name_of(requested: Seq<char>) -> Seq<char> {
    if requested.len() == 0 {
        default_page()
    } else {
        requested
    }
}

/// The name under which the template of `page` is registered.
pub open spec fn template_name_of(page: Seq<char>) -> Seq<char> {
    "pages/"@ + page
}

/// The address that the root route redirects to, for good.
pub open spec fn root_target() -> Seq<char> {
    "/"@ + default_page()
}

/// The kind of response that `rendering` earns.
pub open spec fn status_of(rendering: Rendering) -> Status {
    match rendering {
        Rendering::TemplatesUnavailable => Status::InternalError,
        Rendering::DataUnavailable => Status::InternalError,
        Rendering::Failed => Status::NotFound,
        Rendering::Rendered(_) => Status::Rendered,
    }
}

/// The body of the response to a request for `page` that came as far as
/// `rendering`.
pub open spec fn body_of(page: Seq<char>, rendering: Rendering) -> Seq<char> {
    match rendering {
        Rendering::TemplatesUnavailable => "Failed to load templates"@,
        Rendering::DataUnavailable => "Failed to load data files"@,
        Rendering::Failed => "Template '"@ + page + "' not found or rendering failed"@,
        Rendering::Rendered(text) => text@,
    }
}

/// The HTTP status code of a kind of response.
pub open spec fn code_of(status: Status) -> u16 {
    match status {
        Status::Rendered => 200,
        Status::NotFound => 404,
        Status::InternalError => 500,
    }
}

impl Status {
    /// The HTTP status code.
    pub fn code(&self) -> (code: u16)
        ensures
            code == code_of(*self),
    {
        match self {
            Status::Rendered => 200,
            Status::NotFound => 404,
            Status::InternalError => 500,
        }
    }
}

impl Response {
    /// Whether the body is the rendered page, to be sent as HTML. Every other
    /// body is a plain message.
    pub fn is_html(&self) -> (html: bool)
        ensures
            html == (self.status == Status::Rendered),
    {
        match self.status {
            Status::Rendered => true,
            _ => false,
        }
    }
}

/// The page that a request asks for: `requested`, or the default page where
/// `requested` is empty.
pub fn page_name(requested: &str) -> (page: String)
    ensures
        page@ == page_name_of(requested@),
{
    if requested.is_empty() {
        String::from_str("index")
    } else {
        String::from_str(requested)
    }
}

/// The name under which the template of `page` is registered.
pub fn template_name(page: &str) -> (name: String)
    ensures
        name@ == template_name_of(page@),
{
    String::from_str("pages/").concat(page)
}

/// The address that the root route redirects to.
pub fn root_redirect() -> (target: String)
    ensures
        target@ == root_target(),
{
    String::from_str("/").concat("index")
}

/// Decides the response to a request for `page` whose rendering came as far
/// as `rendering`. A template that is unknown or does not render is answered
/// with not-found, never with an internal error.
pub fn respond(page: &str, rendering: Rendering) -> (response: Response)
    ensures
        response.status == status_of(rendering),
        response.body@ == body_of(page@, rendering),
{
    match rendering {
        Rendering::TemplatesUnavailable => Response {
            status: Status::InternalError,
            body: String::from_str("Failed to load templates"),
        },
        Rendering::DataUnavailable => Response {
            status: Status::InternalError,
            body: String::from_str("Failed to load data files"),
        },
        Rendering::Failed => Response {
            status: Status::NotFound,
            body: String::from_str("Template '").concat(page).concat(
                "' not found or rendering failed",
            ),
        },
        Rendering::Rendered(text) => Response { status: Status::Rendered, body: text },
    }
}

/// A request without a page name asks for the same page, and so for the
/// same template, as a request for `index`.
pub proof fn lemma_empty_page_is_index()
    ensures
        page_name_of(Seq::empty()) == page_name_of("index"@),
        template_name_of(page_name_of(Seq::empty())) == template_name_of(page_name_of("index"@)),
        root_target() == "/"@ + page_name_of(Seq::empty()),
{
    reveal_strlit("index");
}

/// A page whose template is unknown or does not render is not found,
/// whatever the page: only templates or data that cannot be had at all make
/// an internal error.
pub proof fn lemma_unknown_page_is_not_found(rendering: Rendering)
    ensures
        rendering is Failed ==> status_of(rendering) == Status::NotFound && code_of(
            status_of(rendering),
        ) == 404,
        status_of(rendering) == Status::InternalError <==> rendering is TemplatesUnavailable
            || rendering is DataUnavailable,
{
}

} // verus!
