//! Routing a request to its handler, and the handlers themselves.
//!
//! File routes touch the disk, which happens outside this module: `handle_request` says
//! which file to read or write, and `get_file_content` / `post_file_content` turn the
//! outcome into a response.
use vstd::prelude::*;
use crate::bytes::{
    bytes_eq, contains_dot_dot, copy_range, has_dot_dot, has_prefix, starts_with, BACKSLASH,
    SLASH,
};
use crate::request::{lookup, parse, parse_request, ParseError, Request, RequestView, Verb};
use crate::response::{
    ascii, octet_response, push_ascii, text_response, Response, ResponseView, ReturnCode,
};

verus! {

/// The handler a path selects; the first rule that matches wins.
#[derive(Debug, Clone, Copy, PartialEq, Eq, Structural)]
pub enum Route {
    Root,
    Echo,
    UserAgent,
    Files,
    NotFound,
}

pub open spec fn root_path() -> Seq<u8> {
    ascii("/"@)
}

pub open spec fn echo_prefix() -> Seq<u8> {
    ascii("/echo/"@)
}

pub open spec fn user_agent_path() -> Seq<u8> {
    ascii("/user-agent"@)
}

pub open spec fn files_prefix() -> Seq<u8> {
    ascii("/files/"@)
}

pub open spec fn user_agent_key() -> Seq<u8> {
    ascii("User-Agent"@)
}

/// The route of a path, compared byte for byte (a query string is part of the path).
pub open spec fn route_of(p: Seq<u8>) -> Route {
    if p == root_path() {
        Route::Root
    } else if has_prefix(p, echo_prefix()) {
        Route::Echo
    } else if p == user_agent_path() {
        Route::UserAgent
    } else if has_prefix(p, files_prefix()) {
        Route::Files
    } else {
        Route::NotFound
    }
}

/// A file name that could reach outside the served directory: it holds `..`, or starts
/// like an absolute path.
pub open spec fn is_unsafe_name(n: Seq<u8>) -> bool {
    has_dot_dot(n) || (n.len() > 0 && (n[0] == SLASH || n[0] == BACKSLASH))
}

/// The response with status `code` and an empty body.
pub open spec fn empty_response(code: ReturnCode) -> ResponseView {
    text_response(code, Seq::empty())
}

/// What the server does for one request.
pub enum Action {
    /// Send this response.
    Respond(Response),
    /// Read the named file of the served directory; `get_file_content` makes the response.
    ReadFile(Vec<u8>),
    /// Write these bytes to the named file; `post_file_content` makes the response.
    WriteFile(Vec<u8>, Vec<u8>),
    /// Close the connection without a response: the peer stopped sending mid-body.
    Close,
}

pub enum ActionView {
    Respond(ResponseView),
    ReadFile(Seq<u8>),
    WriteFile(Seq<u8>, Seq<u8>),
    Close,
}

impl View for Action {
    type V = ActionView;

    open spec fn view(&self) -> ActionView {
        match self {
            Action::Respond(r) => ActionView::Respond(r@),
            Action::ReadFile(n) => ActionView::ReadFile(n@),
            Action::WriteFile(n, b) => ActionView::WriteFile(n@, b@),
            Action::Close => ActionView::Close,
        }
    }
}

/// What the server does for `req`; `files` says whether a directory is served.
pub open spec fn action_of(req: RequestView, files: bool) -> ActionView {
    match route_of(req.path) {
        Route::Root => ActionView::Respond(empty_response(ReturnCode::OK)),
        Route::Echo => ActionView::Respond(
            text_response(ReturnCode::OK, req.path.subrange(6, req.path.len() as int)),
        ),
        Route::UserAgent => match lookup(req.headers, user_agent_key()) {
            Some(v) => ActionView::Respond(text_response(ReturnCode::OK, v)),
            None => ActionView::Respond(empty_response(ReturnCode::BadRequest)),
        },
        Route::Files => {
            let name = req.path.subrange(7, req.path.len() as int);
            if !files || name.len() == 0 {
                ActionView::Respond(empty_response(ReturnCode::NotFound))
            } else if is_unsafe_name(name) {
                ActionView::Respond(empty_response(ReturnCode::Forbidden))
            } else {
                match req.verb {
                    Verb::GET => ActionView::ReadFile(name),
                    Verb::POST => ActionView::WriteFile(name, req.body),
                }
            }
        },
        Route::NotFound => ActionView::Respond(empty_response(ReturnCode::NotFound)),
    }
}

/// What the server does with a request that could not be read: a body cut short means
/// the peer went away, and the connection is closed; anything else is answered 400.
pub open spec fn parse_error_action(e: ParseError) -> ActionView {
    if e == ParseError::TruncatedBody {
        ActionView::Close
    } else {
        ActionView::Respond(empty_response(ReturnCode::BadRequest))
    }
}

/// What the server does for the raw bytes `s` of a request.
pub open spec fn respond_spec(s: Seq<u8>, files: bool) -> ActionView {
    match parse(s) {
        Ok(req) => action_of(req, files),
        Err(e) => parse_error_action(e),
    }
}

/// The outcome of reading a file.
pub enum FileRead {
    Found(Vec<u8>),
    Missing,
    Failed,
}

pub enum FileReadView {
    Found(Seq<u8>),
    Missing,
    Failed,
}

impl View for FileRead {
    type V = FileReadView;

    open spec fn view(&self) -> FileReadView {
        match self {
            FileRead::Found(b) => FileReadView::Found(b@),
            FileRead::Missing => FileReadView::Missing,
            FileRead::Failed => FileReadView::Failed,
        }
    }
}

/// The response to a file read: its bytes, 404 when it is missing, 500 on another failure.
pub open spec fn file_read_response(o: FileReadView) -> ResponseView {
    match o {
        FileReadView::Found(b) => octet_response(ReturnCode::OK, b),
        FileReadView::Missing => empty_response(ReturnCode::NotFound),
        FileReadView::Failed => empty_response(ReturnCode::InternalError),
    }
}

/// The response to a file write: 201 when it was written, 404 when it failed.
pub open spec fn file_write_response(written: bool) -> ResponseView {
    if written {
        octet_response(ReturnCode::Created, Seq::empty())
    } else {
        empty_response(ReturnCode::NotFound)
    }
}

/// One request served against a directory modelled as a map from file names to contents,
/// where reads and writes succeed: the directory afterwards, and the response.
pub open spec fn serve(d: Map<Seq<u8>, Seq<u8>>, req: RequestView, files: bool) -> (Map<
    Seq<u8>,
    Seq<u8>,
>, ResponseView) {
    match action_of(req, files) {
        ActionView::Respond(r) => (d, r),
        ActionView::ReadFile(n) => (
            d,
            file_read_response(
                if d.contains_key(n) {
                    FileReadView::Found(d[n])
                } else {
                    FileReadView::Missing
                },
            ),
        ),
        ActionView::WriteFile(n, b) => (d.insert(n, b), file_write_response(true)),
        // A parsed request is never answered by closing.
        ActionView::Close => (d, empty_response(ReturnCode::BadRequest)),
    }
}

/// The bytes of an ASCII literal.
fn literal(s: &str) -> (r: Vec<u8>)
    requires
        vstd::string::is_ascii(s),
    ensures
        r@ == ascii(s@),
{
    let mut v: Vec<u8> = Vec::new();
    push_ascii(&mut v, s);
    assert(v@ =~= ascii(s@));
    v
}

/// The route of a path.
pub fn route(path: &[u8]) -> (r: Route)
    ensures
        r == route_of(path@),
{
    proof {
        reveal_strlit("/");
        reveal_strlit("/echo/");
        reveal_strlit("/user-agent");
        reveal_strlit("/files/");
    }
    let root = literal("/");
    let echo = literal("/echo/");
    let user_agent = literal("/user-agent");
    let files = literal("/files/");
    if bytes_eq(path, root.as_slice()) {
        Route::Root
    } else if starts_with(path, echo.as_slice()) {
        Route::Echo
    } else if bytes_eq(path, user_agent.as_slice()) {
        Route::UserAgent
    } else if starts_with(path, files.as_slice()) {
        Route::Files
    } else {
        Route::NotFound
    }
}

/// Whether a file name could reach outside the served directory.
pub fn unsafe_name(n: &[u8]) -> (r: bool)
    ensures
        r == is_unsafe_name(n@),
{
    contains_dot_dot(n) || (n.len() > 0 && (n[0] == SLASH || n[0] == BACKSLASH))
}

/// Decides what to do for a request: the response for every route but a file read or
/// write, which it hands back to be performed. `files` says whether a directory is served.
pub fn handle_request(req: &Request, files: bool) -> (r: Action)
    ensures
        r@ == action_of(req@, files),
{
    proof {
        reveal_strlit("/echo/");
        reveal_strlit("/files/");
    }
    match route(req.path.as_slice()) {
        Route::Root => Action::Respond(Response::new_partial(ReturnCode::OK)),
        Route::Echo => {
            let text = copy_range(req.path.as_slice(), 6, req.path.len());
            Action::Respond(Response::new(ReturnCode::OK, text))
        },
        Route::UserAgent => match req.user_agent() {
            Some(v) => Action::Respond(Response::new(ReturnCode::OK, v)),
            None => Action::Respond(Response::new_partial(ReturnCode::BadRequest)),
        },
        Route::Files => {
            let name = copy_range(req.path.as_slice(), 7, req.path.len());
            if !files || name.len() == 0 {
                Action::Respond(Response::new_partial(ReturnCode::NotFound))
            } else if unsafe_name(name.as_slice()) {
                Action::Respond(Response::new_partial(ReturnCode::Forbidden))
            } else {
                match req.verb {
                    Verb::GET => Action::ReadFile(name),
                    Verb::POST => {
                        let body = copy_range(req.body.as_slice(), 0, req.body.len());
                        assert(body@ =~= req.body@);
                        Action::WriteFile(name, body)
                    },
                }
            }
        },
        Route::NotFound => Action::Respond(Response::new_partial(ReturnCode::NotFound)),
    }
}

/// What to do with a request that could not be read.
pub fn error_action(e: ParseError) -> (r: Action)
    ensures
        r@ == parse_error_action(e),
{
    match e {
        ParseError::TruncatedBody => Action::Close,
        _ => Action::Respond(Response::new_partial(ReturnCode::BadRequest)),
    }
}

/// Decides what to do for the raw bytes of a request: parse, then route.
pub fn respond(s: &[u8], files: bool) -> (r: Action)
    ensures
        r@ == respond_spec(s@, files),
{
    match parse_request(s) {
        Ok(req) => handle_request(&req, files),
        Err(e) => error_action(e),
    }
}

/// The response to reading a file.
pub fn get_file_content(outcome: FileRead) -> (r: Response)
    ensures
        r@ == file_read_response(outcome@),
{
    match outcome {
        FileRead::Found(bytes) => Response::new_octets(ReturnCode::OK, bytes),
        FileRead::Missing => Response::new_partial(ReturnCode::NotFound),
        FileRead::Failed => Response::new_partial(ReturnCode::InternalError),
    }
}

/// The response to writing a file, given whether the write succeeded.
pub fn post_file_content(written: bool) -> (r: Response)
    ensures
        r@ == file_write_response(written),
{
    if written {
        Response::new_octets(ReturnCode::Created, Vec::new())
    } else {
        Response::new_partial(ReturnCode::NotFound)
    }
}

} // verus!
