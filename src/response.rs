//! Responses and their encoding on the wire.
use vstd::prelude::*;
use crate::bytes::{decimal, push_all, push_decimal};

verus! {

/// The bytes of an ASCII text.
pub open spec fn ascii(s: Seq<char>) -> Seq<u8> {
    s.map_values(|c: char| c as u8)
}

/// Appends the bytes of the ASCII text `s` to `out`.
pub fn push_ascii(out: &mut Vec<u8>, s: &str)
    requires
        vstd::string::is_ascii(s),
    ensures
        final(out)@ == old(out)@ + ascii(s@),
{
    broadcast use vstd::string::is_ascii_spec_bytes;

    let b = s.as_bytes();
    assert(b@ =~= ascii(s@));
    push_all(out, b);
}

/// The status of a response.
#[derive(Debug, Clone, Copy, PartialEq, Eq, Structural)]
pub enum ReturnCode {
    OK,
    Created,
    BadRequest,
    Forbidden,
    NotFound,
    InternalError,
}

impl ReturnCode {
    /// The status line, with its terminating CRLF.
    pub open spec fn status_line(self) -> Seq<u8> {
        ascii(
            match self {
                ReturnCode::OK => "HTTP/1.1 200 OK\r\n"@,
                ReturnCode::Created => "HTTP/1.1 201 Created\r\n"@,
                ReturnCode::BadRequest => "HTTP/1.1 400 Bad Request\r\n"@,
                ReturnCode::Forbidden => "HTTP/1.1 403 Forbidden\r\n"@,
                ReturnCode::NotFound => "HTTP/1.1 404 Not Found\r\n"@,
                ReturnCode::InternalError => "HTTP/1.1 500 Internal Server Error\r\n"@,
            },
        )
    }

    /// The numeric status code.
    pub open spec fn number(self) -> nat {
        match self {
            ReturnCode::OK => 200,
            ReturnCode::Created => 201,
            ReturnCode::BadRequest => 400,
            ReturnCode::Forbidden => 403,
            ReturnCode::NotFound => 404,
            ReturnCode::InternalError => 500,
        }
    }

    pub fn code(&self) -> (r: u16)
        ensures
            r == self.number(),
    {
        match self {
            ReturnCode::OK => 200,
            ReturnCode::Created => 201,
            ReturnCode::BadRequest => 400,
            ReturnCode::Forbidden => 403,
            ReturnCode::NotFound => 404,
            ReturnCode::InternalError => 500,
        }
    }

    /// The status line, with its terminating CRLF.
    pub fn get_message(&self) -> (r: Vec<u8>)
        ensures
            r@ == self.status_line(),
    {
        let mut out: Vec<u8> = Vec::new();
        match self {
            ReturnCode::OK => {
                proof {
                    reveal_strlit("HTTP/1.1 200 OK\r\n");
                }
                push_ascii(&mut out, "HTTP/1.1 200 OK\r\n");
            },
            ReturnCode::Created => {
                proof {
                    reveal_strlit("HTTP/1.1 201 Created\r\n");
                }
                push_ascii(&mut out, "HTTP/1.1 201 Created\r\n");
            },
            ReturnCode::BadRequest => {
                proof {
                    reveal_strlit("HTTP/1.1 400 Bad Request\r\n");
                }
                push_ascii(&mut out, "HTTP/1.1 400 Bad Request\r\n");
            },
            ReturnCode::Forbidden => {
                proof {
                    reveal_strlit("HTTP/1.1 403 Forbidden\r\n");
                }
                push_ascii(&mut out, "HTTP/1.1 403 Forbidden\r\n");
            },
            ReturnCode::NotFound => {
                proof {
                    reveal_strlit("HTTP/1.1 404 Not Found\r\n");
                }
                push_ascii(&mut out, "HTTP/1.1 404 Not Found\r\n");
            },
            ReturnCode::InternalError => {
                proof {
                    reveal_strlit("HTTP/1.1 500 Internal Server Error\r\n");
                }
                push_ascii(&mut out, "HTTP/1.1 500 Internal Server Error\r\n");
            },
        }
        assert(out@ =~= self.status_line());
        out
    }
}

/// The media type announced for a non-empty body.
#[derive(Debug, Clone, Copy, PartialEq, Eq, Structural)]
pub enum ContentType {
    TextPlain,
    OctetStream,
}

impl ContentType {
    pub open spec fn name(self) -> Seq<u8> {
        ascii(
            match self {
                ContentType::TextPlain => "text/plain"@,
                ContentType::OctetStream => "application/octet-stream"@,
            },
        )
    }
}

/// A response as a value: its status, media type and body.
pub struct ResponseView {
    pub code: ReturnCode,
    pub content_type: ContentType,
    pub body: Seq<u8>,
}

/// A response, built by a handler and then encoded.
#[derive(Debug)]
pub struct Response {
    pub code: ReturnCode,
    pub content_type: ContentType,
    pub body: Vec<u8>,
}

impl View for Response {
    type V = ResponseView;

    open spec fn view(&self) -> ResponseView {
        ResponseView { code: self.code, content_type: self.content_type, body: self.body@ }
    }
}

/// The bytes that a response is sent as: the status line, then, for a non-empty body,
/// `Content-Type` and `Content-Length` headers, a blank line and the body; for an empty
/// body only the blank line.
pub open spec fn encode(r: ResponseView) -> Seq<u8> {
    if r.body.len() > 0 {
        r.code.status_line() + ascii("Content-Type: "@) + r.content_type.name() + ascii(
            "\r\nContent-Length: "@,
        ) + decimal(r.body.len()) + ascii("\r\n\r\n"@) + r.body
    } else {
        r.code.status_line() + ascii("\r\n"@)
    }
}

/// The plain-text response with status `code` and body `body`.
pub open spec fn text_response(code: ReturnCode, body: Seq<u8>) -> ResponseView {
    ResponseView { code, content_type: ContentType::TextPlain, body }
}

/// The file-content response with status `code` and body `body`.
pub open spec fn octet_response(code: ReturnCode, body: Seq<u8>) -> ResponseView {
    ResponseView { code, content_type: ContentType::OctetStream, body }
}

impl Response {
    /// A plain-text response.
    pub fn new(code: ReturnCode, text: Vec<u8>) -> (r: Response)
        ensures
            r@ == text_response(code, text@),
    {
        Response { code, content_type: ContentType::TextPlain, body: text }
    }

    /// A response with an empty body.
    pub fn new_partial(code: ReturnCode) -> (r: Response)
        ensures
            r@ == text_response(code, Seq::empty()),
    {
        Response { code, content_type: ContentType::TextPlain, body: Vec::new() }
    }

    /// A response that carries raw file bytes.
    pub fn new_octets(code: ReturnCode, bytes: Vec<u8>) -> (r: Response)
        ensures
            r@ == octet_response(code, bytes@),
    {
        Response { code, content_type: ContentType::OctetStream, body: bytes }
    }

    /// The whole message, ready to be written to the connection.
    pub fn get_message(&self) -> (r: Vec<u8>)
        ensures
            r@ == encode(self@),
    {
        let mut out = self.code.get_message();
        if self.body.len() > 0 {
            proof {
                reveal_strlit("Content-Type: ");
                reveal_strlit("\r\nContent-Length: ");
                reveal_strlit("\r\n\r\n");
            }
            push_ascii(&mut out, "Content-Type: ");
            match self.content_type {
                ContentType::TextPlain => {
                    proof {
                        reveal_strlit("text/plain");
                    }
                    push_ascii(&mut out, "text/plain");
                },
                ContentType::OctetStream => {
                    proof {
                        reveal_strlit("application/octet-stream");
                    }
                    push_ascii(&mut out, "application/octet-stream");
                },
            }
            push_ascii(&mut out, "\r\nContent-Length: ");
            push_decimal(&mut out, self.body.len());
            push_ascii(&mut out, "\r\n\r\n");
            push_all(&mut out, self.body.as_slice());
        } else {
            proof {
                reveal_strlit("\r\n");
            }
            push_ascii(&mut out, "\r\n");
        }
        out
    }
}

} // verus!
