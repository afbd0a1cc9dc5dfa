//! Properties of the server as a whole, stated over the models that the executable
//! functions' contracts use.
use vstd::prelude::*;
use crate::bytes::{
    decimal, has_dot_dot, is_ws, lemma_find_from_at, lemma_tokens_concat, lemma_tokens_word,
    lemma_tokens_ws_end, tokens, CR, LF, SLASH,
};
use crate::request::{
    head_from, header_list, line_at, next_line, parse, ParseError, RequestView, Verb,
};
use crate::response::{ascii, encode, octet_response, text_response, ReturnCode};
use crate::router::{
    action_of, echo_prefix, empty_response, file_write_response, files_prefix, is_unsafe_name,
    respond_spec, root_path, route_of, serve, user_agent_path, ActionView, Route,
};

verus! {

/// A path made of `/files/` and `name` selects the file route with `name` as the file name.
pub proof fn lemma_file_route(path: Seq<u8>, name: Seq<u8>)
    requires
        path == files_prefix() + name,
    ensures
        route_of(path) == Route::Files,
        path.subrange(7, path.len() as int) == name,
{
    reveal_strlit("/files/");
    reveal_strlit("/");
    reveal_strlit("/echo/");
    reveal_strlit("/user-agent");
    assert(path[1] == ascii("/files/"@)[1]);
    assert(path.len() != root_path().len());
    assert(path.subrange(0, 6)[1] != echo_prefix()[1]);
    assert(path.len() < 11 || path[1] != user_agent_path()[1]);
    assert(path.subrange(0, 7) =~= files_prefix());
    assert(path.subrange(7, path.len() as int) =~= name);
}

/// A `GET` of `/echo/` followed by any bytes `t` is answered 200 with `t` as its plain-text
/// body; when `t` is not empty the message carries `t`'s length as `Content-Length`.
pub proof fn lemma_echo(req: RequestView, t: Seq<u8>, files: bool)
    requires
        req.path == echo_prefix() + t,
    ensures
        action_of(req, files) == ActionView::Respond(text_response(ReturnCode::OK, t)),
        t.len() > 0 ==> encode(text_response(ReturnCode::OK, t)) == ReturnCode::OK.status_line()
            + ascii("Content-Type: "@) + ascii("text/plain"@) + ascii("\r\nContent-Length: "@)
            + decimal(t.len()) + ascii("\r\n\r\n"@) + t,
{
    reveal_strlit("/");
    reveal_strlit("/echo/");
    assert(req.path.len() != root_path().len());
    assert(req.path.subrange(0, 6) =~= echo_prefix());
    assert(req.path.subrange(6, req.path.len() as int) =~= t);
}

/// Header lines, each followed by CRLF.
pub open spec fn header_bytes(hs: Seq<Seq<u8>>) -> Seq<u8>
    decreases hs.len(),
{
    if hs.len() == 0 {
        seq![]
    } else {
        hs[0] + seq![CR, LF] + header_bytes(hs.drop_first())
    }
}

/// A line that can stand in a request's head: not empty, and without a line feed.
pub open spec fn is_head_line(h: Seq<u8>) -> bool {
    h.len() > 0 && forall|k: int| 0 <= k < h.len() ==> #[trigger] h[k] != LF
}

/// The bytes of a `GET` of `path` over HTTP/1.1 with the header lines `hs`.
pub open spec fn get_request_bytes(path: Seq<u8>, hs: Seq<Seq<u8>>) -> Seq<u8> {
    ascii("GET "@) + path + ascii(" HTTP/1.1\r\n"@) + header_bytes(hs) + ascii("\r\n"@)
}

/// Header lines, each ended by CRLF, then an empty line, read from `i` on.
pub proof fn lemma_head_lines(s: Seq<u8>, i: int, hs: Seq<Seq<u8>>)
    requires
        0 <= i,
        i + header_bytes(hs).len() + 2 <= s.len(),
        s.subrange(i, i + header_bytes(hs).len() + 2) == header_bytes(hs) + seq![CR, LF],
        forall|k: int| 0 <= k < hs.len() ==> is_head_line(#[trigger] hs[k]),
    ensures
        head_from(s, i) == (hs, i + header_bytes(hs).len() + 2),
    decreases hs.len(),
{
    let hb = header_bytes(hs);
    let w = hb + seq![CR, LF];
    assert forall|k: int| i <= k < i + w.len() implies s[k] == w[k - i] by {
        assert(s.subrange(i, i + w.len())[k - i] == s[k]);
    }
    if hs.len() == 0 {
        assert(s[i] == CR && s[i + 1] == LF);
        lemma_find_from_at(s, LF, i, i + 1);
        assert(line_at(s, i) =~= Seq::<u8>::empty());
        assert(hs =~= Seq::<Seq<u8>>::empty());
    } else {
        let h = hs[0];
        let rest = hs.drop_first();
        let rb = header_bytes(rest);
        let j = i + h.len() + 2;
        assert(is_head_line(h));
        assert(hb == h + seq![CR, LF] + rb);
        assert forall|k: int| i <= k < i + h.len() implies s[k] != LF by {
            assert(w[k - i] == h[k - i]);
        }
        assert(w[h.len() as int] == CR);
        assert(w[h.len() as int + 1] == LF);
        lemma_find_from_at(s, LF, i, i + h.len() + 1);
        assert(line_at(s, i) =~= h);
        assert(next_line(s, i) == j);
        assert(s.subrange(j, j + rb.len() + 2) =~= rb + seq![CR, LF]) by {
            assert forall|k: int| 0 <= k < rb.len() + 2 implies s.subrange(j, j + rb.len() + 2)[k]
                == (rb + seq![CR, LF])[k] by {
                assert(w[h.len() as int + 2 + k] == (rb + seq![CR, LF])[k]);
            }
        }
        assert forall|k: int| 0 <= k < rest.len() implies is_head_line(#[trigger] rest[k]) by {
            assert(rest[k] == hs[k + 1]);
        }
        lemma_head_lines(s, j, rest);
        assert(seq![h] + rest =~= hs);
    }
}

/// On the wire: a `GET` of a path without whitespace, with any header lines, reads as that
/// path with the headers those lines hold and an empty body.
pub proof fn lemma_get_request_bytes(path: Seq<u8>, hs: Seq<Seq<u8>>)
    requires
        path.len() > 0,
        path[0] == SLASH,
        forall|i: int| 0 <= i < path.len() ==> !is_ws(#[trigger] path[i]),
        forall|k: int| 0 <= k < hs.len() ==> is_head_line(#[trigger] hs[k]),
    ensures
        parse(get_request_bytes(path, hs)) == Ok::<RequestView, ParseError>(
            RequestView { verb: Verb::GET, path, headers: header_list(hs), body: Seq::empty() },
        ),
{
    reveal_strlit("GET ");
    reveal_strlit(" HTTP/1.1\r\n");
    reveal_strlit("\r\n");
    reveal_strlit("GET");
    reveal_strlit("HTTP/1.1");
    let s = get_request_bytes(path, hs);
    let g = ascii("GET"@);
    let h = ascii("HTTP/1.1"@);
    let line = g.push(32) + (path.push(32) + h);
    let n = line.len() as int;
    let hb = header_bytes(hs);
    assert(s =~= line + seq![CR, LF] + hb + seq![CR, LF]);
    // The start line runs up to the first CRLF; the header lines follow.
    assert forall|k: int| 0 <= k < n implies s[k] != LF by {
        if 4 <= k < 4 + path.len() {
            assert(s[k] == path[k - 4]);
        }
    }
    assert(s[n] == CR && s[n + 1] == LF);
    lemma_find_from_at(s, LF, 0, n + 1);
    assert(line_at(s, 0) =~= line);
    assert(next_line(s, 0) == n + 2);
    assert(s.subrange(n + 2, n + 2 + hb.len() + 2) =~= hb + seq![CR, LF]);
    lemma_head_lines(s, n + 2, hs);
    assert(head_from(s, 0) == (seq![line] + hs, s.len() as int));
    assert((seq![line] + hs).drop_first() =~= hs);
    // The start line's tokens are the method, the path and the version.
    lemma_tokens_word(g);
    lemma_tokens_word(path);
    lemma_tokens_word(h);
    lemma_tokens_ws_end(g, 32);
    lemma_tokens_ws_end(path, 32);
    lemma_tokens_concat(g.push(32), path.push(32) + h);
    lemma_tokens_concat(path.push(32), h);
    assert(tokens(line) =~= seq![g, path, h]);
    assert(s.subrange(s.len() as int, s.len() as int) =~= Seq::<u8>::empty());
}

/// On the wire: `GET /echo/<t>` is answered 200 with `t` as the plain-text body, whatever
/// header lines come with it, for every `t` without whitespace (whitespace would split the
/// start line).
pub proof fn lemma_echo_request_bytes(t: Seq<u8>, hs: Seq<Seq<u8>>, files: bool)
    requires
        forall|i: int| 0 <= i < t.len() ==> !is_ws(#[trigger] t[i]),
        forall|k: int| 0 <= k < hs.len() ==> is_head_line(#[trigger] hs[k]),
    ensures
        respond_spec(get_request_bytes(echo_prefix() + t, hs), files) == ActionView::Respond(
            text_response(ReturnCode::OK, t),
        ),
{
    reveal_strlit("/echo/");
    let path = echo_prefix() + t;
    assert forall|i: int| 0 <= i < path.len() implies !is_ws(#[trigger] path[i]) by {
        if i >= 6 {
            assert(path[i] == t[i - 6]);
        }
    }
    lemma_get_request_bytes(path, hs);
    lemma_echo(
        RequestView { verb: Verb::GET, path, headers: header_list(hs), body: Seq::empty() },
        t,
        files,
    );
}

/// On the wire: `GET /` is answered 200 with an empty body, whatever header lines come
/// with it.
pub proof fn lemma_root_request_bytes(hs: Seq<Seq<u8>>, files: bool)
    requires
        forall|k: int| 0 <= k < hs.len() ==> is_head_line(#[trigger] hs[k]),
    ensures
        respond_spec(get_request_bytes(root_path(), hs), files) == ActionView::Respond(
            empty_response(ReturnCode::OK),
        ),
{
    reveal_strlit("/");
    assert forall|i: int| 0 <= i < root_path().len() implies !is_ws(#[trigger] root_path()[i]) by {}
    lemma_get_request_bytes(root_path(), hs);
}

/// A request for `/` is answered 200 with an empty body, whatever its method, headers and
/// body; the message is the status line and a blank line.
pub proof fn lemma_root(req: RequestView, files: bool)
    requires
        req.path == root_path(),
    ensures
        action_of(req, files) == ActionView::Respond(empty_response(ReturnCode::OK)),
        encode(empty_response(ReturnCode::OK)) == ReturnCode::OK.status_line() + ascii("\r\n"@),
{
}

/// A file name that holds `..` is refused with 403 when a directory is served (404 when
/// none is): no file is read or written for it.
pub proof fn lemma_dot_dot_forbidden(req: RequestView, name: Seq<u8>, files: bool)
    requires
        req.path == files_prefix() + name,
        has_dot_dot(name),
    ensures
        action_of(req, files) == ActionView::Respond(
            empty_response(
                if files {
                    ReturnCode::Forbidden
                } else {
                    ReturnCode::NotFound
                },
            ),
        ),
        forall|d: Map<Seq<u8>, Seq<u8>>| #[trigger] serve(d, req, files).0 == d,
{
    lemma_file_route(req.path, name);
    assert(name.len() > 0);
}

/// Writing bytes `b` to a file and then reading it gives 201, then 200 with exactly `b`.
pub proof fn lemma_write_then_read(
    d: Map<Seq<u8>, Seq<u8>>,
    name: Seq<u8>,
    post: RequestView,
    get: RequestView,
)
    requires
        post.verb == Verb::POST,
        post.path == files_prefix() + name,
        get.verb == Verb::GET,
        get.path == files_prefix() + name,
        name.len() > 0,
        !is_unsafe_name(name),
    ensures
        serve(d, post, true).1 == file_write_response(true),
        serve(serve(d, post, true).0, get, true).1 == octet_response(ReturnCode::OK, post.body),
{
    lemma_file_route(post.path, name);
    lemma_file_route(get.path, name);
}

/// Reading a file that was never written gives 404.
pub proof fn lemma_read_missing(
    d: Map<Seq<u8>, Seq<u8>>,
    name: Seq<u8>,
    get: RequestView,
    files: bool,
)
    requires
        get.verb == Verb::GET,
        get.path == files_prefix() + name,
        !d.contains_key(name),
        !is_unsafe_name(name),
    ensures
        serve(d, get, files).1 == empty_response(ReturnCode::NotFound),
{
    lemma_file_route(get.path, name);
}

/// Writes to two different files both succeed, do not depend on their order, and leave
/// each file readable with its own bytes.
pub proof fn lemma_distinct_writes(
    d: Map<Seq<u8>, Seq<u8>>,
    name_a: Seq<u8>,
    name_b: Seq<u8>,
    post_a: RequestView,
    post_b: RequestView,
    get_a: RequestView,
    get_b: RequestView,
)
    requires
        name_a != name_b,
        name_a.len() > 0,
        name_b.len() > 0,
        !is_unsafe_name(name_a),
        !is_unsafe_name(name_b),
        post_a.verb == Verb::POST,
        post_a.path == files_prefix() + name_a,
        post_b.verb == Verb::POST,
        post_b.path == files_prefix() + name_b,
        get_a.verb == Verb::GET,
        get_a.path == files_prefix() + name_a,
        get_b.verb == Verb::GET,
        get_b.path == files_prefix() + name_b,
    ensures
        serve(d, post_a, true).1 == file_write_response(true),
        serve(serve(d, post_a, true).0, post_b, true).1 == file_write_response(true),
        serve(serve(d, post_a, true).0, post_b, true).0 == serve(serve(d, post_b, true).0, post_a, true).0,
        serve(serve(serve(d, post_a, true).0, post_b, true).0, get_a, true).1 == octet_response(
            ReturnCode::OK,
            post_a.body,
        ),
        serve(serve(serve(d, post_a, true).0, post_b, true).0, get_b, true).1 == octet_response(
            ReturnCode::OK,
            post_b.body,
        ),
{
    lemma_file_route(post_a.path, name_a);
    lemma_file_route(post_b.path, name_b);
    lemma_file_route(get_a.path, name_a);
    lemma_file_route(get_b.path, name_b);
    assert(d.insert(name_a, post_a.body).insert(name_b, post_b.body) =~= d.insert(name_b, post_b.body).insert(
        name_a,
        post_a.body,
    ));
}

} // verus!
