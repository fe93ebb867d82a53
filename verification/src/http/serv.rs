//! What a connection's request asks for: a refusal, a WebSocket upgrade or a
//! static file, and where on disk that file is looked for.
use crate::http::request::{
    before_first, check_path, erase_query_params, lemma_before_first_prefix, ParsedHeader,
};
use crate::http::response::{build_response, response_bytes};
use crate::http::websocket::{accept_key_spec, handshake_response, handshake_response_spec};
use crate::text::{contains_seq, push_str_bytes, str_eq, utf8_lossy};
use percent_encoding::percent_decode_str;
use vstd::prelude::*;
use vstd::string::*;
use vstd::utf8::*;

verus! {

/// The value of hexadecimal digit byte `b`, if it is one.
pub open spec fn hex_value(b: u8) -> Option<int> {
    if 48 <= b <= 57 {
        Some(b - 48)
    } else if 65 <= b <= 70 {
        Some(b - 55)
    } else if 97 <= b <= 102 {
        Some(b - 87)
    } else {
        None
    }
}

/// Percent-decoding: each `%` followed by two hexadecimal digits stands for
/// the byte they write; every other byte stands for itself.
pub open spec fn percent_decode_spec(s: Seq<u8>) -> Seq<u8>
    decreases s.len(),
{
    if s.len() == 0 {
        seq![]
    } else if s[0] == 37 && s.len() >= 3 && hex_value(s[1]) is Some && hex_value(s[2]) is Some {
        seq![(hex_value(s[1])->0 * 16 + hex_value(s[2])->0) as u8] + percent_decode_spec(
            s.subrange(3, s.len() as int),
        )
    } else {
        seq![s[0]] + percent_decode_spec(s.drop_first())
    }
}

/// `percent_decode_str(s).decode_utf8_lossy()`: percent-decodes the bytes of
/// `s`, then decodes them as UTF-8 with `String::from_utf8_lossy`, as the
/// crate's source does.
#[verifier::external_body]
fn percent_decode_lossy(s: &str) -> (r: String)
    ensures
        r@ == utf8_lossy(percent_decode_spec(encode_utf8(s@))),
        valid_utf8(percent_decode_spec(encode_utf8(s@))) ==> r@ == decode_utf8(
            percent_decode_spec(encode_utf8(s@)),
        ),
{
    percent_decode_str(s).decode_utf8_lossy().into_owned()
}

/// Pushing `rel` onto the Unix path `base`, as `PathBuf::push` does: an
/// absolute `rel` replaces `base`; otherwise a `/` separates them when `base`
/// is not empty and does not end in one.
pub open spec fn path_push(base: Seq<char>, rel: Seq<char>) -> Seq<char> {
    if rel.len() > 0 && rel[0] == '/' {
        rel
    } else if base.len() > 0 && base.last() != '/' {
        base + seq!['/'] + rel
    } else {
        base + rel
    }
}

/// Pushes `rel` onto the path `base`.
pub fn push_path(base: &str, rel: &str) -> (r: String)
    ensures
        r@ == path_push(base@, rel@),
{
    let nb = base.unicode_len();
    let nr = rel.unicode_len();
    if nr > 0 && rel.get_char(0) == '/' {
        return String::from_str(rel);
    }
    let mut r = String::from_str(base);
    if nb > 0 && base.get_char(nb - 1) != '/' {
        r.append("/");
        proof {
            reveal_strlit("/");
            assert("/"@ =~= seq!['/']);
        }
    }
    r.append(rel);
    r
}

/// The file path served for request path `path` under `root`: the path is
/// percent-decoded, read as UTF-8 lossily, and pushed onto `root`.
pub open spec fn static_file_path(root: Seq<char>, path: Seq<char>) -> Seq<char> {
    path_push(root, decoded_request_path(path))
}

/// A request path percent-decoded and read as UTF-8: exactly when the decoded
/// bytes are valid UTF-8, and lossily otherwise.
pub open spec fn decoded_request_path(path: Seq<char>) -> Seq<char> {
    let d = percent_decode_spec(encode_utf8(path));
    if valid_utf8(d) {
        decode_utf8(d)
    } else {
        utf8_lossy(d)
    }
}

/// Finds the file path served for request path `path` under `root`.
pub fn resolve_static_path(root: &str, path: &str) -> (r: String)
    ensures
        r@ == static_file_path(root@, path@),
        r@ == path_push(root@, utf8_lossy(percent_decode_spec(encode_utf8(path@)))),
{
    let decoded = percent_decode_lossy(path);
    push_path(root, decoded.as_str())
}

/// `s` without one leading `/`.
pub open spec fn strip_slash(s: Seq<char>) -> Seq<char> {
    if s.len() > 0 && s[0] == '/' {
        s.drop_first()
    } else {
        s
    }
}

/// The path a request asks for: its target without the query string and
/// without one leading `/`.
pub open spec fn target_path(path: Seq<char>) -> Seq<char> {
    strip_slash(before_first(path, '?'))
}

/// The value of header `name`, or the empty text when it is missing.
pub open spec fn header_or_empty(headers: Map<Seq<char>, Seq<char>>, name: Seq<char>) -> Seq<char> {
    if headers.contains_key(name) {
        headers[name]
    } else {
        Seq::empty()
    }
}

/// What a request asks for.
pub enum Route {
    /// The path holds `..`: send `response` and close.
    Forbidden { response: Vec<u8> },
    /// The WebSocket path without an `Upgrade` header: close without answering.
    UpgradeMissing,
    /// A WebSocket upgrade: send `handshake`, then speak WebSocket.
    Upgrade { upgrade: String, handshake: String },
    /// A static file at `path`, relative to the served root.
    Static { path: String },
}

/// The answer to a path that holds `..`.
pub open spec fn forbidden_response() -> Seq<u8> {
    response_bytes("403 Forbiden"@, encode_utf8("Forbiden"@), "text/html"@)
}

/// Decides what a request asks for.
pub fn route(req: &ParsedHeader) -> (r: Route)
    ensures
        ({
            let p = req@.path;
            let headers = req@.headers;
            if contains_seq(p, seq!['.', '.']) {
                r matches Route::Forbidden { response } && response@ == forbidden_response()
            } else if target_path(p) == "ws"@ {
                if header_or_empty(headers, "Upgrade"@).len() == 0 {
                    r is UpgradeMissing
                } else {
                    r matches Route::Upgrade { upgrade, handshake } && upgrade@ == header_or_empty(
                        headers,
                        "Upgrade"@,
                    ) && handshake@ == handshake_response_spec(
                        accept_key_spec(header_or_empty(headers, "Sec-WebSocket-Key"@)),
                    )
                }
            } else {
                r matches Route::Static { path } && path@ == target_path(p)
            }
        }),
{
    let uri = match check_path(req.path.as_str()) {
        Ok(uri) => uri,
        Err(_) => {
            let mut body: Vec<u8> = Vec::new();
            push_str_bytes(&mut body, "Forbiden");
            let response = build_response("403 Forbiden", body, "text/html");
            return Route::Forbidden { response };
        },
    };
    let path = erase_query_params(uri);
    let n = path.unicode_len();
    let path = if n > 0 && path.get_char(0) == '/' {
        path.substring_char(1, n)
    } else {
        proof {
            assert(path@.subrange(0, n as int) =~= path@);
        }
        path
    };
    assert(path@ == target_path(req@.path)) by {
        if n > 0 && before_first(req@.path, '?')[0] == '/' {
            assert(before_first(req@.path, '?').subrange(1, n as int) =~= before_first(
                req@.path,
                '?',
            ).drop_first());
        }
    }
    if str_eq(path, "ws") {
        let upgrade = match req.headers.get("Upgrade") {
            Some(v) => v.clone(),
            None => String::new(),
        };
        if upgrade.unicode_len() == 0 {
            return Route::UpgradeMissing;
        }
        let key = match req.headers.get("Sec-WebSocket-Key") {
            Some(v) => v.clone(),
            None => String::new(),
        };
        let handshake = handshake_response(key.as_str());
        Route::Upgrade { upgrade, handshake }
    } else {
        Route::Static { path: String::from_str(path) }
    }
}

/// A path that holds no `..` still holds none once its query string and
/// leading `/` are gone: a routed static path never holds `..`.
pub proof fn lemma_target_path_no_dot_dot(p: Seq<char>)
    requires
        !contains_seq(p, seq!['.', '.']),
    ensures
        !contains_seq(target_path(p), seq!['.', '.']),
{
    let q = before_first(p, '?');
    lemma_before_first_prefix(p, '?');
    let off: int = if q.len() > 0 && q[0] == '/' { 1 } else { 0 };
    let t = target_path(p);
    assert(t =~= p.subrange(off, q.len() as int));
    if contains_seq(t, seq!['.', '.']) {
        let i = choose|i: int| 0 <= i && i + 2 <= t.len()
            && #[trigger] t.subrange(i, i + 2) == seq!['.', '.'];
        assert(p.subrange(i + off, i + off + 2) =~= t.subrange(i, i + 2));
    }
}

/// The size a thread pool is built with: zero is refused with error 1.
pub fn check_pool_size(size: usize) -> (r: Result<usize, u32>)
    ensures
        size == 0 ==> r == Err::<usize, u32>(1),
        size != 0 ==> r == Ok::<usize, u32>(size),
{
    if size == 0 {
        Err(1)
    } else {
        Ok(size)
    }
}

} // verus!
