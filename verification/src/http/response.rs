//! HTTP responses: the head and body of a response, and the answer for a
//! static file given what reading it gave.
use crate::text::{
    decimal, last_index_before, last_index_of, lemma_encode_utf8_concat, lemma_last_index_of,
    push_decimal, push_str_bytes, str_eq,
};
use vstd::prelude::*;
use vstd::string::*;
use vstd::utf8::*;

verus! {

/// The head of a response with `status`, a body of `body_len` bytes and `mime`.
pub open spec fn response_head(status: Seq<char>, body_len: nat, mime: Seq<char>) -> Seq<char> {
    "HTTP/1.1 "@ + status + "\r\nContent-Length: "@ + decimal(body_len) + "\r\nContent-Type: "@ + mime
        + "\r\n\r\n"@
}

/// The bytes of a whole response: the head in UTF-8, then the body.
pub open spec fn response_bytes(status: Seq<char>, body: Seq<u8>, mime: Seq<char>) -> Seq<u8> {
    encode_utf8(response_head(status, body.len(), mime)) + body
}

/// Builds a response with the given status line text, body and content type.
pub fn build_response(status: &str, body: Vec<u8>, mime: &str) -> (resp: Vec<u8>)
    ensures
        resp@ == response_bytes(status@, body@, mime@),
{
    let mut resp: Vec<u8> = Vec::new();
    push_str_bytes(&mut resp, "HTTP/1.1 ");
    push_str_bytes(&mut resp, status);
    push_str_bytes(&mut resp, "\r\nContent-Length: ");
    push_decimal(&mut resp, body.len());
    push_str_bytes(&mut resp, "\r\nContent-Type: ");
    push_str_bytes(&mut resp, mime);
    push_str_bytes(&mut resp, "\r\n\r\n");
    proof {
        let a = "HTTP/1.1 "@;
        let b = "\r\nContent-Length: "@;
        let c = "\r\nContent-Type: "@;
        let d = "\r\n\r\n"@;
        let n = decimal(body@.len());
        lemma_encode_utf8_concat(a, status@);
        lemma_encode_utf8_concat(a + status@, b);
        lemma_encode_utf8_concat(a + status@ + b, n);
        lemma_encode_utf8_concat(a + status@ + b + n, c);
        lemma_encode_utf8_concat(a + status@ + b + n + c, mime@);
        lemma_encode_utf8_concat(a + status@ + b + n + c + mime@, d);
        assert(resp@ =~= encode_utf8(response_head(status@, body@.len(), mime@)));
    }
    let ghost head = resp@;
    let mut i: usize = 0;
    while i < body.len()
        invariant
            0 <= i <= body@.len(),
            resp@ =~= head + body@.subrange(0, i as int),
        decreases body@.len() - i,
    {
        resp.push(body[i]);
        i = i + 1;
    }
    assert(body@.subrange(0, body@.len() as int) =~= body@);
    resp
}


/// The last component of a Unix path when it is a name, as `Path::file_name`
/// gives it: trailing `/` and `.` components are passed over, and `..` or a
/// path with no name gives none.
pub open spec fn file_name_of(p: Seq<char>) -> Option<Seq<char>>
    decreases p.len(),
{
    let k = last_index_of(p, '/');
    let seg = p.subrange(k + 1, p.len() as int);
    if seg.len() == 0 || seg == seq!['.'] {
        if k >= 0 {
            proof {
                lemma_last_index_of(p, '/');
            }
            file_name_of(p.subrange(0, k))
        } else {
            None
        }
    } else if seg == seq!['.', '.'] {
        None
    } else {
        Some(seg)
    }
}

/// The extension of a file name, as `Path::extension` gives it: what follows
/// the last `.`, unless there is no `.` or the only one opens the name.
pub open spec fn extension_of(name: Seq<char>) -> Option<Seq<char>> {
    let d = last_index_of(name, '.');
    if d <= 0 {
        None
    } else {
        Some(name.subrange(d + 1, name.len() as int))
    }
}

/// The extension of the file that path `p` names, if any.
pub open spec fn path_extension(p: Seq<char>) -> Option<Seq<char>> {
    match file_name_of(p) {
        Some(name) => extension_of(name),
        None => None,
    }
}

/// The content type served for a file with extension `ext`.
pub open spec fn mime_for(ext: Seq<char>) -> Seq<char> {
    if ext == "html"@ {
        "text/html"@
    } else if ext == "css"@ {
        "text/css"@
    } else if ext == "js"@ {
        "application/javascript"@
    } else if ext == "png"@ {
        "image/png"@
    } else if ext == "jpg"@ || ext == "jpeg"@ {
        "image/jpeg"@
    } else if ext == "webp"@ {
        "image/webp"@
    } else {
        "application/octet-stream"@
    }
}

/// The content type served for the file at path `p`.
pub open spec fn mime_for_path(p: Seq<char>) -> Seq<char> {
    match path_extension(p) {
        Some(ext) => mime_for(ext),
        None => mime_for(""@),
    }
}

/// Finds the file name of a path, as `Path::file_name` does on Unix.
pub fn file_name(p: &str) -> (r: Option<&str>)
    ensures
        match r {
            Some(name) => file_name_of(p@) == Some(name@),
            None => file_name_of(p@) is None,
        },
{
    let n = p.unicode_len();
    let mut end: usize = n;
    assert(p@.subrange(0, n as int) =~= p@);
    loop
        invariant
            end <= n,
            n == p@.len(),
            file_name_of(p@.subrange(0, end as int)) == file_name_of(p@),
        decreases end,
    {
        let ghost q = p@.subrange(0, end as int);
        let slash = last_index_before(p, '/', end);
        proof {
            lemma_last_index_of(q, '/');
            reveal_strlit("");
            reveal_strlit(".");
            reveal_strlit("..");
            assert(""@ =~= Seq::<char>::empty());
            assert("."@ =~= seq!['.']);
            assert(".."@ =~= seq!['.', '.']);
        }
        let start: usize = match slash {
            Some(k) => k + 1,
            None => 0,
        };
        let seg = p.substring_char(start, end);
        assert(seg@ =~= q.subrange(last_index_of(q, '/') + 1, q.len() as int));
        if str_eq(seg, "") || str_eq(seg, ".") {
            match slash {
                Some(k) => {
                    assert(q.subrange(0, k as int) =~= p@.subrange(0, k as int));
                    end = k;
                },
                None => {
                    return None;
                },
            }
        } else if str_eq(seg, "..") {
            return None;
        } else {
            proof {
                if seg@.len() == 0 {
                    assert(seg@ =~= ""@);
                }
                assert(seg@ != seq!['.']);
                assert(seg@ != seq!['.', '.']);
            }
            return Some(seg);
        }
    }
}

/// Finds the extension of a file name, as `Path::extension` does.
pub fn extension(name: &str) -> (r: Option<&str>)
    ensures
        match r {
            Some(e) => extension_of(name@) == Some(e@),
            None => extension_of(name@) is None,
        },
{
    let n = name.unicode_len();
    assert(name@.subrange(0, n as int) =~= name@);
    match last_index_before(name, '.', n) {
        Some(d) => {
            if d == 0 {
                None
            } else {
                proof {
                    lemma_last_index_of(name@, '.');
                }
                Some(name.substring_char(d + 1, n))
            }
        },
        None => None,
    }
}

/// The content type for a file extension; an unknown one is served as bytes.
pub fn mime_type(ext: &str) -> (m: &'static str)
    ensures
        m@ == mime_for(ext@),
{
    if str_eq(ext, "html") {
        "text/html"
    } else if str_eq(ext, "css") {
        "text/css"
    } else if str_eq(ext, "js") {
        "application/javascript"
    } else if str_eq(ext, "png") {
        "image/png"
    } else if str_eq(ext, "jpg") || str_eq(ext, "jpeg") {
        "image/jpeg"
    } else if str_eq(ext, "webp") {
        "image/webp"
    } else {
        "application/octet-stream"
    }
}

/// The content type served for the file at `path`.
pub fn mime_type_for_path(path: &str) -> (m: &'static str)
    ensures
        m@ == mime_for_path(path@),
{
    match file_name(path) {
        Some(name) => match extension(name) {
            Some(ext) => mime_type(ext),
            None => mime_type(""),
        },
        None => mime_type(""),
    }
}

/// What reading a file gave.
pub enum FileRead {
    /// The file's bytes.
    Content(Vec<u8>),
    /// There is no such file.
    NotFound,
    /// Reading failed in another way.
    Failed,
}

/// The bytes of `s`, as a vector.
fn str_to_bytes(s: &str) -> (v: Vec<u8>)
    ensures
        v@ == encode_utf8(s@),
{
    let mut v: Vec<u8> = Vec::new();
    push_str_bytes(&mut v, s);
    v
}

/// The answer for a file at `path` given what reading it gave: its bytes with
/// the content type of its extension, 404 when it is missing, 500 otherwise.
pub fn build_file_response(path: &str, read: FileRead) -> (resp: Vec<u8>)
    ensures
        resp@ == match read {
            FileRead::Content(c) => response_bytes("200 OK"@, c@, mime_for_path(path@)),
            FileRead::NotFound => response_bytes(
                "404 NOT FOUND"@,
                encode_utf8("File Not Found"@),
                "text/plain"@,
            ),
            FileRead::Failed => response_bytes("500 INTERNAL SERVER ERROR"@, Seq::empty(), "text/plain"@),
        },
{
    let content_type = mime_type_for_path(path);
    match read {
        FileRead::Content(content) => build_response("200 OK", content, content_type),
        FileRead::NotFound => build_response(
            "404 NOT FOUND",
            str_to_bytes("File Not Found"),
            "text/plain",
        ),
        FileRead::Failed => build_response("500 INTERNAL SERVER ERROR", Vec::new(), "text/plain"),
    }
}

/// The answer to a request for the static path `path`: `None` when no regular
/// file stands there, else what reading it gave.
pub fn static_response(path: &str, file: Option<FileRead>) -> (resp: Vec<u8>)
    ensures
        match file {
            None => resp@ == response_bytes("404 Not Found"@, encode_utf8("Not Found"@), "text/html"@),
            Some(read) => resp@ == match read {
                FileRead::Content(c) => response_bytes("200 OK"@, c@, mime_for_path(path@)),
                FileRead::NotFound => response_bytes(
                    "404 NOT FOUND"@,
                    encode_utf8("File Not Found"@),
                    "text/plain"@,
                ),
                FileRead::Failed => response_bytes(
                    "500 INTERNAL SERVER ERROR"@,
                    Seq::empty(),
                    "text/plain"@,
                ),
            },
        },
{
    match file {
        Some(read) => build_file_response(path, read),
        None => build_response("404 Not Found", str_to_bytes("Not Found"), "text/html"),
    }
}

} // verus!
