//! Properties of the wire formats and of serving, each stated over all inputs.
use crate::http::request::content_length;
use crate::http::response::{
    extension_of, file_name_of, mime_for, mime_for_path, path_extension,
};
use crate::http::serv::{hex_value, path_push, percent_decode_spec, static_file_path};
use crate::http::websocket::{
    frame_len, frame_opcode, frame_payload, frame_payload_len, frame_ready, frame_too_large,
    text_frame, unmask_spec,
};
use crate::text::{decimal, last_index_of, lemma_parse_u16_decimal};
use vstd::prelude::*;
use vstd::utf8::*;

verus! {

/// A client frame with the 16-bit length form (length code 126, then the
/// length in two big-endian bytes) is read whole: the payload length is the
/// announced one, the frame spans header, mask and payload, and the payload
/// comes out unmasked. Whatever follows the frame is left alone.
pub proof fn law_read_frame_16bit_length(b0: u8, mask: Seq<u8>, payload: Seq<u8>, rest: Seq<u8>)
    requires
        mask.len() == 4,
        payload.len() <= 65535,
    ensures
        ({
            let n = payload.len();
            let s = seq![b0, 0xFEu8, (n / 256) as u8, (n % 256) as u8] + mask + payload + rest;
            &&& frame_ready(s)
            &&& !frame_too_large(s)
            &&& frame_payload_len(s) == n
            &&& frame_len(s) == n + 8
            &&& frame_payload(s) == unmask_spec(payload, mask)
            &&& frame_opcode(s) == b0 % 16
        }),
{
    let n = payload.len();
    let head = seq![b0, 0xFEu8, (n / 256) as u8, (n % 256) as u8];
    let s = head + mask + payload + rest;
    assert(s[1] == 0xFEu8);
    assert(s[2] == (n / 256) as u8);
    assert(s[3] == (n % 256) as u8);
    assert(((n / 256) as u8) as int * 256 + ((n % 256) as u8) as int == n);
    assert(s.subrange(4, 8) =~= mask);
    assert(s.subrange(8, 8 + n as int) =~= payload);
}

/// A client frame with the seven-bit length form (up to 125 bytes) is read
/// whole in the same way.
pub proof fn law_read_frame_7bit_length(b0: u8, mask: Seq<u8>, payload: Seq<u8>, rest: Seq<u8>)
    requires
        mask.len() == 4,
        payload.len() <= 125,
    ensures
        ({
            let n = payload.len();
            let s = seq![b0, (0x80 + n) as u8] + mask + payload + rest;
            &&& frame_ready(s)
            &&& frame_payload_len(s) == n
            &&& frame_len(s) == n + 6
            &&& frame_payload(s) == unmask_spec(payload, mask)
            &&& frame_opcode(s) == b0 % 16
        }),
{
    let n = payload.len();
    let s = seq![b0, (0x80 + n) as u8] + mask + payload + rest;
    assert(s[1] == (0x80 + n) as u8);
    assert(s.subrange(2, 6) =~= mask);
    assert(s.subrange(6, 6 + n as int) =~= payload);
}

/// Every length code of 126 announces the big-endian 16-bit value of the two
/// bytes after it.
pub proof fn law_frame_length_is_big_endian(s: Seq<u8>)
    requires
        s.len() >= 4,
        s[1] % 128 == 126,
    ensures
        frame_payload_len(s) == s[2] as int * 256 + s[3] as int,
        frame_len(s) == 8 + s[2] as int * 256 + s[3] as int,
{
}

/// A reply frame is a final, unmasked text frame whose length field states the
/// payload length: one byte up to 125, else code 126 and the length in two
/// big-endian bytes (the low 16 bits of it). Its second byte is never above 126.
pub proof fn law_text_frame_header(p: Seq<u8>)
    ensures
        text_frame(p)[0] == 0x81u8,
        text_frame(p)[1] <= 126,
        p.len() <= 125 ==> text_frame(p) == seq![0x81u8, p.len() as u8] + p,
        125 < p.len() <= 65535 ==> text_frame(p) == seq![
            0x81u8,
            126u8,
            (p.len() / 256) as u8,
            (p.len() % 256) as u8,
        ] + p,
        125 < p.len() ==> text_frame(p).subrange(4, text_frame(p).len() as int) == p,
{
    let t = text_frame(p);
    if p.len() > 125 {
        assert(t.subrange(4, t.len() as int) =~= p);
    }
}

/// The `Content-Length` that a head announces is the number its value writes,
/// for every length that fits in 16 bits.
pub proof fn law_content_length_decimal(headers: Map<Seq<char>, Seq<char>>, n: u16)
    requires
        headers.contains_key("Content-Length"@),
        headers["Content-Length"@] == decimal(n as nat),
    ensures
        content_length(headers) == n,
{
    lemma_parse_u16_decimal(n);
}

/// A head without `Content-Length` announces no body.
pub proof fn law_content_length_missing(headers: Map<Seq<char>, Seq<char>>)
    requires
        !headers.contains_key("Content-Length"@),
    ensures
        content_length(headers) == 0,
{
}

/// The last `c` of `x + y` is the last of `x` when `y` holds no `c`.
proof fn lemma_last_index_of_suffix(x: Seq<char>, y: Seq<char>, c: char)
    requires
        forall|i: int| 0 <= i < y.len() ==> y[i] != c,
    ensures
        last_index_of(x + y, c) == last_index_of(x, c),
    decreases y.len(),
{
    if y.len() == 0 {
        assert(x + y =~= x);
    } else {
        assert((x + y).drop_last() =~= x + y.drop_last());
        assert((x + y).last() == y.last());
        lemma_last_index_of_suffix(x, y.drop_last(), c);
    }
}

/// The file at `dir/stem.ext` has extension `ext`, for any directory, any
/// non-empty stem without `/`, and any non-empty extension without `/` or `.`.
pub proof fn lemma_path_extension(dir: Seq<char>, stem: Seq<char>, ext: Seq<char>)
    requires
        stem.len() > 0,
        ext.len() > 0,
        forall|i: int| 0 <= i < stem.len() ==> stem[i] != '/',
        forall|i: int| 0 <= i < ext.len() ==> ext[i] != '/' && ext[i] != '.',
    ensures
        path_extension(dir + seq!['/'] + stem + seq!['.'] + ext) == Some(ext),
{
    let name = stem + seq!['.'] + ext;
    let p = dir + seq!['/'] + stem + seq!['.'] + ext;
    assert(p =~= (dir + seq!['/']) + name);
    assert forall|i: int| 0 <= i < name.len() implies name[i] != '/' by {
        if i < stem.len() {
            assert(name[i] == stem[i]);
        } else if i > stem.len() {
            assert(name[i] == ext[i - stem.len() - 1]);
        }
    }
    lemma_last_index_of_suffix(dir + seq!['/'], name, '/');
    assert((dir + seq!['/']).drop_last() =~= dir);
    assert(last_index_of(dir + seq!['/'], '/') == dir.len());
    assert(p.subrange(dir.len() as int + 1, p.len() as int) =~= name);
    assert(name.len() >= 3);
    assert(name != seq!['.']);
    assert(name != seq!['.', '.']);
    assert(file_name_of(p) == Some(name));
    lemma_last_index_of_suffix(stem + seq!['.'], ext, '.');
    assert((stem + seq!['.']).drop_last() =~= stem);
    assert(last_index_of(stem + seq!['.'], '.') == stem.len());
    assert(name =~= (stem + seq!['.']) + ext);
    assert(name.subrange(stem.len() as int + 1, name.len() as int) =~= ext);
    assert(extension_of(name) == Some(ext));
}

/// Every listed extension is served with its content type, whatever the
/// directory and the (non-empty, `/`-free) stem of the file name.
pub proof fn law_mime_types(dir: Seq<char>, stem: Seq<char>)
    requires
        stem.len() > 0,
        forall|i: int| 0 <= i < stem.len() ==> stem[i] != '/',
    ensures
        mime_for_path(dir + seq!['/'] + stem + seq!['.'] + seq!['h', 't', 'm', 'l']) == "text/html"@,
        mime_for_path(dir + seq!['/'] + stem + seq!['.'] + seq!['c', 's', 's']) == "text/css"@,
        mime_for_path(dir + seq!['/'] + stem + seq!['.'] + seq!['j', 's'])
            == "application/javascript"@,
        mime_for_path(dir + seq!['/'] + stem + seq!['.'] + seq!['p', 'n', 'g']) == "image/png"@,
        mime_for_path(dir + seq!['/'] + stem + seq!['.'] + seq!['j', 'p', 'g']) == "image/jpeg"@,
        mime_for_path(dir + seq!['/'] + stem + seq!['.'] + seq!['j', 'p', 'e', 'g']) == "image/jpeg"@,
        mime_for_path(dir + seq!['/'] + stem + seq!['.'] + seq!['w', 'e', 'b', 'p']) == "image/webp"@,
        mime_for_path(dir + seq!['/'] + stem + seq!['.'] + seq!['b', 'i', 'n'])
            == "application/octet-stream"@,
{
    reveal_strlit("html");
    reveal_strlit("css");
    reveal_strlit("js");
    reveal_strlit("png");
    reveal_strlit("jpg");
    reveal_strlit("jpeg");
    reveal_strlit("webp");
    assert("html"@ =~= seq!['h', 't', 'm', 'l']);
    assert("css"@ =~= seq!['c', 's', 's']);
    assert("js"@ =~= seq!['j', 's']);
    assert("png"@ =~= seq!['p', 'n', 'g']);
    assert("jpg"@ =~= seq!['j', 'p', 'g']);
    assert("jpeg"@ =~= seq!['j', 'p', 'e', 'g']);
    assert("webp"@ =~= seq!['w', 'e', 'b', 'p']);
    lemma_path_extension(dir, stem, seq!['h', 't', 'm', 'l']);
    lemma_path_extension(dir, stem, seq!['c', 's', 's']);
    lemma_path_extension(dir, stem, seq!['j', 's']);
    lemma_path_extension(dir, stem, seq!['p', 'n', 'g']);
    lemma_path_extension(dir, stem, seq!['j', 'p', 'g']);
    lemma_path_extension(dir, stem, seq!['j', 'p', 'e', 'g']);
    lemma_path_extension(dir, stem, seq!['w', 'e', 'b', 'p']);
    lemma_path_extension(dir, stem, seq!['b', 'i', 'n']);
    assert(seq!['b', 'i', 'n'] != "html"@);
    assert(seq!['b', 'i', 'n'] != "css"@);
    assert(seq!['b', 'i', 'n'] != "js"@);
    assert(seq!['b', 'i', 'n'] != "png"@);
    assert(seq!['b', 'i', 'n'] != "jpg"@);
    assert(seq!['b', 'i', 'n'] != "jpeg"@);
    assert(seq!['b', 'i', 'n'] != "webp"@);
}

/// Bytes without `%` percent-decode to themselves.
proof fn lemma_percent_decode_plain(b: Seq<u8>)
    requires
        forall|i: int| 0 <= i < b.len() ==> b[i] != 37,
    ensures
        percent_decode_spec(b) == b,
    decreases b.len(),
{
    if b.len() > 0 {
        lemma_percent_decode_plain(b.drop_first());
        assert(b =~= seq![b[0]] + b.drop_first());
    }
}

/// No byte of the UTF-8 encoding of a character other than `%` is `%`'s byte.
proof fn lemma_encode_scalar_no_percent(c: char)
    requires
        c != '%',
    ensures
        forall|j: int| 0 <= j < encode_scalar(c as u32).len() ==> #[trigger] encode_scalar(c as u32)[j] != 37,
{
    let v = c as u32;
    assert(forall|y: u8| #[trigger] (0xC0u8 | y) >= 0x80u8) by (bit_vector);
    assert(forall|y: u8| #[trigger] (0xE0u8 | y) >= 0x80u8) by (bit_vector);
    assert(forall|y: u8| #[trigger] (0xF0u8 | y) >= 0x80u8) by (bit_vector);
    assert(forall|y: u8| #[trigger] (0x80u8 | y) >= 0x80u8) by (bit_vector);
    if has_width_1_encoding(v) {
        assert(v <= 0x7F ==> (v & 0x7F) as u8 == v) by (bit_vector);
        assert(v != 37);
    }
}

/// No byte of the UTF-8 encoding of a text without `%` is `%`'s byte.
proof fn lemma_encode_no_percent(p: Seq<char>)
    requires
        forall|i: int| 0 <= i < p.len() ==> p[i] != '%',
    ensures
        forall|j: int| 0 <= j < encode_utf8(p).len() ==> encode_utf8(p)[j] != 37,
    decreases p.len(),
{
    if p.len() > 0 {
        lemma_encode_no_percent(p.drop_first());
        lemma_encode_scalar_no_percent(p[0]);
        let a = encode_scalar(p[0] as u32);
        let b = encode_utf8(p.drop_first());
        assert(encode_utf8(p) == a + b);
        assert forall|j: int| 0 <= j < encode_utf8(p).len() implies encode_utf8(p)[j] != 37 by {
            if j < a.len() {
                assert((a + b)[j] == a[j]);
            } else {
                assert((a + b)[j] == b[j - a.len()]);
            }
        }
    }
}

/// Only `%` escapes are decoded: a request path without `%` names the file at
/// that very path under the root (`+` and every other character stand for
/// themselves).
pub proof fn law_static_path_without_escapes(root: Seq<char>, path: Seq<char>)
    requires
        forall|i: int| 0 <= i < path.len() ==> path[i] != '%',
    ensures
        static_file_path(root, path) == path_push(root, path),
{
    lemma_encode_no_percent(path);
    lemma_percent_decode_plain(encode_utf8(path));
    encode_utf8_valid_utf8(path);
    encode_utf8_decode_utf8(path);
}

/// A `%` followed by two hexadecimal digits stands for the byte they write.
pub proof fn law_percent_escape(hi: u8, lo: u8, rest: Seq<u8>)
    requires
        hex_value(hi) is Some,
        hex_value(lo) is Some,
    ensures
        percent_decode_spec(seq![37u8, hi, lo] + rest) == seq![
            (hex_value(hi)->0 * 16 + hex_value(lo)->0) as u8,
        ] + percent_decode_spec(rest),
{
    let s = seq![37u8, hi, lo] + rest;
    assert(s.subrange(3, s.len() as int) =~= rest);
}

} // verus!
