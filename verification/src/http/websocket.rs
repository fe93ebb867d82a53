//! WebSocket frames on an open connection: reading one client frame from the
//! bytes received so far, unmasking its payload, and framing the reply.
use crate::buffer::{buffer_as_slice, buffer_put_slice, buffer_split_to, bytes_mut_contents};
use crate::text::{decode_utf8_lossy, lemma_encode_utf8_concat, push_str_bytes, utf8_lossy};
use base64::engine::general_purpose;
use base64::Engine;
use bytes::BytesMut;
use sha1::{Digest, Sha1};
use vstd::prelude::*;
use vstd::string::*;
use vstd::utf8::*;

verus! {

/// The seven-bit payload length field of a frame that starts `s`.
pub open spec fn length_code(s: Seq<u8>) -> int {
    (s[1] % 128) as int
}

/// The frame at the start of `s` announces a 64-bit payload length, which is refused.
pub open spec fn frame_too_large(s: Seq<u8>) -> bool {
    s.len() >= 2 && length_code(s) == 127
}

/// Bytes of the frame header before the mask: two, or four with a 16-bit length.
pub open spec fn frame_header_len(s: Seq<u8>) -> int {
    if length_code(s) == 126 {
        4
    } else {
        2
    }
}

/// The payload length that the frame at the start of `s` announces.
pub open spec fn frame_payload_len(s: Seq<u8>) -> int {
    if length_code(s) == 126 {
        s[2] as int * 256 + s[3] as int
    } else {
        length_code(s)
    }
}

/// Header, four mask bytes and payload of the frame at the start of `s`.
pub open spec fn frame_len(s: Seq<u8>) -> int {
    frame_header_len(s) + 4 + frame_payload_len(s)
}

/// `s` starts with a whole frame that can be read.
pub open spec fn frame_ready(s: Seq<u8>) -> bool {
    &&& s.len() >= 2
    &&& !frame_too_large(s)
    &&& !(length_code(s) == 126 && s.len() < 4)
    &&& s.len() >= frame_len(s)
}

/// The opcode of the frame at the start of `s`.
pub open spec fn frame_opcode(s: Seq<u8>) -> u8 {
    s[0] % 16
}

/// Each payload byte XORed with the mask byte at its position modulo four.
pub open spec fn unmask_spec(payload: Seq<u8>, mask: Seq<u8>) -> Seq<u8> {
    Seq::new(payload.len(), |i: int| payload[i] ^ mask[i % 4])
}

/// The unmasked payload of the frame at the start of `s`.
pub open spec fn frame_payload(s: Seq<u8>) -> Seq<u8> {
    let h = frame_header_len(s);
    unmask_spec(s.subrange(h + 4, frame_len(s)), s.subrange(h, h + 4))
}

/// The text that answers a message: a fixed greeting, then the message.
pub open spec fn reply_text(message: Seq<char>) -> Seq<char> {
    "收到了"@ + message
}

/// An unmasked final text frame that carries `payload`. The 16-bit length form
/// keeps only the low 16 bits of the length, as a `u16` cast does.
pub open spec fn text_frame(payload: Seq<u8>) -> Seq<u8> {
    let n = payload.len();
    let head = if n <= 125 {
        seq![0x81u8, n as u8]
    } else {
        seq![0x81u8, 126u8, ((n % 65536) / 256) as u8, (n % 256) as u8]
    };
    head + payload
}

/// The answer to what a read brought on a WebSocket connection.
pub enum WsAction {
    /// No whole frame yet: read more.
    NeedMore,
    /// The frame announces a 64-bit length: the connection is given up.
    TooLarge,
    /// A close frame: send `reply` and end the connection.
    Close { reply: Vec<u8> },
    /// Any other frame: send `reply`, the answer to `text`.
    Message {
        fin: u8,
        opcode: u8,
        masked: u8,
        payload_len: usize,
        text: String,
        reply: Vec<u8>,
    },
}

/// Unmasks a payload with a four-byte mask.
pub fn unmask(payload: &[u8], mask: &[u8]) -> (out: Vec<u8>)
    requires
        mask@.len() == 4,
    ensures
        out@ == unmask_spec(payload@, mask@),
{
    let mut out: Vec<u8> = Vec::new();
    let mut i: usize = 0;
    while i < payload.len()
        invariant
            0 <= i <= payload@.len(),
            mask@.len() == 4,
            out@ =~= unmask_spec(payload@, mask@).subrange(0, i as int),
        decreases payload@.len() - i,
    {
        out.push(payload[i] ^ mask[i % 4]);
        i = i + 1;
    }
    out
}

/// Frames `payload` as an unmasked final text frame.
pub fn build_text_frame(payload: &[u8]) -> (frame: Vec<u8>)
    ensures
        frame@ == text_frame(payload@),
{
    let n = payload.len();
    let mut frame: Vec<u8> = Vec::new();
    frame.push(0x81u8);
    if n <= 125 {
        frame.push(n as u8);
    } else {
        frame.push(126u8);
        frame.push(((n % 65536) / 256) as u8);
        frame.push((n % 256) as u8);
    }
    let ghost head = frame@;
    let mut i: usize = 0;
    while i < n
        invariant
            0 <= i <= n,
            n == payload@.len(),
            frame@ =~= head + payload@.subrange(0, i as int),
        decreases n - i,
    {
        frame.push(payload[i]);
        i = i + 1;
    }
    assert(payload@.subrange(0, n as int) =~= payload@);
    frame
}

/// Takes in what one read brought (`chunk`) and reads the frame at the start
/// of the bytes held, if it is whole. A read frame leaves the buffer; the
/// bytes after it stay for the next call.
pub fn ws_receive(buf: &mut BytesMut, chunk: &[u8]) -> (action: WsAction)
    requires
        bytes_mut_contents(*old(buf)).len() + chunk@.len() <= isize::MAX,
    ensures
        ({
            let s = bytes_mut_contents(*old(buf)) + chunk@;
            match action {
                WsAction::NeedMore => !frame_ready(s) && !frame_too_large(s)
                    && bytes_mut_contents(*final(buf)) == s,
                WsAction::TooLarge => frame_too_large(s) && bytes_mut_contents(*final(buf)) == s,
                WsAction::Close { reply } => {
                    &&& frame_ready(s)
                    &&& frame_opcode(s) == 8
                    &&& bytes_mut_contents(*final(buf)) == s.subrange(frame_len(s), s.len() as int)
                    &&& reply@ == seq![0x88u8, 0x00u8]
                },
                WsAction::Message { fin, opcode, masked, payload_len, text, reply } => {
                    &&& frame_ready(s)
                    &&& frame_opcode(s) != 8
                    &&& bytes_mut_contents(*final(buf)) == s.subrange(frame_len(s), s.len() as int)
                    &&& fin == s[0] / 128
                    &&& opcode == frame_opcode(s)
                    &&& masked == s[1] / 128
                    &&& payload_len == frame_payload_len(s)
                    &&& text@ == utf8_lossy(frame_payload(s))
                    &&& valid_utf8(frame_payload(s)) ==> text@ == decode_utf8(frame_payload(s))
                    &&& reply@ == text_frame(encode_utf8(reply_text(text@)))
                },
            }
        }),
{
    let ghost s = bytes_mut_contents(*buf) + chunk@;
    buffer_put_slice(buf, chunk);
    let held = buffer_as_slice(buf);
    let n = held.len();
    if n < 2 {
        return WsAction::NeedMore;
    }
    let b0 = held[0];
    let b1 = held[1];
    let code = b1 % 128;
    if code == 126 && n < 4 {
        return WsAction::NeedMore;
    } else if code == 127 {
        return WsAction::TooLarge;
    }
    let header_len: usize;
    let payload_len: usize;
    if code == 126 {
        header_len = 4;
        payload_len = (held[2] as usize) * 256 + (held[3] as usize);
    } else {
        header_len = 2;
        payload_len = code as usize;
    }
    if n < header_len + payload_len + 4 {
        return WsAction::NeedMore;
    }
    let _header = buffer_split_to(buf, header_len);
    let mask_buf = buffer_split_to(buf, 4);
    let body_buf = buffer_split_to(buf, payload_len);
    proof {
        assert(bytes_mut_contents(mask_buf) =~= s.subrange(header_len as int, header_len + 4));
        assert(bytes_mut_contents(body_buf) =~= s.subrange(
            header_len + 4,
            header_len + 4 + payload_len,
        ));
        assert(bytes_mut_contents(*buf) =~= s.subrange(frame_len(s), s.len() as int));
    }
    let decoded = unmask(buffer_as_slice(&body_buf), buffer_as_slice(&mask_buf));
    if b0 % 16 == 8 {
        let mut reply: Vec<u8> = Vec::new();
        reply.push(0x88u8);
        reply.push(0x00u8);
        assert(reply@ =~= seq![0x88u8, 0x00u8]);
        return WsAction::Close { reply };
    }
    let text = decode_utf8_lossy(decoded.as_slice());
    let mut answer: Vec<u8> = Vec::new();
    push_str_bytes(&mut answer, "收到了");
    push_str_bytes(&mut answer, text.as_str());
    proof {
        lemma_encode_utf8_concat("收到了"@, text@);
        assert(answer@ =~= encode_utf8(reply_text(text@)));
    }
    let reply = build_text_frame(answer.as_slice());
    WsAction::Message { fin: b0 / 128, opcode: b0 % 16, masked: b1 / 128, payload_len, text, reply }
}

/// Unmasking twice with the same mask gives the payload back: masking is its own inverse.
pub proof fn lemma_unmask_involution(payload: Seq<u8>, mask: Seq<u8>)
    requires
        mask.len() == 4,
    ensures
        unmask_spec(unmask_spec(payload, mask), mask) == payload,
{
    assert forall|i: int| 0 <= i < payload.len() implies #[trigger] unmask_spec(
        unmask_spec(payload, mask),
        mask,
    )[i] == payload[i] by {
        let p = payload[i];
        let m = mask[i % 4];
        assert((p ^ m) ^ m == p) by (bit_vector);
    }
    assert(unmask_spec(unmask_spec(payload, mask), mask) =~= payload);
}


/// The character of the standard base64 alphabet for a six-bit value.
pub open spec fn base64_char(v: int) -> char {
    if v < 26 {
        (v + 65) as char
    } else if v < 52 {
        (v - 26 + 97) as char
    } else if v < 62 {
        (v - 52 + 48) as char
    } else if v == 62 {
        '+'
    } else {
        '/'
    }
}

/// Standard base64 with `=` padding (RFC 4648, section 4).
pub open spec fn base64_encode_spec(s: Seq<u8>) -> Seq<char>
    decreases s.len(),
{
    if s.len() == 0 {
        seq![]
    } else {
        let a = s[0] as int;
        let b = if s.len() > 1 { s[1] as int } else { 0 };
        let c = if s.len() > 2 { s[2] as int } else { 0 };
        if s.len() == 1 {
            seq![base64_char(a / 4), base64_char((a % 4) * 16), '=', '=']
        } else if s.len() == 2 {
            seq![base64_char(a / 4), base64_char((a % 4) * 16 + b / 16), base64_char((b % 16) * 4), '=']
        } else {
            seq![
                base64_char(a / 4),
                base64_char((a % 4) * 16 + b / 16),
                base64_char((b % 16) * 4 + c / 64),
                base64_char(c % 64),
            ] + base64_encode_spec(s.subrange(3, s.len() as int))
        }
    }
}

/// The SHA-1 digest of `data`.
pub uninterp spec fn sha1_of(data: Seq<u8>) -> Seq<u8>;

/// `sha1::Sha1` through `Digest::digest`: the twenty-byte SHA-1 hash of `data`.
#[verifier::external_body]
fn sha1_digest(data: &[u8]) -> (hash: Vec<u8>)
    ensures
        hash@ == sha1_of(data@),
        hash@.len() == 20,
{
    Sha1::digest(data).to_vec()
}

/// `base64::engine::general_purpose::STANDARD.encode`: standard alphabet, padded.
/// It panics when the encoded length overflows `usize`, which `requires` leaves out.
#[verifier::external_body]
fn base64_standard_encode(data: &[u8]) -> (encoded: String)
    requires
        data@.len() <= usize::MAX / 2,
    ensures
        encoded@ == base64_encode_spec(data@),
{
    general_purpose::STANDARD.encode(data)
}

/// The GUID that RFC 6455 appends to the client's key.
pub open spec fn websocket_guid() -> Seq<char> {
    "258EAFA5-E914-47DA-95CA-C5AB0DC85B11"@
}

/// The `Sec-WebSocket-Accept` value for a client's `Sec-WebSocket-Key`.
pub open spec fn accept_key_spec(key: Seq<char>) -> Seq<char> {
    base64_encode_spec(sha1_of(encode_utf8(key) + encode_utf8(websocket_guid())))
}

/// Computes the `Sec-WebSocket-Accept` value for a client's key.
pub fn websocket_accept_key(key: &str) -> (accept: String)
    ensures
        accept@ == accept_key_spec(key@),
{
    let mut data: Vec<u8> = Vec::new();
    push_str_bytes(&mut data, key);
    push_str_bytes(&mut data, "258EAFA5-E914-47DA-95CA-C5AB0DC85B11");
    let hash = sha1_digest(data.as_slice());
    base64_standard_encode(hash.as_slice())
}

/// The `101 Switching Protocols` answer that carries `accept`.
pub open spec fn handshake_response_spec(accept: Seq<char>) -> Seq<char> {
    "HTTP/1.1 101 Switching Protocols\r\nUpgrade: websocket\r\nConnection: Upgrade\r\nSec-WebSocket-Accept: "@
        + accept + "\r\n\r\n"@
}

/// The handshake answer to a client that sent `key`.
pub fn handshake_response(key: &str) -> (response: String)
    ensures
        response@ == handshake_response_spec(accept_key_spec(key@)),
{
    let accept = websocket_accept_key(key);
    let mut response = String::from_str(
        "HTTP/1.1 101 Switching Protocols\r\nUpgrade: websocket\r\nConnection: Upgrade\r\nSec-WebSocket-Accept: ",
    );
    response.append(accept.as_str());
    response.append("\r\n\r\n");
    response
}

} // verus!
