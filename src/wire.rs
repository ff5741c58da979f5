use crate::message::{MessageModel, MessageType};
use vstd::prelude::*;
use vstd::utf8::{decode_utf8, encode_utf8, valid_utf8};

verus! {

broadcast use {vstd::utf8::encode_utf8_valid_utf8, vstd::utf8::encode_utf8_decode_utf8};

/// The largest payload, in bytes, that `encode` frames for any message but `Leave`.
pub const MAX_MESSAGE_SIZE: usize = 100_000;

/// Why a message could not be framed or a frame could not be read.
#[derive(Debug, Clone, Copy, PartialEq, Eq, Structural)]
pub enum CodecError {
    /// The payload is over `MAX_MESSAGE_SIZE` (and the message is no `Leave`),
    /// or over what a four-byte length can state.
    PayloadTooLarge,
    /// The bytes are truncated or are not a frame of any message.
    DecodeError,
}

/// The four bytes of `n` in big-endian order.
pub open spec fn be32(n: nat) -> Seq<u8> {
    seq![
        ((n / 0x1000000) % 0x100) as u8,
        ((n / 0x10000) % 0x100) as u8,
        ((n / 0x100) % 0x100) as u8,
        (n % 0x100) as u8,
    ]
}

/// The number that four big-endian bytes stand for.
pub open spec fn be32_value(b: Seq<u8>) -> nat {
    (b[0] as nat) * 0x1000000 + (b[1] as nat) * 0x10000 + (b[2] as nat) * 0x100 + (b[3] as nat)
}

/// A byte string on the wire: its length in four bytes, then the bytes.
pub open spec fn field(b: Seq<u8>) -> Seq<u8> {
    be32(b.len()) + b
}

/// A text on the wire: the field of its UTF-8 bytes.
pub open spec fn text(s: Seq<char>) -> Seq<u8> {
    field(encode_utf8(s))
}

/// The tag byte that opens the payload of each kind of message.
pub open spec fn tag_of(m: MessageModel) -> u8 {
    match m {
        MessageModel::Info(_) => 0,
        MessageModel::Leave(_) => 1,
        MessageModel::Message(_, _) => 2,
        MessageModel::Error(_) => 3,
        MessageModel::Command(_) => 4,
        MessageModel::Pseudonym(_) => 5,
        MessageModel::File(_, _) => 6,
        MessageModel::Image(_, _) => 7,
    }
}

/// The serialized message: its tag, then its fields in order.
pub open spec fn payload_of(m: MessageModel) -> Seq<u8> {
    seq![tag_of(m)] + match m {
        MessageModel::Info(s) => text(s),
        MessageModel::Leave(s) => text(s),
        MessageModel::Message(p, s) => text(p) + text(s),
        MessageModel::Error(s) => text(s),
        MessageModel::Command(s) => text(s),
        MessageModel::Pseudonym(s) => text(s),
        MessageModel::File(n, b) => text(n) + field(b),
        MessageModel::Image(n, b) => text(n) + field(b),
    }
}

/// One frame: the payload's length in four big-endian bytes, then the payload.
pub open spec fn frame_of(m: MessageModel) -> Seq<u8> {
    be32(payload_of(m).len()) + payload_of(m)
}

/// The payload's length can be written in the four bytes of the frame header.
pub open spec fn frame_fits(m: MessageModel) -> bool {
    payload_of(m).len() <= u32::MAX
}

/// `encode` frames the message: it fits a frame, and it is a `Leave` or its
/// payload is at most `MAX_MESSAGE_SIZE` bytes.
pub open spec fn encodable(m: MessageModel) -> bool {
    frame_fits(m) && (m is Leave || payload_of(m).len() <= MAX_MESSAGE_SIZE)
}

/// Reads the field that starts at `pos`: its bytes and the position after it.
pub open spec fn parse_field(b: Seq<u8>, pos: int) -> Option<(Seq<u8>, int)> {
    if 0 <= pos && pos + 4 <= b.len() {
        let n = be32_value(b.subrange(pos, pos + 4));
        if pos + 4 + n <= b.len() {
            Some((b.subrange(pos + 4, pos + 4 + n), pos + 4 + n))
        } else {
            None
        }
    } else {
        None
    }
}

/// Reads the text that starts at `pos`: its characters and the position after it.
pub open spec fn parse_text(b: Seq<u8>, pos: int) -> Option<(Seq<char>, int)> {
    match parse_field(b, pos) {
        Some((f, next)) => if valid_utf8(f) {
            Some((decode_utf8(f), next))
        } else {
            None
        },
        None => None,
    }
}

/// The message of one text that a tag stands for.
pub open spec fn one_text(tag: u8, s: Seq<char>) -> Option<MessageModel> {
    if tag == 0 {
        Some(MessageModel::Info(s))
    } else if tag == 1 {
        Some(MessageModel::Leave(s))
    } else if tag == 3 {
        Some(MessageModel::Error(s))
    } else if tag == 4 {
        Some(MessageModel::Command(s))
    } else if tag == 5 {
        Some(MessageModel::Pseudonym(s))
    } else {
        None
    }
}

/// The message that a payload holds, if it holds one and nothing more.
pub open spec fn parse_payload(b: Seq<u8>) -> Option<MessageModel> {
    if b.len() == 0 {
        None
    } else {
        let tag = b[0];
        match parse_text(b, 1) {
            None => None,
            Some((s, p)) => if tag == 2 {
                match parse_text(b, p) {
                    Some((t, q)) => if q == b.len() {
                        Some(MessageModel::Message(s, t))
                    } else {
                        None
                    },
                    None => None,
                }
            } else if tag == 6 || tag == 7 {
                match parse_field(b, p) {
                    Some((d, q)) => if q != b.len() {
                        None
                    } else if tag == 6 {
                        Some(MessageModel::File(s, d))
                    } else {
                        Some(MessageModel::Image(s, d))
                    },
                    None => None,
                }
            } else if p == b.len() {
                one_text(tag, s)
            } else {
                None
            },
        }
    }
}

/// The message that a frame holds: a header that gives the exact length of
/// the rest, and a payload of one message.
pub open spec fn parse_frame(b: Seq<u8>) -> Option<MessageModel> {
    if b.len() >= 4 && be32_value(b.take(4)) == b.len() - 4 {
        parse_payload(b.skip(4))
    } else {
        None
    }
}

/// Four big-endian bytes give back the number they were written from.
pub proof fn lemma_be32_value(n: nat)
    requires
        n <= u32::MAX,
    ensures
        be32_value(be32(n)) == n,
{
}

/// Writing the number that four bytes stand for gives back those bytes.
pub proof fn lemma_be32_of_value(b: Seq<u8>)
    requires
        b.len() == 4,
    ensures
        be32(be32_value(b)) == b,
{
    let (b0, b1, b2, b3) = (b[0] as int, b[1] as int, b[2] as int, b[3] as int);
    let n = be32_value(b) as int;
    assert(n / 0x1000000 == b0) by (nonlinear_arith)
        requires
            n == b0 * 0x1000000 + b1 * 0x10000 + b2 * 0x100 + b3,
            0 <= b0 < 0x100,
            0 <= b1 < 0x100,
            0 <= b2 < 0x100,
            0 <= b3 < 0x100,
    ;
    assert(n / 0x10000 == b0 * 0x100 + b1) by (nonlinear_arith)
        requires
            n == b0 * 0x1000000 + b1 * 0x10000 + b2 * 0x100 + b3,
            0 <= b1 < 0x100,
            0 <= b2 < 0x100,
            0 <= b3 < 0x100,
    ;
    assert(n / 0x100 == b0 * 0x10000 + b1 * 0x100 + b2) by (nonlinear_arith)
        requires
            n == b0 * 0x1000000 + b1 * 0x10000 + b2 * 0x100 + b3,
            0 <= b2 < 0x100,
            0 <= b3 < 0x100,
    ;
    assert((b0 * 0x100 + b1) % 0x100 == b1) by (nonlinear_arith)
        requires
            0 <= b1 < 0x100,
            0 <= b0,
    ;
    assert((b0 * 0x10000 + b1 * 0x100 + b2) % 0x100 == b2) by (nonlinear_arith)
        requires
            0 <= b2 < 0x100,
            0 <= b0,
            0 <= b1,
    ;
    assert(n % 0x100 == b3) by (nonlinear_arith)
        requires
            n == b0 * 0x1000000 + b1 * 0x10000 + b2 * 0x100 + b3,
            0 <= b3 < 0x100,
            0 <= b0,
            0 <= b1,
            0 <= b2,
    ;
    assert(be32(n as nat) =~= b);
}

/// Writes `n` as four big-endian bytes at the end of `out`.
fn push_be32(out: &mut Vec<u8>, n: u32)
    ensures
        final(out)@ == old(out)@ + be32(n as nat),
{
    out.push((n / 0x1000000) as u8);
    out.push(((n / 0x10000) % 0x100) as u8);
    out.push(((n / 0x100) % 0x100) as u8);
    out.push((n % 0x100) as u8);
    assert(out@ =~= old(out)@ + be32(n as nat));
}

/// Appends the bytes of `b` to `out`.
fn push_bytes(out: &mut Vec<u8>, b: &[u8])
    ensures
        final(out)@ == old(out)@ + b@,
{
    let mut i: usize = 0;
    while i < b.len()
        invariant
            i <= b@.len(),
            out@ == old(out)@ + b@.subrange(0, i as int),
        decreases b@.len() - i,
    {
        out.push(b[i]);
        i = i + 1;
        assert(out@ =~= old(out)@ + b@.subrange(0, i as int));
    }
    assert(b@.subrange(0, b@.len() as int) =~= b@);
}

/// Appends `b` as a field, when its length fits the four-byte header.
fn push_field(out: &mut Vec<u8>, b: &[u8]) -> (ok: bool)
    ensures
        ok == (b@.len() <= u32::MAX),
        ok ==> final(out)@ == old(out)@ + field(b@),
        !ok ==> final(out)@ == old(out)@,
{
    if b.len() > u32::MAX as usize {
        return false;
    }
    push_be32(out, b.len() as u32);
    push_bytes(out, b);
    assert(out@ =~= old(out)@ + field(b@));
    true
}

/// Appends `s` as a text, when its UTF-8 length fits the four-byte header.
fn push_text(out: &mut Vec<u8>, s: &String) -> (ok: bool)
    ensures
        ok == (encode_utf8(s@).len() <= u32::MAX),
        ok ==> final(out)@ == old(out)@ + text(s@),
        !ok ==> final(out)@ == old(out)@,
{
    push_field(out, s.as_str().as_bytes())
}

/// Appends the payload of `m`: its tag, then its fields; `false` when a field
/// is too long for its four-byte header.
fn push_payload(out: &mut Vec<u8>, m: &MessageType) -> (ok: bool)
    requires
        old(out)@.len() == 0,
    ensures
        ok ==> final(out)@ == payload_of(m@),
        !ok ==> payload_of(m@).len() > u32::MAX,
{
    match m {
        MessageType::Info(s) => {
            out.push(0);
            push_text(out, s)
        },
        MessageType::Leave(s) => {
            out.push(1);
            push_text(out, s)
        },
        MessageType::Message(p, s) => {
            out.push(2);
            push_text(out, p) && push_text(out, s)
        },
        MessageType::Error(s) => {
            out.push(3);
            push_text(out, s)
        },
        MessageType::Command(s) => {
            out.push(4);
            push_text(out, s)
        },
        MessageType::Pseudonym(s) => {
            out.push(5);
            push_text(out, s)
        },
        MessageType::File(n, b) => {
            out.push(6);
            push_text(out, n) && push_field(out, b.as_slice())
        },
        MessageType::Image(n, b) => {
            out.push(7);
            push_text(out, n) && push_field(out, b.as_slice())
        },
    }
}

/// Frames `m` for the wire: a four-byte big-endian length, then the payload.
///
/// Fails with `PayloadTooLarge` when the payload is over `MAX_MESSAGE_SIZE`
/// bytes, unless `m` is a `Leave`, which is framed whatever its size (as long
/// as a four-byte length can state it).
pub fn encode(m: &MessageType) -> (r: Result<Vec<u8>, CodecError>)
    ensures
        match r {
            Ok(frame) => encodable(m@) && frame@ == frame_of(m@),
            Err(e) => !encodable(m@) && e == CodecError::PayloadTooLarge,
        },
{
    let mut payload: Vec<u8> = Vec::new();
    if !push_payload(&mut payload, m) {
        return Err(CodecError::PayloadTooLarge);
    }
    let exempt = match m {
        MessageType::Leave(_) => true,
        _ => false,
    };
    if payload.len() > u32::MAX as usize || (!exempt && payload.len() > MAX_MESSAGE_SIZE) {
        return Err(CodecError::PayloadTooLarge);
    }
    let mut frame: Vec<u8> = Vec::new();
    push_be32(&mut frame, payload.len() as u32);
    push_bytes(&mut frame, payload.as_slice());
    Ok(frame)
}

/// Relies on `String::from_utf8`: it accepts exactly the byte strings that
/// are valid UTF-8, and the string it returns keeps those bytes.
#[verifier::external_body]
fn string_from_utf8(bytes: Vec<u8>) -> (r: Option<String>)
    ensures
        r is Some <==> valid_utf8(bytes@),
        r matches Some(s) ==> encode_utf8(s@) == bytes@,
{
    String::from_utf8(bytes).ok()
}

/// The number that the four big-endian bytes at `pos` stand for.
fn read_be32(b: &[u8], pos: usize) -> (n: u32)
    requires
        pos + 4 <= b@.len(),
    ensures
        n as nat == be32_value(b@.subrange(pos as int, pos + 4)),
{
    (b[pos] as u32) * 0x1000000 + (b[pos + 1] as u32) * 0x10000 + (b[pos + 2] as u32) * 0x100 + (
    b[pos + 3] as u32)
}

/// A copy of `b[start..end]`.
fn copy_range(b: &[u8], start: usize, end: usize) -> (r: Vec<u8>)
    requires
        start <= end <= b@.len(),
    ensures
        r@ == b@.subrange(start as int, end as int),
{
    let mut r: Vec<u8> = Vec::new();
    let mut i: usize = start;
    while i < end
        invariant
            start <= i <= end <= b@.len(),
            r@ == b@.subrange(start as int, i as int),
        decreases end - i,
    {
        r.push(b[i]);
        i = i + 1;
        assert(r@ =~= b@.subrange(start as int, i as int));
    }
    r
}

/// Finds the field at `pos`: where its bytes start and end.
fn read_field(b: &[u8], pos: usize) -> (r: Option<(usize, usize)>)
    ensures
        match r {
            Some((start, end)) => start <= end <= b@.len() && parse_field(b@, pos as int) == Some(
                (b@.subrange(start as int, end as int), end as int),
            ),
            None => parse_field(b@, pos as int) is None,
        },
{
    if b.len() < 4 || pos > b.len() - 4 {
        return None;
    }
    let n = read_be32(b, pos);
    let start = pos + 4;
    if n as usize > b.len() - start {
        None
    } else {
        Some((start, start + n as usize))
    }
}

/// Reads the text at `pos`: the string and the position after it.
fn read_text(b: &[u8], pos: usize) -> (r: Option<(String, usize)>)
    ensures
        match r {
            Some((s, next)) => next <= b@.len() && parse_text(b@, pos as int) == Some(
                (s@, next as int),
            ),
            None => parse_text(b@, pos as int) is None,
        },
{
    match read_field(b, pos) {
        None => None,
        Some((start, end)) => {
            let bytes = copy_range(b, start, end);
            match string_from_utf8(bytes) {
                None => None,
                Some(s) => Some((s, end)),
            }
        },
    }
}

/// The message that a payload holds, if it holds one and nothing more.
fn decode_payload(b: &[u8]) -> (r: Option<MessageType>)
    ensures
        match r {
            Some(m) => parse_payload(b@) == Some(m@),
            None => parse_payload(b@) is None,
        },
{
    if b.len() == 0 {
        return None;
    }
    let tag = b[0];
    let (s, p) = match read_text(b, 1) {
        None => return None,
        Some(x) => x,
    };
    if tag == 2 {
        match read_text(b, p) {
            Some((t, q)) => if q == b.len() {
                Some(MessageType::Message(s, t))
            } else {
                None
            },
            None => None,
        }
    } else if tag == 6 || tag == 7 {
        match read_field(b, p) {
            Some((start, end)) => if end != b.len() {
                None
            } else if tag == 6 {
                Some(MessageType::File(s, copy_range(b, start, end)))
            } else {
                Some(MessageType::Image(s, copy_range(b, start, end)))
            },
            None => None,
        }
    } else if p != b.len() {
        None
    } else if tag == 0 {
        Some(MessageType::Info(s))
    } else if tag == 1 {
        Some(MessageType::Leave(s))
    } else if tag == 3 {
        Some(MessageType::Error(s))
    } else if tag == 4 {
        Some(MessageType::Command(s))
    } else if tag == 5 {
        Some(MessageType::Pseudonym(s))
    } else {
        None
    }
}

/// A field written at `pos` is read back whole.
proof fn lemma_parse_field_of(b: Seq<u8>, pos: int, x: Seq<u8>)
    requires
        0 <= pos,
        x.len() <= u32::MAX,
        pos + 4 + x.len() <= b.len(),
        b.subrange(pos, pos + 4 + x.len()) == field(x),
    ensures
        parse_field(b, pos) == Some((x, pos + 4 + x.len())),
{
    assert(b.subrange(pos, pos + 4) =~= field(x).subrange(0, 4));
    assert(field(x).subrange(0, 4) =~= be32(x.len()));
    lemma_be32_value(x.len());
    assert(b.subrange(pos + 4, pos + 4 + x.len()) =~= field(x).subrange(4, (4 + x.len()) as int));
    assert(field(x).subrange(4, (4 + x.len()) as int) =~= x);
}

/// A text written at `pos` is read back whole.
proof fn lemma_parse_text_of(b: Seq<u8>, pos: int, s: Seq<char>)
    requires
        0 <= pos,
        encode_utf8(s).len() <= u32::MAX,
        pos + text(s).len() <= b.len(),
        b.subrange(pos, pos + text(s).len()) == text(s),
    ensures
        parse_text(b, pos) == Some((s, pos + text(s).len())),
{
    lemma_parse_field_of(b, pos, encode_utf8(s));
}

/// The bytes that a field was read from are that field written out.
proof fn lemma_field_of_parse(b: Seq<u8>, pos: int)
    requires
        parse_field(b, pos) is Some,
    ensures
        ({
            let (f, next) = parse_field(b, pos)->0;
            pos <= next <= b.len() && b.subrange(pos, next) == field(f)
        }),
{
    let (f, next) = parse_field(b, pos)->0;
    lemma_be32_of_value(b.subrange(pos, pos + 4));
    assert(b.subrange(pos, next) =~= b.subrange(pos, pos + 4) + f);
}

/// The bytes that a text was read from are that text written out.
proof fn lemma_text_of_parse(b: Seq<u8>, pos: int)
    requires
        parse_text(b, pos) is Some,
    ensures
        ({
            let (s, next) = parse_text(b, pos)->0;
            pos <= next <= b.len() && b.subrange(pos, next) == text(s)
        }),
{
    lemma_field_of_parse(b, pos);
    let (f, next) = parse_field(b, pos)->0;
    vstd::utf8::decode_utf8_encode_utf8(f);
}

/// A payload that parses is the payload of the message it parses to.
proof fn lemma_payload_of_parse(b: Seq<u8>)
    requires
        parse_payload(b) is Some,
    ensures
        payload_of(parse_payload(b)->0) == b,
{
    let m = parse_payload(b)->0;
    lemma_text_of_parse(b, 1);
    let (s, p) = parse_text(b, 1)->0;
    let tag = b[0];
    if tag == 2 {
        lemma_text_of_parse(b, p);
        let (t, q) = parse_text(b, p)->0;
        assert(b =~= seq![tag] + b.subrange(1, p) + b.subrange(p, q));
    } else if tag == 6 || tag == 7 {
        lemma_field_of_parse(b, p);
        let (d, q) = parse_field(b, p)->0;
        assert(b =~= seq![tag] + b.subrange(1, p) + b.subrange(p, q));
    } else {
        assert(b =~= seq![tag] + b.subrange(1, p));
    }
}

/// A frame that parses is the frame of the message it parses to.
pub proof fn lemma_frame_of_parse(b: Seq<u8>)
    requires
        parse_frame(b) is Some,
    ensures
        frame_fits(parse_frame(b)->0),
        frame_of(parse_frame(b)->0) == b,
{
    let m = parse_frame(b)->0;
    lemma_payload_of_parse(b.skip(4));
    lemma_be32_of_value(b.take(4));
    assert(b =~= b.take(4) + b.skip(4));
}

/// The payload of a one-text message parses back to it.
proof fn lemma_parse_one_text(tag: u8, s: Seq<char>)
    requires
        tag == 0 || tag == 1 || tag == 3 || tag == 4 || tag == 5,
        encode_utf8(s).len() <= u32::MAX,
    ensures
        parse_payload(seq![tag] + text(s)) == one_text(tag, s),
{
    let b = seq![tag] + text(s);
    assert(b.subrange(1, b.len() as int) =~= text(s));
    lemma_parse_text_of(b, 1, s);
}

/// The payload of a chat message parses back to it.
proof fn lemma_parse_two_texts(p: Seq<char>, s: Seq<char>)
    requires
        encode_utf8(p).len() <= u32::MAX,
        encode_utf8(s).len() <= u32::MAX,
    ensures
        parse_payload(seq![2u8] + (text(p) + text(s))) == Some(MessageModel::Message(p, s)),
{
    let b = seq![2u8] + (text(p) + text(s));
    let q = (1 + text(p).len()) as int;
    assert(b.subrange(1, q) =~= text(p));
    lemma_parse_text_of(b, 1, p);
    assert(b.subrange(q, q + text(s).len() as int) =~= text(s));
    lemma_parse_text_of(b, q, s);
}

/// The payload of a file or an image parses back to it.
proof fn lemma_parse_text_and_bytes(tag: u8, n: Seq<char>, d: Seq<u8>)
    requires
        tag == 6 || tag == 7,
        encode_utf8(n).len() <= u32::MAX,
        d.len() <= u32::MAX,
    ensures
        parse_payload(seq![tag] + (text(n) + field(d))) == Some(
            if tag == 6 {
                MessageModel::File(n, d)
            } else {
                MessageModel::Image(n, d)
            },
        ),
{
    let b = seq![tag] + (text(n) + field(d));
    let q = (1 + text(n).len()) as int;
    assert(b.subrange(1, q) =~= text(n));
    lemma_parse_text_of(b, 1, n);
    assert(b.subrange(q, q + field(d).len() as int) =~= field(d));
    lemma_parse_field_of(b, q, d);
}

/// Decoding gives back what was encoded: the frame of a message that fits
/// in a frame parses to that message.
pub proof fn lemma_round_trip(m: MessageModel)
    requires
        frame_fits(m),
    ensures
        parse_frame(frame_of(m)) == Some(m),
{
    let b = payload_of(m);
    let f = frame_of(m);
    lemma_be32_value(b.len());
    assert(f.take(4) =~= be32(b.len()));
    assert(f.skip(4) =~= b);
    match m {
        MessageModel::Message(p, s) => lemma_parse_two_texts(p, s),
        MessageModel::File(n, d) => lemma_parse_text_and_bytes(6, n, d),
        MessageModel::Image(n, d) => lemma_parse_text_and_bytes(7, n, d),
        MessageModel::Info(s) => lemma_parse_one_text(0, s),
        MessageModel::Leave(s) => lemma_parse_one_text(1, s),
        MessageModel::Error(s) => lemma_parse_one_text(3, s),
        MessageModel::Command(s) => lemma_parse_one_text(4, s),
        MessageModel::Pseudonym(s) => lemma_parse_one_text(5, s),
    }
}

/// Reads one whole frame: a four-byte big-endian length that matches the
/// rest of `frame`, then the payload of one message.
///
/// Fails with `DecodeError` on truncated or corrupt bytes. A frame that
/// decodes is exactly the frame of the message returned.
pub fn decode(frame: &[u8]) -> (r: Result<MessageType, CodecError>)
    ensures
        match r {
            Ok(m) => parse_frame(frame@) == Some(m@) && frame_of(m@) == frame@,
            Err(e) => e == CodecError::DecodeError && parse_frame(frame@) is None,
        },
{
    if frame.len() < 4 {
        return Err(CodecError::DecodeError);
    }
    let n = read_be32(frame, 0);
    proof {
        assert(frame@.subrange(0, 4) =~= frame@.take(4));
    }
    if n as usize != frame.len() - 4 {
        return Err(CodecError::DecodeError);
    }
    let payload = copy_range(frame, 4, frame.len());
    proof {
        assert(payload@ =~= frame@.skip(4));
    }
    match decode_payload(payload.as_slice()) {
        Some(m) => {
            proof {
                lemma_frame_of_parse(frame@);
            }
            Ok(m)
        },
        None => Err(CodecError::DecodeError),
    }
}

/// The size limit spares `Leave` alone: any other message whose payload is
/// over `MAX_MESSAGE_SIZE` bytes cannot be encoded, and a `Leave` whose
/// length a frame header can state always can.
pub proof fn lemma_size_limit(m: MessageModel)
    ensures
        !(m is Leave) && payload_of(m).len() > MAX_MESSAGE_SIZE ==> !encodable(m),
        m is Leave && frame_fits(m) ==> encodable(m),
{
}

/// The length of the whole frame at the start of `b`, once all of it is there.
pub open spec fn complete_frame_len(b: Seq<u8>) -> Option<nat> {
    if b.len() >= 4 && 4 + be32_value(b.take(4)) <= b.len() {
        Some(4 + be32_value(b.take(4)))
    } else {
        None
    }
}

/// Whatever follows it, the frame of a message is found whole at the start
/// of a stream, however the stream was cut into reads.
pub proof fn lemma_frame_found(m: MessageModel, rest: Seq<u8>)
    requires
        frame_fits(m),
    ensures
        complete_frame_len(frame_of(m) + rest) == Some(frame_of(m).len()),
        (frame_of(m) + rest).take(frame_of(m).len() as int) == frame_of(m),
        (frame_of(m) + rest).skip(frame_of(m).len() as int) == rest,
{
    let b = frame_of(m) + rest;
    lemma_be32_value(payload_of(m).len());
    assert(b.take(4) =~= be32(payload_of(m).len()));
    assert(b.take(frame_of(m).len() as int) =~= frame_of(m));
    assert(b.skip(frame_of(m).len() as int) =~= rest);
}

/// Bytes read from a stream and not yet taken out as frames.
pub struct FrameBuffer {
    pending: Vec<u8>,
}

impl View for FrameBuffer {
    type V = Seq<u8>;

    closed spec fn view(&self) -> Seq<u8> {
        self.pending@
    }
}

impl FrameBuffer {
    /// An empty buffer.
    pub fn new() -> (r: FrameBuffer)
        ensures
            r@ == Seq::<u8>::empty(),
    {
        FrameBuffer { pending: Vec::new() }
    }

    /// Appends what one read returned.
    pub fn push(&mut self, bytes: &[u8])
        ensures
            final(self)@ == old(self)@ + bytes@,
    {
        push_bytes(&mut self.pending, bytes);
    }

    /// Takes out the first frame once all of its bytes are there.
    pub fn next_frame(&mut self) -> (r: Option<Vec<u8>>)
        ensures
            match r {
                Some(f) => complete_frame_len(old(self)@) == Some(f@.len()) && f@ == old(
                    self,
                )@.take(f@.len() as int) && final(self)@ == old(self)@.skip(f@.len() as int),
                None => complete_frame_len(old(self)@) is None && final(self)@ == old(self)@,
            },
    {
        let b = self.pending.as_slice();
        if b.len() < 4 {
            return None;
        }
        let n = read_be32(b, 0);
        proof {
            assert(b@.subrange(0, 4) =~= b@.take(4));
        }
        if n as usize > b.len() - 4 {
            return None;
        }
        let end = 4 + n as usize;
        let frame = copy_range(b, 0, end);
        let rest = copy_range(b, end, b.len());
        proof {
            assert(frame@ =~= old(self)@.take(end as int));
            assert(rest@ =~= old(self)@.skip(end as int));
        }
        self.pending = rest;
        Some(frame)
    }

    /// Takes out and decodes the first frame once all of its bytes are there.
    pub fn next_message(&mut self) -> (r: Option<Result<MessageType, CodecError>>)
        ensures
            match r {
                Some(res) => {
                    let n = complete_frame_len(old(self)@)->0;
                    &&& complete_frame_len(old(self)@) is Some
                    &&& final(self)@ == old(self)@.skip(n as int)
                    &&& match res {
                        Ok(m) => parse_frame(old(self)@.take(n as int)) == Some(m@) && frame_of(
                            m@,
                        ) == old(self)@.take(n as int),
                        Err(e) => e == CodecError::DecodeError && parse_frame(
                            old(self)@.take(n as int),
                        ) is None,
                    }
                },
                None => complete_frame_len(old(self)@) is None && final(self)@ == old(self)@,
            },
    {
        match self.next_frame() {
            None => None,
            Some(frame) => Some(decode(frame.as_slice())),
        }
    }
}

} // verus!
