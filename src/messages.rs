//! The wire protocol: the closed set of messages two peers exchange, each
//! carried in one fixed-size frame.
//!
//! A frame is `BUFFER_SIZE` bytes. Byte 0 is an ASCII digit naming the kind
//! of message; the payload follows and the rest is zero bytes. `SetPiece`
//! carries its rank and file as one byte each, offset by `'0'` modulo 256, so
//! the coordinates of the board are the digits `'0'` to `'7'`; `TextMessage`
//! carries the UTF-8 bytes of its text. The text ends at the frame's last
//! non-zero byte, so zero characters at its end do not travel. A text longer
//! than `MAX_TEXT_BYTES` bytes is cut to the last character boundary within
//! that length.
use vstd::prelude::*;
use vstd::utf8::*;

use crate::Position;

verus! {

broadcast use group_utf8_lib;

/// Size in bytes of every frame.
pub const BUFFER_SIZE: usize = 256;

/// Most bytes of text that one frame carries: all but the tag.
pub const MAX_TEXT_BYTES: usize = 255;

/// Largest rank or file that one byte carries.
pub const MAX_COORDINATE: usize = 255;

/// One unit of communication between the peers.
#[derive(Debug, PartialEq, Eq)]
pub enum Message {
    SetPiece(Position),
    TextMessage(String),
    PassTurn(),
    Surrender(),
    GameEnded(),
    UndoMove(),
    TestConnection(),
}

/// A message as a mathematical value: text as a sequence of characters.
pub enum MessageView {
    SetPiece(Position),
    TextMessage(Seq<char>),
    PassTurn,
    Surrender,
    GameEnded,
    UndoMove,
    TestConnection,
}

/// Why a frame could not be decoded.
#[derive(Clone, Copy, Debug, PartialEq, Eq, Structural)]
pub enum ProtocolError {
    /// The frame has no byte at all.
    EmptyFrame,
    /// Byte 0 names no kind of message.
    UnknownMessageType,
    /// The payload is cut short, or the text is not UTF-8.
    InvalidPayload,
}

impl View for Message {
    type V = MessageView;

    open spec fn view(&self) -> MessageView {
        match self {
            Message::SetPiece(p) => MessageView::SetPiece(*p),
            Message::TextMessage(t) => MessageView::TextMessage(t@),
            Message::PassTurn() => MessageView::PassTurn,
            Message::Surrender() => MessageView::Surrender,
            Message::GameEnded() => MessageView::GameEnded,
            Message::UndoMove() => MessageView::UndoMove,
            Message::TestConnection() => MessageView::TestConnection,
        }
    }
}

/// The views of a sequence of messages.
pub open spec fn views(ms: Seq<Message>) -> Seq<MessageView> {
    ms.map_values(|m: Message| m@)
}

/// Whether the message's coordinates fit a byte each.
pub open spec fn encodable(m: MessageView) -> bool {
    match m {
        MessageView::SetPiece(p) => p.0 <= MAX_COORDINATE && p.1 <= MAX_COORDINATE,
        _ => true,
    }
}

/// The byte for a coordinate in `0..=255`: `'0'` plus the coordinate, modulo 256.
pub open spec fn coordinate_byte(c: int) -> u8 {
    if c < 208 {
        (c + 48) as u8
    } else {
        (c - 208) as u8
    }
}

/// The coordinate a byte stands for: the inverse of `coordinate_byte`.
pub open spec fn byte_coordinate(b: u8) -> int {
    if b >= 48 {
        b - 48
    } else {
        b + 208
    }
}

/// Byte 0 of the frame: `'0'` to `'6'`.
pub open spec fn tag_of(m: MessageView) -> u8 {
    match m {
        MessageView::SetPiece(_) => 48,
        MessageView::TextMessage(_) => 49,
        MessageView::PassTurn => 50,
        MessageView::Surrender => 51,
        MessageView::GameEnded => 52,
        MessageView::UndoMove => 53,
        MessageView::TestConnection => 54,
    }
}

/// The largest index of `bytes` not above `n` that falls on a character boundary.
pub open spec fn boundary_at_or_below(bytes: Seq<u8>, n: int) -> int
    decreases n,
{
    if n <= 0 || is_char_boundary(bytes, n) {
        n
    } else {
        boundary_at_or_below(bytes, n - 1)
    }
}

/// How many bytes of the UTF-8 text a frame carries: all of them when they
/// fit, else as many whole characters as fit.
pub open spec fn text_len(text: Seq<char>) -> int {
    let b = encode_utf8(text);
    boundary_at_or_below(b, if b.len() <= MAX_TEXT_BYTES { b.len() as int } else { MAX_TEXT_BYTES as int })
}

/// Where the text of a text frame ends: just after the last non-zero byte
/// among the first `n`, and never before byte 1.
pub open spec fn text_end(b: Seq<u8>, n: int) -> int
    decreases n,
{
    if n <= 1 || b[n - 1] != 0 {
        n
    } else {
        text_end(b, n - 1)
    }
}

/// The bytes after the tag.
pub open spec fn payload_of(m: MessageView) -> Seq<u8> {
    match m {
        MessageView::SetPiece(p) => seq![coordinate_byte(p.0 as int), coordinate_byte(p.1 as int)],
        MessageView::TextMessage(t) => encode_utf8(t).take(text_len(t)),
        _ => Seq::empty(),
    }
}

/// The frame of a message: tag, payload, then zero bytes up to `BUFFER_SIZE`.
pub open spec fn encode_frame(m: MessageView) -> Seq<u8> {
    let body = seq![tag_of(m)] + payload_of(m);
    body + Seq::new((BUFFER_SIZE - body.len()) as nat, |i: int| 0u8)
}

/// The message a frame holds, or why it holds none.
pub open spec fn decode_frame(b: Seq<u8>) -> Result<MessageView, ProtocolError> {
    if b.len() == 0 {
        Err(ProtocolError::EmptyFrame)
    } else if b[0] == 48 {
        if b.len() >= 3 {
            Ok(MessageView::SetPiece((byte_coordinate(b[1]) as usize, byte_coordinate(b[2]) as usize)))
        } else {
            Err(ProtocolError::InvalidPayload)
        }
    } else if b[0] == 49 {
        let text = b.subrange(1, text_end(b, b.len() as int));
        if valid_utf8(text) {
            Ok(MessageView::TextMessage(decode_utf8(text)))
        } else {
            Err(ProtocolError::InvalidPayload)
        }
    } else if b[0] == 50 {
        Ok(MessageView::PassTurn)
    } else if b[0] == 51 {
        Ok(MessageView::Surrender)
    } else if b[0] == 52 {
        Ok(MessageView::GameEnded)
    } else if b[0] == 53 {
        Ok(MessageView::UndoMove)
    } else if b[0] == 54 {
        Ok(MessageView::TestConnection)
    } else {
        Err(ProtocolError::UnknownMessageType)
    }
}

/// Whether `r` is what `decode_frame` gives for `b`.
pub open spec fn decodes_to(r: Result<Message, ProtocolError>, b: Seq<u8>) -> bool {
    match (r, decode_frame(b)) {
        (Ok(m), Ok(v)) => m@ == v,
        (Err(e), Err(f)) => e == f,
        _ => false,
    }
}

/// Relies on `String::from_utf8`: it succeeds exactly on well-formed UTF-8,
/// and the string then holds the characters that the bytes encode.
#[verifier::external_body]
fn string_from_utf8(bytes: Vec<u8>) -> (r: Option<String>)
    ensures
        r is Some <==> valid_utf8(bytes@),
        r is Some ==> r->Some_0@ == decode_utf8(bytes@),
{
    String::from_utf8(bytes).ok()
}

/// The byte that carries coordinate `c`.
fn to_coordinate_byte(c: usize) -> (b: u8)
    requires
        c <= MAX_COORDINATE,
    ensures
        b == coordinate_byte(c as int),
{
    if c < 208 {
        (c + 48) as u8
    } else {
        (c - 208) as u8
    }
}

/// The coordinate that byte `b` carries.
fn from_coordinate_byte(b: u8) -> (c: usize)
    ensures
        c == byte_coordinate(b),
{
    if b >= 48 {
        (b - 48) as usize
    } else {
        b as usize + 208
    }
}

impl Message {
    /// The frame for this message.
    pub fn to_bytes(&self) -> (r: Vec<u8>)
        requires
            encodable(self@),
        ensures
            r@ == encode_frame(self@),
            r.len() == BUFFER_SIZE,
    {
        let mut bytes: Vec<u8> = Vec::new();
        match self {
            Message::SetPiece(pos) => {
                bytes.push(48);
                bytes.push(to_coordinate_byte(pos.0));
                bytes.push(to_coordinate_byte(pos.1));
            },
            Message::TextMessage(text) => {
                bytes.push(49);
                let s = text.as_str();
                let b = s.as_bytes();
                let mut n: usize = if b.len() <= MAX_TEXT_BYTES {
                    b.len()
                } else {
                    MAX_TEXT_BYTES
                };
                while n > 0 && !s.is_char_boundary(n)
                    invariant
                        b@ == encode_utf8(text@),
                        s@ == text@,
                        n <= b.len(),
                        n <= MAX_TEXT_BYTES,
                        boundary_at_or_below(b@, n as int) == text_len(text@),
                    decreases n,
                {
                    n = n - 1;
                }
                let mut i: usize = 0;
                while i < n
                    invariant
                        n <= b.len(),
                        n <= MAX_TEXT_BYTES,
                        i <= n,
                        bytes@ == seq![49u8] + b@.take(i as int),
                    decreases n - i,
                {
                    proof {
                        assert(b@.take(i + 1) =~= b@.take(i as int).push(b@[i as int]));
                    }
                    bytes.push(b[i]);
                    i = i + 1;
                }
                proof {
                    assert(bytes@ =~= seq![49u8] + payload_of(self@));
                }
            },
            Message::PassTurn() => bytes.push(50),
            Message::Surrender() => bytes.push(51),
            Message::GameEnded() => bytes.push(52),
            Message::UndoMove() => bytes.push(53),
            Message::TestConnection() => bytes.push(54),
        }
        let ghost body = bytes@;
        proof {
            assert(body =~= seq![tag_of(self@)] + payload_of(self@));
        }
        while bytes.len() < BUFFER_SIZE
            invariant
                body.len() <= BUFFER_SIZE,
                body.len() <= bytes.len() <= BUFFER_SIZE,
                bytes@ == body + Seq::new((bytes.len() - body.len()) as nat, |i: int| 0u8),
            decreases BUFFER_SIZE - bytes.len(),
        {
            bytes.push(0);
            proof {
                assert(bytes@ =~= body + Seq::new(
                    (bytes.len() - body.len()) as nat,
                    |i: int| 0u8,
                ));
            }
        }
        bytes
    }

    /// The message that a frame holds: an empty frame, an unknown tag and a
    /// bad payload are refused.
    pub fn from_bytes(bytes: &[u8]) -> (r: Result<Message, ProtocolError>)
        ensures
            decodes_to(r, bytes@),
    {
        if bytes.len() == 0 {
            return Err(ProtocolError::EmptyFrame);
        }
        match bytes[0] {
            48 => {
                if bytes.len() >= 3 {
                    Ok(
                        Message::SetPiece(
                            (from_coordinate_byte(bytes[1]), from_coordinate_byte(bytes[2])),
                        ),
                    )
                } else {
                    Err(ProtocolError::InvalidPayload)
                }
            },
            49 => {
                let mut end: usize = bytes.len();
                while end > 1 && bytes[end - 1] == 0
                    invariant
                        1 <= end <= bytes.len(),
                        text_end(bytes@, end as int) == text_end(bytes@, bytes.len() as int),
                    decreases end,
                {
                    end = end - 1;
                }
                let mut text: Vec<u8> = Vec::new();
                let mut i: usize = 1;
                while i < end
                    invariant
                        1 <= i <= end,
                        end <= bytes.len(),
                        text@ == bytes@.subrange(1, i as int),
                    decreases end - i,
                {
                    proof {
                        assert(bytes@.subrange(1, i + 1) =~= bytes@.subrange(1, i as int).push(
                            bytes@[i as int],
                        ));
                    }
                    text.push(bytes[i]);
                    i = i + 1;
                }
                match string_from_utf8(text) {
                    Some(s) => Ok(Message::TextMessage(s)),
                    None => Err(ProtocolError::InvalidPayload),
                }
            },
            50 => Ok(Message::PassTurn()),
            51 => Ok(Message::Surrender()),
            52 => Ok(Message::GameEnded()),
            53 => Ok(Message::UndoMove()),
            54 => Ok(Message::TestConnection()),
            _ => Err(ProtocolError::UnknownMessageType),
        }
    }
}

/// Decoding a message's frame gives the message back, for every message
/// whose coordinates fit a byte each and whose text fits a frame and does
/// not end with a zero character.
pub proof fn lemma_round_trip(m: MessageView)
    requires
        encodable(m),
        m is TextMessage ==> encode_utf8(m->TextMessage_0).len() <= MAX_TEXT_BYTES,
        m is TextMessage && m->TextMessage_0.len() > 0 ==> m->TextMessage_0.last() != '\0',
    ensures
        decode_frame(encode_frame(m)) == Ok::<MessageView, ProtocolError>(m),
{
    let f = encode_frame(m);
    match m {
        MessageView::TextMessage(t) => {
            let b = encode_utf8(t);
            assert(is_char_boundary(b, b.len() as int));
            assert(text_len(t) == b.len());
            assert(b.take(b.len() as int) =~= b);
            let n: int = 1 + b.len() as int;
            assert(f.len() == BUFFER_SIZE);
            lemma_text_end_skips_zeros(f, n, BUFFER_SIZE as int);
            if b.len() > 0 {
                lemma_last_byte_nonzero(t);
                assert(f[n - 1] == b.last());
            }
            assert(text_end(f, n) == n);
            assert(f.subrange(1, n) =~= b);
        },
        MessageView::SetPiece(p) => {
            assert(f[1] == coordinate_byte(p.0 as int));
            assert(f[2] == coordinate_byte(p.1 as int));
        },
        _ => {},
    }
}

/// Trailing zero bytes do not move the end of the text.
proof fn lemma_text_end_skips_zeros(b: Seq<u8>, lo: int, n: int)
    requires
        1 <= lo <= n <= b.len(),
        forall|j: int| lo <= j < n ==> b[j] == 0,
    ensures
        text_end(b, n) == text_end(b, lo),
    decreases n,
{
    if n > lo {
        lemma_text_end_skips_zeros(b, lo, n - 1);
    }
}

/// The UTF-8 encoding of a text that does not end with a zero character
/// does not end with a zero byte.
proof fn lemma_last_byte_nonzero(t: Seq<char>)
    requires
        t.len() > 0,
        t.last() != '\0',
    ensures
        encode_utf8(t).len() > 0,
        encode_utf8(t).last() != 0,
    decreases t.len(),
{
    let rest = t.drop_first();
    let c = t[0] as u32;
    if t.len() == 1 {
        assert(rest.len() == 0);
        assert(encode_utf8(rest) =~= Seq::<u8>::empty());
        assert(encode_utf8(t) =~= encode_scalar(c));
        if c == 0 {
            char_u32_cast(t[0], c);
            char_u32_cast('\0', 0);
        }
        if has_width_1_encoding(c) {
            assert(c <= 0x7F && c != 0 ==> (c & 0x7F) as u8 != 0) by (bit_vector);
        } else {
            assert((0x80u8 | ((c & 0x3F) as u8)) != 0) by (bit_vector);
        }
    } else {
        lemma_last_byte_nonzero(rest);
        assert(rest.last() == t.last());
        assert(encode_utf8(t) == encode_scalar(c) + encode_utf8(rest));
    }
}

/// An empty frame is refused as such; a frame whose tag names no message is
/// refused as unknown.
pub proof fn lemma_rejected_frames(b: Seq<u8>)
    ensures
        decode_frame(Seq::empty()) == Err::<MessageView, ProtocolError>(ProtocolError::EmptyFrame),
        b.len() > 0 && !(48 <= b[0] <= 54) ==> decode_frame(b) == Err::<
            MessageView,
            ProtocolError,
        >(ProtocolError::UnknownMessageType),
{
}

} // verus!
