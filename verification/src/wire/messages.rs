//! BitTorrent wire messages: the base protocol, the Fast extension and the
//! extension-protocol handshake.
use crate::bytes::{
    be32, be32_at, be32_round_trip, bytes_eq, copy_range, push_all, push_be32, read_be32,
};
use crate::error::{Error, Result};
use crate::text::{decimal, push_decimal};
use vstd::prelude::*;
use vstd::slice::{slice_subrange, slice_to_vec};
use vstd::utf8::encode_utf8;

verus! {

/// The protocol name that every handshake starts with.
pub const BT_PROTOCOL: [u8; 19] = [
    66, 105, 116, 84, 111, 114, 114, 101, 110, 116, 32, 112, 114, 111, 116, 111, 99, 111, 108,
];

/// Length of a handshake in bytes.
pub const HANDSHAKE_LEN: usize = 68;

pub const MSG_CHOKE: u8 = 0;

pub const MSG_UNCHOKE: u8 = 1;

pub const MSG_INTERESTED: u8 = 2;

pub const MSG_NOT_INTERESTED: u8 = 3;

pub const MSG_HAVE: u8 = 4;

pub const MSG_BITFIELD: u8 = 5;

pub const MSG_REQUEST: u8 = 6;

pub const MSG_PIECE: u8 = 7;

pub const MSG_CANCEL: u8 = 8;

/// Fast extension (BEP 6).
pub const MSG_SUGGEST: u8 = 0x0d;

pub const MSG_HAVE_ALL: u8 = 0x0e;

pub const MSG_HAVE_NONE: u8 = 0x0f;

pub const MSG_REJECT: u8 = 0x10;

pub const MSG_ALLOWED_FAST: u8 = 0x11;

/// Extension protocol (BEP 10) message id.
pub const MSG_EXTENDED: u8 = 20;

/// Extended message id of the extension handshake.
pub const EXT_HANDSHAKE: u8 = 0;

/// The request queue depth (`reqq`) that the extension handshake advertises.
pub const LTEP_REQQ: u32 = 8192;

/// Largest accepted length field (id and payload). A larger one is refused before
/// its body is awaited.
pub const MAX_MESSAGE_LENGTH: usize = 1_048_576;

/// Bytes of a PIECE message before its block: length, id, index, begin.
pub const SIZEOF_PIECE: usize = 13;

/// Wire size of a keep-alive.
pub const WIRE_KEEPALIVE: usize = 4;

/// Wire size of a message that is an id alone.
pub const WIRE_ID_ONLY: usize = 5;

/// Wire size of a HAVE.
pub const WIRE_HAVE: usize = 9;

/// Wire size of a REQUEST, CANCEL or REJECT.
pub const WIRE_REQUEST: usize = 17;

/// Handshake byte and bit that advertise the extension protocol.
pub const HS_EXT_BYTE: usize = 25;

pub const HS_EXT_BIT: u8 = 0x10;

/// Handshake byte and bit that advertise the Fast extension.
pub const HS_FAST_BYTE: usize = 27;

pub const HS_FAST_BIT: u8 = 0x04;

/// Peer message: what is encoded, and what is parsed except for PIECE.
#[derive(Debug, Clone)]
pub enum Message {
    KeepAlive,
    Choke,
    Unchoke,
    Interested,
    NotInterested,
    Have(u32),
    Bitfield(Vec<u8>),
    Request { index: u32, begin: u32, length: u32 },
    /// A PIECE that owns its block. Parsing gives [`ParsedMessage::Piece`] instead.
    Piece { index: u32, begin: u32, block: Vec<u8> },
    Cancel { index: u32, begin: u32, length: u32 },
    /// Advice to fetch a piece.
    SuggestPiece(u32),
    /// The peer has every piece.
    HaveAll,
    /// The peer has no piece.
    HaveNone,
    /// A request will not be served.
    RejectRequest { index: u32, begin: u32, length: u32 },
    /// A piece that may be requested while choked.
    AllowedFast(u32),
    /// Extension protocol: extension id and its payload.
    Extended { ext_id: u8, payload: Vec<u8> },
    Unknown(u8, Vec<u8>),
}

/// A [`Message`] with its byte strings as sequences.
pub enum MessageView {
    KeepAlive,
    Choke,
    Unchoke,
    Interested,
    NotInterested,
    Have(u32),
    Bitfield(Seq<u8>),
    Request { index: u32, begin: u32, length: u32 },
    Piece { index: u32, begin: u32, block: Seq<u8> },
    Cancel { index: u32, begin: u32, length: u32 },
    SuggestPiece(u32),
    HaveAll,
    HaveNone,
    RejectRequest { index: u32, begin: u32, length: u32 },
    AllowedFast(u32),
    Extended { ext_id: u8, payload: Seq<u8> },
    Unknown(u8, Seq<u8>),
}

impl View for Message {
    type V = MessageView;

    open spec fn view(&self) -> MessageView {
        match *self {
            Message::KeepAlive => MessageView::KeepAlive,
            Message::Choke => MessageView::Choke,
            Message::Unchoke => MessageView::Unchoke,
            Message::Interested => MessageView::Interested,
            Message::NotInterested => MessageView::NotInterested,
            Message::Have(i) => MessageView::Have(i),
            Message::Bitfield(b) => MessageView::Bitfield(b@),
            Message::Request { index, begin, length } => MessageView::Request {
                index,
                begin,
                length,
            },
            Message::Piece { index, begin, block } => MessageView::Piece {
                index,
                begin,
                block: block@,
            },
            Message::Cancel { index, begin, length } => MessageView::Cancel {
                index,
                begin,
                length,
            },
            Message::SuggestPiece(i) => MessageView::SuggestPiece(i),
            Message::HaveAll => MessageView::HaveAll,
            Message::HaveNone => MessageView::HaveNone,
            Message::RejectRequest { index, begin, length } => MessageView::RejectRequest {
                index,
                begin,
                length,
            },
            Message::AllowedFast(i) => MessageView::AllowedFast(i),
            Message::Extended { ext_id, payload } => MessageView::Extended {
                ext_id,
                payload: payload@,
            },
            Message::Unknown(id, p) => MessageView::Unknown(id, p@),
        }
    }
}

/// Result of [`parse_message`]: a PIECE borrows its block from the read buffer,
/// anything else is owned.
#[derive(Debug)]
pub enum ParsedMessage<'a> {
    Msg(Message),
    Piece { index: u32, begin: u32, block: &'a [u8] },
}

impl<'a> View for ParsedMessage<'a> {
    type V = MessageView;

    open spec fn view(&self) -> MessageView {
        match *self {
            ParsedMessage::Msg(m) => m@,
            ParsedMessage::Piece { index, begin, block } => MessageView::Piece {
                index,
                begin,
                block: block@,
            },
        }
    }
}

/// The parsed 13 bytes that precede a PIECE's block.
#[derive(Debug, Clone, Copy, PartialEq, Eq, Structural)]
pub struct PieceHeader {
    pub index: u32,
    pub begin: u32,
    /// Block length, `message_len - 9`.
    pub block_len: u32,
    pub message_len: u32,
}

// ---------------------------------------------------------------------------
// What the bytes of a message are.
// ---------------------------------------------------------------------------

/// A length-prefixed frame. The length counts the id and the payload, modulo the
/// width of the field.
pub open spec fn frame(id: u8, payload: Seq<u8>) -> Seq<u8> {
    be32(((1 + payload.len()) % 0x1_0000_0000) as u32) + seq![id] + payload
}

/// Three integers in a row, as REQUEST, CANCEL and REJECT carry them.
pub open spec fn triple(index: u32, begin: u32, length: u32) -> Seq<u8> {
    be32(index) + be32(begin) + be32(length)
}

/// The id byte of a message other than a keep-alive.
pub open spec fn id_of(m: MessageView) -> u8 {
    match m {
        MessageView::KeepAlive => 0,
        MessageView::Choke => MSG_CHOKE,
        MessageView::Unchoke => MSG_UNCHOKE,
        MessageView::Interested => MSG_INTERESTED,
        MessageView::NotInterested => MSG_NOT_INTERESTED,
        MessageView::Have(_) => MSG_HAVE,
        MessageView::Bitfield(_) => MSG_BITFIELD,
        MessageView::Request { .. } => MSG_REQUEST,
        MessageView::Piece { .. } => MSG_PIECE,
        MessageView::Cancel { .. } => MSG_CANCEL,
        MessageView::SuggestPiece(_) => MSG_SUGGEST,
        MessageView::HaveAll => MSG_HAVE_ALL,
        MessageView::HaveNone => MSG_HAVE_NONE,
        MessageView::RejectRequest { .. } => MSG_REJECT,
        MessageView::AllowedFast(_) => MSG_ALLOWED_FAST,
        MessageView::Extended { .. } => MSG_EXTENDED,
        MessageView::Unknown(id, _) => id,
    }
}

/// The bytes after a message's id.
pub open spec fn payload_of(m: MessageView) -> Seq<u8> {
    match m {
        MessageView::Have(i) => be32(i),
        MessageView::Bitfield(b) => b,
        MessageView::Request { index, begin, length } => triple(index, begin, length),
        MessageView::Piece { index, begin, block } => be32(index) + be32(begin) + block,
        MessageView::Cancel { index, begin, length } => triple(index, begin, length),
        MessageView::SuggestPiece(i) => be32(i),
        MessageView::RejectRequest { index, begin, length } => triple(index, begin, length),
        MessageView::AllowedFast(i) => be32(i),
        MessageView::Extended { ext_id, payload } => seq![ext_id] + payload,
        MessageView::Unknown(_, p) => p,
        _ => Seq::empty(),
    }
}

/// The wire bytes of a message.
pub open spec fn encoded(m: MessageView) -> Seq<u8> {
    if m is KeepAlive {
        seq![0u8, 0u8, 0u8, 0u8]
    } else {
        frame(id_of(m), payload_of(m))
    }
}

/// The wire bytes of a row of messages.
pub open spec fn encoded_all(ms: Seq<MessageView>) -> Seq<u8>
    decreases ms.len(),
{
    if ms.len() == 0 {
        Seq::empty()
    } else {
        encoded_all(ms.drop_last()) + encoded(ms.last())
    }
}

/// Whether an id byte has a meaning of its own.
pub open spec fn known_id(id: u8) -> bool {
    id <= MSG_CANCEL || MSG_SUGGEST <= id <= MSG_ALLOWED_FAST || id == MSG_EXTENDED
}

/// What a frame with this id and payload says, or why it is refused.
pub open spec fn body(id: u8, p: Seq<u8>) -> std::result::Result<MessageView, Seq<char>> {
    if id == MSG_CHOKE {
        Ok(MessageView::Choke)
    } else if id == MSG_UNCHOKE {
        Ok(MessageView::Unchoke)
    } else if id == MSG_INTERESTED {
        Ok(MessageView::Interested)
    } else if id == MSG_NOT_INTERESTED {
        Ok(MessageView::NotInterested)
    } else if id == MSG_HAVE {
        if p.len() == 4 {
            Ok(MessageView::Have(be32_at(p, 0)))
        } else {
            Err("bad HAVE"@)
        }
    } else if id == MSG_BITFIELD {
        Ok(MessageView::Bitfield(p))
    } else if id == MSG_REQUEST {
        if p.len() == 12 {
            Ok(
                MessageView::Request {
                    index: be32_at(p, 0),
                    begin: be32_at(p, 4),
                    length: be32_at(p, 8),
                },
            )
        } else {
            Err("bad REQUEST"@)
        }
    } else if id == MSG_PIECE {
        if p.len() >= 8 {
            Ok(
                MessageView::Piece {
                    index: be32_at(p, 0),
                    begin: be32_at(p, 4),
                    block: p.subrange(8, p.len() as int),
                },
            )
        } else {
            Err("bad PIECE"@)
        }
    } else if id == MSG_CANCEL {
        if p.len() == 12 {
            Ok(
                MessageView::Cancel {
                    index: be32_at(p, 0),
                    begin: be32_at(p, 4),
                    length: be32_at(p, 8),
                },
            )
        } else {
            Err("bad CANCEL"@)
        }
    } else if id == MSG_SUGGEST {
        if p.len() == 4 {
            Ok(MessageView::SuggestPiece(be32_at(p, 0)))
        } else {
            Err("bad SUGGEST"@)
        }
    } else if id == MSG_HAVE_ALL {
        if p.len() == 0 {
            Ok(MessageView::HaveAll)
        } else {
            Err("bad HAVE_ALL"@)
        }
    } else if id == MSG_HAVE_NONE {
        if p.len() == 0 {
            Ok(MessageView::HaveNone)
        } else {
            Err("bad HAVE_NONE"@)
        }
    } else if id == MSG_REJECT {
        if p.len() == 12 {
            Ok(
                MessageView::RejectRequest {
                    index: be32_at(p, 0),
                    begin: be32_at(p, 4),
                    length: be32_at(p, 8),
                },
            )
        } else {
            Err("bad REJECT"@)
        }
    } else if id == MSG_ALLOWED_FAST {
        if p.len() == 4 {
            Ok(MessageView::AllowedFast(be32_at(p, 0)))
        } else {
            Err("bad ALLOWED_FAST"@)
        }
    } else if id == MSG_EXTENDED {
        if p.len() >= 1 {
            Ok(MessageView::Extended { ext_id: p[0], payload: p.subrange(1, p.len() as int) })
        } else {
            Err("bad EXTENDED"@)
        }
    } else {
        Ok(MessageView::Unknown(id, p))
    }
}

/// The refusal of a length field above [`MAX_MESSAGE_LENGTH`].
pub open spec fn oversize(len: nat) -> Seq<char> {
    "BT message length "@ + decimal(len) + " exceeds max "@ + decimal(MAX_MESSAGE_LENGTH as nat)
}

/// What the front of a read buffer holds.
pub enum Front {
    /// More bytes are needed.
    More,
    /// A whole message and the bytes it takes.
    Frame(MessageView, int),
    /// The stream is refused, with the reason.
    Bad(Seq<char>),
}

/// What the front of `buf` holds.
pub open spec fn front(buf: Seq<u8>) -> Front {
    if buf.len() < 4 {
        Front::More
    } else {
        let len = be32_at(buf, 0) as int;
        if len == 0 {
            Front::Frame(MessageView::KeepAlive, 4)
        } else if len > MAX_MESSAGE_LENGTH {
            Front::Bad(oversize(len as nat))
        } else if buf.len() < 4 + len {
            Front::More
        } else {
            match body(buf[4], buf.subrange(5, 4 + len)) {
                Ok(m) => Front::Frame(m, 4 + len),
                Err(e) => Front::Bad(e),
            }
        }
    }
}

/// The PIECE header at the front of `buf`, where there is one.
pub open spec fn piece_header(buf: Seq<u8>) -> std::result::Result<
    Option<PieceHeader>,
    Seq<char>,
> {
    let len = be32_at(buf, 0);
    if buf.len() < SIZEOF_PIECE || len == 0 {
        Ok(None)
    } else if len > MAX_MESSAGE_LENGTH {
        Err(oversize(len as nat))
    } else if buf[4] != MSG_PIECE {
        Ok(None)
    } else if len < 9 {
        Err("bad PIECE length"@)
    } else {
        Ok(
            Some(
                PieceHeader {
                    index: be32_at(buf, 5),
                    begin: be32_at(buf, 9),
                    block_len: (len - 9) as u32,
                    message_len: len,
                },
            ),
        )
    }
}

/// Whether `buf` opens with the handshake's protocol name.
pub open spec fn opens_handshake(buf: Seq<u8>) -> bool {
    buf.len() >= 20 && buf[0] == 19 && buf.subrange(1, 20) == BT_PROTOCOL@
}

/// The reserved bytes that advertise the extension protocol and the Fast extension.
pub open spec fn reserved() -> Seq<u8> {
    seq![0u8, 0u8, 0u8, 0u8, 0u8, HS_EXT_BIT, 0u8, HS_FAST_BIT]
}

/// The wire bytes of a handshake.
pub open spec fn handshake(infohash: Seq<u8>, peer_id: Seq<u8>) -> Seq<u8> {
    seq![19u8] + BT_PROTOCOL@ + reserved() + infohash + peer_id
}

/// The dictionary of the extension handshake, keys in sorted order.
pub open spec fn ltep_text(client: Seq<char>, listen_port: u16, e: Option<u8>) -> Seq<char> {
    "d"@ + (match e {
        Some(v) => "1:ei"@ + decimal(v as nat) + "e"@,
        None => Seq::empty(),
    }) + "1:mde1:pi"@ + decimal(listen_port as nat) + "e4:reqqi"@ + decimal(LTEP_REQQ as nat)
        + "e1:v"@ + decimal(encode_utf8(client).len()) + ":"@ + client + "e"@
}

// ---------------------------------------------------------------------------
// Handshake.
// ---------------------------------------------------------------------------

/// The handshake for a torrent and our peer id. Both extensions are advertised.
pub fn encode_handshake(infohash: &[u8; 20], peer_id: &[u8; 20]) -> (hs: [u8; HANDSHAKE_LEN])
    ensures
        hs@ == handshake(infohash@, peer_id@),
{
    let mut buf: [u8; HANDSHAKE_LEN] = [0u8; 68];
    buf[0] = 19;
    let mut i: usize = 0;
    while i < 19
        invariant
            i <= 19,
            buf@.len() == 68,
            buf@[0] == 19,
            forall|j: int| 0 <= j < i ==> #[trigger] buf@[1 + j] == BT_PROTOCOL@[j],
            forall|j: int| 1 + i <= j < 68 ==> buf@[j] == 0,
        decreases 19 - i,
    {
        buf[1 + i] = BT_PROTOCOL[i];
        i += 1;
    }
    buf[HS_EXT_BYTE] = HS_EXT_BIT;
    buf[HS_FAST_BYTE] = HS_FAST_BIT;
    let mut k: usize = 0;
    let ghost head = buf@.subrange(0, 28);
    assert forall|j: int| 0 <= j < 28 implies head[j] == (seq![19u8] + BT_PROTOCOL@
        + reserved())[j] by {
        if 1 <= j < 20 {
            assert(buf@[1 + (j - 1)] == BT_PROTOCOL@[j - 1]);
        }
    }
    assert(head =~= seq![19u8] + BT_PROTOCOL@ + reserved());
    while k < 20
        invariant
            k <= 20,
            buf@.len() == 68,
            buf@.subrange(0, 28) == head,
            forall|j: int| 0 <= j < k ==> #[trigger] buf@[28 + j] == infohash@[j],
            forall|j: int| 0 <= j < k ==> #[trigger] buf@[48 + j] == peer_id@[j],
        decreases 20 - k,
    {
        buf[28 + k] = infohash[k];
        buf[48 + k] = peer_id[k];
        assert(buf@.subrange(0, 28) =~= head);
        k += 1;
    }
    assert forall|j: int| 0 <= j < 68 implies buf@[j] == handshake(infohash@, peer_id@)[j] by {
        if j < 28 {
            assert(buf@[j] == buf@.subrange(0, 28)[j]);
        } else if j < 48 {
            assert(buf@[28 + (j - 28)] == infohash@[j - 28]);
        } else {
            assert(buf@[48 + (j - 48)] == peer_id@[j - 48]);
        }
    }
    assert(buf@ =~= handshake(infohash@, peer_id@));
    buf
}

/// True when the handshake advertises the extension protocol.
pub fn handshake_supports_extensions(hs: &[u8]) -> (r: bool)
    ensures
        r == (hs@.len() > HS_EXT_BYTE && hs@[HS_EXT_BYTE as int] & HS_EXT_BIT != 0),
{
    hs.len() > HS_EXT_BYTE && (hs[HS_EXT_BYTE] & HS_EXT_BIT) != 0
}

/// True when the handshake advertises the Fast extension.
pub fn handshake_supports_fast(hs: &[u8]) -> (r: bool)
    ensures
        r == (hs@.len() > HS_FAST_BYTE && hs@[HS_FAST_BYTE as int] & HS_FAST_BIT != 0),
{
    hs.len() > HS_FAST_BYTE && (hs[HS_FAST_BYTE] & HS_FAST_BIT) != 0
}

/// The twenty bytes of `buf` from `at` on.
pub fn read_id20(buf: &[u8], at: usize) -> (r: [u8; 20])
    requires
        at + 20 <= buf@.len(),
    ensures
        r@ == buf@.subrange(at as int, at + 20),
{
    let end: usize = buf.len();
    assert(at + 20 <= end);
    let mut out: [u8; 20] = [0u8; 20];
    let mut i: usize = 0;
    while i < 20
        invariant
            i <= 20,
            at + 20 <= buf@.len(),
            at + 20 <= end,
            out@.len() == 20,
            forall|j: int| 0 <= j < i ==> #[trigger] out@[j] == buf@[at + j],
        decreases 20 - i,
    {
        out[i] = buf[at + i];
        i += 1;
    }
    assert(out@ =~= buf@.subrange(at as int, at + 20));
    out
}

/// The infohash and peer id of a handshake.
pub fn parse_handshake(buf: &[u8]) -> (r: Result<([u8; 20], [u8; 20])>)
    ensures
        match r {
            Ok((ih, pid)) => {
                &&& buf@.len() >= HANDSHAKE_LEN
                &&& opens_handshake(buf@)
                &&& ih@ == buf@.subrange(28, 48)
                &&& pid@ == buf@.subrange(48, 68)
            },
            Err(e) => {
                &&& e is Msg
                &&& if buf@.len() < HANDSHAKE_LEN {
                    e.text() == "handshake truncated"@
                } else {
                    !opens_handshake(buf@) && e.text() == "not a BitTorrent handshake"@
                }
            },
        },
{
    if buf.len() < HANDSHAKE_LEN {
        return Err(Error::msg("handshake truncated"));
    }
    if !looks_like_bt_handshake(buf) {
        return Err(Error::msg("not a BitTorrent handshake"));
    }
    Ok((read_id20(buf, 28), read_id20(buf, 48)))
}

/// Whether the bytes open like a plain handshake.
pub fn looks_like_bt_handshake(buf: &[u8]) -> (r: bool)
    ensures
        r == opens_handshake(buf@),
{
    if buf.len() < 20 || buf[0] != 19 {
        return false;
    }
    let name: [u8; 19] = BT_PROTOCOL;
    bytes_eq(slice_subrange(buf, 1, 20), name.as_slice())
}

/// The extension handshake message: `e` (encryption preference, left out when
/// encryption is off), an empty extension map, our port, the request queue depth and
/// the client's name.
pub fn encode_extended_handshake(client: &str, listen_port: u16, e: Option<u8>) -> (out: Vec<u8>)
    ensures
        out@ == encoded(
            MessageView::Extended {
                ext_id: EXT_HANDSHAKE,
                payload: encode_utf8(ltep_text(client@, listen_port, e)),
            },
        ),
{
    let mut t = String::new();
    t.append("d");
    if let Some(v) = e {
        t.append("1:ei");
        push_decimal(&mut t, v as u64);
        t.append("e");
    }
    t.append("1:mde1:pi");
    push_decimal(&mut t, listen_port as u64);
    t.append("e4:reqqi");
    push_decimal(&mut t, LTEP_REQQ as u64);
    t.append("e1:v");
    push_decimal(&mut t, client.as_bytes().len() as u64);
    t.append(":");
    t.append(client);
    t.append("e");
    assert(t@ =~= ltep_text(client@, listen_port, e));
    let payload: Vec<u8> = slice_to_vec(t.as_str().as_bytes());
    encode_message(&Message::Extended { ext_id: EXT_HANDSHAKE, payload })
}

// ---------------------------------------------------------------------------
// Encoding.
// ---------------------------------------------------------------------------

/// The wire bytes of a message.
pub fn encode_message(msg: &Message) -> (out: Vec<u8>)
    ensures
        out@ == encoded(msg@),
{
    let mut out: Vec<u8> = Vec::new();
    match msg {
        Message::KeepAlive => append_keepalive(&mut out),
        Message::Choke => append_id(&mut out, MSG_CHOKE, &[]),
        Message::Unchoke => append_id(&mut out, MSG_UNCHOKE, &[]),
        Message::Interested => append_interested(&mut out),
        Message::NotInterested => append_not_interested(&mut out),
        Message::Have(i) => append_have(&mut out, *i),
        Message::Bitfield(bf) => append_id(&mut out, MSG_BITFIELD, bf.as_slice()),
        Message::Request { index, begin, length } => {
            append_request(&mut out, *index, *begin, *length)
        },
        Message::Piece { index, begin, block } => {
            let mut p: Vec<u8> = Vec::new();
            push_be32(&mut p, *index);
            push_be32(&mut p, *begin);
            push_all(&mut p, block.as_slice());
            append_id(&mut out, MSG_PIECE, p.as_slice());
            assert(p@ =~= payload_of(msg@));
        },
        Message::Cancel { index, begin, length } => {
            append_cancel(&mut out, *index, *begin, *length)
        },
        Message::SuggestPiece(i) => append_number(&mut out, MSG_SUGGEST, *i),
        Message::HaveAll => append_id(&mut out, MSG_HAVE_ALL, &[]),
        Message::HaveNone => append_id(&mut out, MSG_HAVE_NONE, &[]),
        Message::RejectRequest { index, begin, length } => {
            append_reject_request(&mut out, *index, *begin, *length)
        },
        Message::AllowedFast(i) => append_number(&mut out, MSG_ALLOWED_FAST, *i),
        Message::Extended { ext_id, payload } => {
            let mut p: Vec<u8> = Vec::new();
            p.push(*ext_id);
            push_all(&mut p, payload.as_slice());
            append_id(&mut out, MSG_EXTENDED, p.as_slice());
            assert(p@ =~= payload_of(msg@));
        },
        Message::Unknown(id, payload) => append_id(&mut out, *id, payload.as_slice()),
    }
    assert(out@ =~= encoded(msg@));
    out
}

/// Append a length-prefixed frame.
pub fn append_id(out: &mut Vec<u8>, id: u8, payload: &[u8])
    ensures
        final(out)@ == old(out)@ + frame(id, payload@),
{
    let n: u64 = payload.len() as u64;
    let len: u32 = ((n % 0x1_0000_0000 + 1) % 0x1_0000_0000) as u32;
    proof {
        vstd::arithmetic::div_mod::lemma_add_mod_noop(n as int, 1, 0x1_0000_0000);
        assert(len == (1 + payload@.len()) % 0x1_0000_0000);
    }
    push_be32(out, len);
    out.push(id);
    push_all(out, payload);
    assert(out@ =~= old(out)@ + (be32(len) + seq![id] + payload@));
}

/// Append a frame whose payload is one integer.
fn append_number(out: &mut Vec<u8>, id: u8, n: u32)
    ensures
        final(out)@ == old(out)@ + frame(id, be32(n)),
{
    let mut p: Vec<u8> = Vec::new();
    push_be32(&mut p, n);
    append_id(out, id, p.as_slice());
    assert(p@ =~= be32(n));
}

/// Append a frame whose payload is three integers.
fn append_triple(out: &mut Vec<u8>, id: u8, index: u32, begin: u32, length: u32)
    ensures
        final(out)@ == old(out)@ + frame(id, triple(index, begin, length)),
{
    let mut p: Vec<u8> = Vec::new();
    push_be32(&mut p, index);
    push_be32(&mut p, begin);
    push_be32(&mut p, length);
    append_id(out, id, p.as_slice());
    assert(p@ =~= triple(index, begin, length));
}

/// Append a keep-alive.
pub fn append_keepalive(out: &mut Vec<u8>)
    ensures
        final(out)@ == old(out)@ + encoded(MessageView::KeepAlive),
{
    push_be32(out, 0);
    assert(be32(0) =~= encoded(MessageView::KeepAlive));
}

/// Append an INTERESTED.
pub fn append_interested(out: &mut Vec<u8>)
    ensures
        final(out)@ == old(out)@ + encoded(MessageView::Interested),
{
    append_id(out, MSG_INTERESTED, &[]);
    assert(out@ =~= old(out)@ + encoded(MessageView::Interested));
}

/// Append a NOT INTERESTED.
pub fn append_not_interested(out: &mut Vec<u8>)
    ensures
        final(out)@ == old(out)@ + encoded(MessageView::NotInterested),
{
    append_id(out, MSG_NOT_INTERESTED, &[]);
    assert(out@ =~= old(out)@ + encoded(MessageView::NotInterested));
}

/// Append a HAVE.
pub fn append_have(out: &mut Vec<u8>, index: u32)
    ensures
        final(out)@ == old(out)@ + encoded(MessageView::Have(index)),
{
    append_number(out, MSG_HAVE, index);
}

/// Append a REQUEST.
pub fn append_request(out: &mut Vec<u8>, index: u32, begin: u32, length: u32)
    ensures
        final(out)@ == old(out)@ + encoded(MessageView::Request { index, begin, length }),
{
    append_triple(out, MSG_REQUEST, index, begin, length);
}

/// Append a CANCEL.
pub fn append_cancel(out: &mut Vec<u8>, index: u32, begin: u32, length: u32)
    ensures
        final(out)@ == old(out)@ + encoded(MessageView::Cancel { index, begin, length }),
{
    append_triple(out, MSG_CANCEL, index, begin, length);
}

/// Append a REJECT.
pub fn append_reject_request(out: &mut Vec<u8>, index: u32, begin: u32, length: u32)
    ensures
        final(out)@ == old(out)@ + encoded(MessageView::RejectRequest { index, begin, length }),
{
    append_triple(out, MSG_REJECT, index, begin, length);
}

// ---------------------------------------------------------------------------
// Parsing.
// ---------------------------------------------------------------------------

/// The refusal of a length field above the cap.
fn oversize_error(len: u32) -> (e: Error)
    ensures
        e is Msg,
        e.text() == oversize(len as nat),
{
    let mut t = String::new();
    t.append("BT message length ");
    push_decimal(&mut t, len as u64);
    t.append(" exceeds max ");
    push_decimal(&mut t, MAX_MESSAGE_LENGTH as u64);
    assert(t@ =~= oversize(len as nat));
    Error::Msg(t)
}

/// The header of a PIECE, once its 13 bytes are there. `Ok(None)` when they are not,
/// or when the message is not a PIECE.
pub fn parse_piece_header(buf: &[u8]) -> (r: Result<Option<PieceHeader>>)
    ensures
        match r {
            Ok(h) => piece_header(buf@) == Ok::<Option<PieceHeader>, Seq<char>>(h),
            Err(e) => e is Msg && piece_header(buf@) == Err::<Option<PieceHeader>, Seq<char>>(
                e.text(),
            ),
        },
{
    if buf.len() < SIZEOF_PIECE {
        return Ok(None);
    }
    let message_len: u32 = read_be32(buf, 0);
    if message_len == 0 {
        return Ok(None);
    }
    if message_len as usize > MAX_MESSAGE_LENGTH {
        return Err(oversize_error(message_len));
    }
    if buf[4] != MSG_PIECE {
        return Ok(None);
    }
    if message_len < 9 {
        return Err(Error::msg("bad PIECE length"));
    }
    Ok(
        Some(
            PieceHeader {
                index: read_be32(buf, 5),
                begin: read_be32(buf, 9),
                block_len: message_len - 9,
                message_len,
            },
        ),
    )
}

/// Three integers in a row, where the payload holds just that.
fn parse_triple(p: &[u8]) -> (r: Option<(u32, u32, u32)>)
    ensures
        match r {
            Some((index, begin, length)) => p@.len() == 12 && index == be32_at(p@, 0) && begin
                == be32_at(p@, 4) && length == be32_at(p@, 8),
            None => p@.len() != 12,
        },
{
    if p.len() != 12 {
        return None;
    }
    Some((read_be32(p, 0), read_be32(p, 4), read_be32(p, 8)))
}

/// One integer, where the payload holds just that.
fn parse_number(p: &[u8]) -> (r: Option<u32>)
    ensures
        match r {
            Some(n) => p@.len() == 4 && n == be32_at(p@, 0),
            None => p@.len() != 4,
        },
{
    if p.len() != 4 {
        return None;
    }
    Some(read_be32(p, 0))
}

/// The message of a frame that is not a PIECE.
fn parse_body(id: u8, p: &[u8]) -> (r: Result<Message>)
    requires
        id != MSG_PIECE,
    ensures
        match r {
            Ok(m) => body(id, p@) == Ok::<MessageView, Seq<char>>(m@),
            Err(e) => e is Msg && body(id, p@) == Err::<MessageView, Seq<char>>(e.text()),
        },
{
    if id == MSG_CHOKE {
        Ok(Message::Choke)
    } else if id == MSG_UNCHOKE {
        Ok(Message::Unchoke)
    } else if id == MSG_INTERESTED {
        Ok(Message::Interested)
    } else if id == MSG_NOT_INTERESTED {
        Ok(Message::NotInterested)
    } else if id == MSG_HAVE {
        match parse_number(p) {
            Some(i) => Ok(Message::Have(i)),
            None => Err(Error::msg("bad HAVE")),
        }
    } else if id == MSG_BITFIELD {
        Ok(Message::Bitfield(slice_to_vec(p)))
    } else if id == MSG_REQUEST {
        match parse_triple(p) {
            Some((index, begin, length)) => Ok(Message::Request { index, begin, length }),
            None => Err(Error::msg("bad REQUEST")),
        }
    } else if id == MSG_CANCEL {
        match parse_triple(p) {
            Some((index, begin, length)) => Ok(Message::Cancel { index, begin, length }),
            None => Err(Error::msg("bad CANCEL")),
        }
    } else if id == MSG_SUGGEST {
        match parse_number(p) {
            Some(i) => Ok(Message::SuggestPiece(i)),
            None => Err(Error::msg("bad SUGGEST")),
        }
    } else if id == MSG_HAVE_ALL {
        if p.len() != 0 {
            Err(Error::msg("bad HAVE_ALL"))
        } else {
            Ok(Message::HaveAll)
        }
    } else if id == MSG_HAVE_NONE {
        if p.len() != 0 {
            Err(Error::msg("bad HAVE_NONE"))
        } else {
            Ok(Message::HaveNone)
        }
    } else if id == MSG_REJECT {
        match parse_triple(p) {
            Some((index, begin, length)) => Ok(Message::RejectRequest { index, begin, length }),
            None => Err(Error::msg("bad REJECT")),
        }
    } else if id == MSG_ALLOWED_FAST {
        match parse_number(p) {
            Some(i) => Ok(Message::AllowedFast(i)),
            None => Err(Error::msg("bad ALLOWED_FAST")),
        }
    } else if id == MSG_EXTENDED {
        if p.len() == 0 {
            Err(Error::msg("bad EXTENDED"))
        } else {
            Ok(Message::Extended { ext_id: p[0], payload: copy_range(p, 1, p.len()) })
        }
    } else {
        Ok(Message::Unknown(id, slice_to_vec(p)))
    }
}

/// The message at the front of a read buffer, with the bytes it takes. `Ok(None)` asks
/// for more bytes. A length above [`MAX_MESSAGE_LENGTH`] is refused as soon as its four
/// bytes are there.
pub fn parse_message<'a>(buf: &'a [u8]) -> (r: Result<Option<(ParsedMessage<'a>, usize)>>)
    ensures
        match r {
            Ok(None) => front(buf@) is More,
            Ok(Some((m, n))) => {
                &&& front(buf@) == Front::Frame(m@, n as int)
                &&& m is Piece <==> m@ is Piece
            },
            Err(e) => e is Msg && front(buf@) == Front::Bad(e.text()),
        },
{
    if buf.len() < 4 {
        return Ok(None);
    }
    let len32: u32 = read_be32(buf, 0);
    let len: usize = len32 as usize;
    if len == 0 {
        return Ok(Some((ParsedMessage::Msg(Message::KeepAlive), 4)));
    }
    if len > MAX_MESSAGE_LENGTH {
        return Err(oversize_error(len32));
    }
    if buf.len() < 4 + len {
        return Ok(None);
    }
    let id: u8 = buf[4];
    let payload: &'a [u8] = slice_subrange(buf, 5, 4 + len);
    if id == MSG_PIECE {
        if payload.len() < 8 {
            return Err(Error::msg("bad PIECE"));
        }
        let block: &'a [u8] = slice_subrange(payload, 8, payload.len());
        return Ok(
            Some(
                (
                    ParsedMessage::Piece {
                        index: read_be32(payload, 0),
                        begin: read_be32(payload, 4),
                        block,
                    },
                    4 + len,
                ),
            ),
        );
    }
    match parse_body(id, payload) {
        Ok(m) => Ok(Some((ParsedMessage::Msg(m), 4 + len))),
        Err(e) => Err(e),
    }
}

// ---------------------------------------------------------------------------
// Laws.
// ---------------------------------------------------------------------------

/// Whether a message has wire bytes that say it and nothing else: its length is within
/// the cap, and an unknown message does not use a known id.
pub open spec fn sendable(m: MessageView) -> bool {
    &&& 1 + payload_of(m).len() <= MAX_MESSAGE_LENGTH
    &&& (m matches MessageView::Unknown(id, _) ==> !known_id(id))
}

/// A frame within the cap is read back whole, whatever follows it.
pub proof fn frame_is_read_back(id: u8, p: Seq<u8>, rest: Seq<u8>)
    requires
        1 + p.len() <= MAX_MESSAGE_LENGTH,
    ensures
        front(frame(id, p) + rest) == (match body(id, p) {
            Ok(m) => Front::Frame(m, frame(id, p).len() as int),
            Err(e) => Front::Bad(e),
        }),
{
    let buf = frame(id, p) + rest;
    let len = (1 + p.len()) as u32;
    assert((1 + p.len()) % 0x1_0000_0000 == len) by {
        vstd::arithmetic::div_mod::lemma_small_mod(1 + p.len(), 0x1_0000_0000);
    }
    assert(frame(id, p) == be32(len) + seq![id] + p);
    assert(buf.subrange(0, 4) =~= be32(len));
    be32_round_trip(buf, 0, len);
    assert(buf[4] == id);
    assert(buf.subrange(5, 4 + len) =~= p);
}

/// Parsing gives back every message that was encoded, with the bytes it took, whatever
/// follows it in the stream.
pub proof fn encoded_message_parses_back(m: MessageView, rest: Seq<u8>)
    requires
        sendable(m),
    ensures
        front(encoded(m) + rest) == Front::Frame(m, encoded(m).len() as int),
{
    if m is KeepAlive {
        let buf = encoded(m) + rest;
        assert(buf[0] == 0 && buf[1] == 0 && buf[2] == 0 && buf[3] == 0);
    } else {
        let p = payload_of(m);
        frame_is_read_back(id_of(m), p, rest);
        match m {
            MessageView::Have(i) | MessageView::SuggestPiece(i) | MessageView::AllowedFast(i) => {
                assert(p.subrange(0, 4) =~= be32(i));
                be32_round_trip(p, 0, i);
            },
            MessageView::Request { index, begin, length }
            | MessageView::Cancel { index, begin, length }
            | MessageView::RejectRequest { index, begin, length } => {
                triple_reads_back(index, begin, length);
            },
            MessageView::Piece { index, begin, block } => {
                assert(p.subrange(0, 4) =~= be32(index));
                assert(p.subrange(4, 8) =~= be32(begin));
                be32_round_trip(p, 0, index);
                be32_round_trip(p, 4, begin);
                assert(p.subrange(8, p.len() as int) =~= block);
            },
            MessageView::Extended { ext_id, payload } => {
                assert(p.subrange(1, p.len() as int) =~= payload);
            },
            _ => {},
        }
    }
}

/// The bytes of the messages without a byte string are those of the protocol: the length, the
/// number of the message, and its integers in their order.
pub proof fn fixed_messages_have_the_bytes_of_the_protocol(index: u32, begin: u32, length: u32)
    ensures
        encoded(MessageView::KeepAlive) == seq![0u8, 0, 0, 0],
        encoded(MessageView::Choke) == seq![0u8, 0, 0, 1, 0],
        encoded(MessageView::Unchoke) == seq![0u8, 0, 0, 1, 1],
        encoded(MessageView::Interested) == seq![0u8, 0, 0, 1, 2],
        encoded(MessageView::NotInterested) == seq![0u8, 0, 0, 1, 3],
        encoded(MessageView::Have(index)) == seq![0u8, 0, 0, 5, 4] + be32(index),
        encoded(MessageView::Request { index, begin, length }) == seq![0u8, 0, 0, 13, 6] + be32(
            index,
        ) + be32(begin) + be32(length),
        encoded(MessageView::Cancel { index, begin, length }) == seq![0u8, 0, 0, 13, 8] + be32(
            index,
        ) + be32(begin) + be32(length),
        encoded(MessageView::SuggestPiece(index)) == seq![0u8, 0, 0, 5, 13] + be32(index),
        encoded(MessageView::HaveAll) == seq![0u8, 0, 0, 1, 14],
        encoded(MessageView::HaveNone) == seq![0u8, 0, 0, 1, 15],
        encoded(MessageView::RejectRequest { index, begin, length }) == seq![0u8, 0, 0, 13, 16]
            + be32(index) + be32(begin) + be32(length),
        encoded(MessageView::AllowedFast(index)) == seq![0u8, 0, 0, 5, 17] + be32(index),
{
    assert(be32(1) =~= seq![0u8, 0, 0, 1]);
    assert(be32(5) =~= seq![0u8, 0, 0, 5]);
    assert(be32(13) =~= seq![0u8, 0, 0, 13]);
    assert(triple(index, begin, length).len() == 12);
    assert(encoded(MessageView::Choke) =~= seq![0u8, 0, 0, 1, 0]);
    assert(encoded(MessageView::Unchoke) =~= seq![0u8, 0, 0, 1, 1]);
    assert(encoded(MessageView::Interested) =~= seq![0u8, 0, 0, 1, 2]);
    assert(encoded(MessageView::NotInterested) =~= seq![0u8, 0, 0, 1, 3]);
    assert(encoded(MessageView::HaveAll) =~= seq![0u8, 0, 0, 1, 14]);
    assert(encoded(MessageView::HaveNone) =~= seq![0u8, 0, 0, 1, 15]);
    let p = be32(index) + be32(begin) + be32(length);
    assert(frame(6, p) =~= seq![0u8, 0, 0, 13, 6] + be32(index) + be32(begin) + be32(length));
    assert(frame(8, p) =~= seq![0u8, 0, 0, 13, 8] + be32(index) + be32(begin) + be32(length));
    assert(frame(16, p) =~= seq![0u8, 0, 0, 13, 16] + be32(index) + be32(begin) + be32(length));
}

/// The bytes of the messages with a byte string are those of the protocol.
pub proof fn messages_with_bytes_have_the_bytes_of_the_protocol(
    index: u32,
    begin: u32,
    id: u8,
    data: Seq<u8>,
)
    requires
        data.len() + 9 <= u32::MAX,
    ensures
        encoded(MessageView::Bitfield(data)) == be32((1 + data.len()) as u32) + seq![5u8] + data,
        encoded(MessageView::Piece { index, begin, block: data }) == be32((9 + data.len()) as u32)
            + seq![7u8] + be32(index) + be32(begin) + data,
        encoded(MessageView::Extended { ext_id: id, payload: data }) == be32(
            (2 + data.len()) as u32,
        ) + seq![20u8, id] + data,
        encoded(MessageView::Unknown(id, data)) == be32((1 + data.len()) as u32) + seq![id] + data,
{
    vstd::arithmetic::div_mod::lemma_small_mod(1 + data.len(), 0x1_0000_0000);
    vstd::arithmetic::div_mod::lemma_small_mod(2 + data.len(), 0x1_0000_0000);
    vstd::arithmetic::div_mod::lemma_small_mod(9 + data.len(), 0x1_0000_0000);
    let p = be32(index) + be32(begin) + data;
    assert(p.len() == 8 + data.len());
    assert(frame(7, p) =~= be32((9 + data.len()) as u32) + seq![7u8] + be32(index) + be32(begin)
        + data);
    let x = seq![id] + data;
    assert(frame(20, x) =~= be32((2 + data.len()) as u32) + seq![20u8, id] + data);
}

/// The bytes that another client sends for a message without a byte string are read as that
/// message, whatever follows them.
#[verifier::spinoff_prover]
#[verifier::rlimit(40)]
pub proof fn fixed_messages_are_read(index: u32, begin: u32, length: u32, rest: Seq<u8>)
    ensures
        front(seq![0u8, 0, 0, 0] + rest) == Front::Frame(MessageView::KeepAlive, 4),
        front(seq![0u8, 0, 0, 1, 0] + rest) == Front::Frame(MessageView::Choke, 5),
        front(seq![0u8, 0, 0, 1, 1] + rest) == Front::Frame(MessageView::Unchoke, 5),
        front(seq![0u8, 0, 0, 1, 2] + rest) == Front::Frame(MessageView::Interested, 5),
        front(seq![0u8, 0, 0, 1, 3] + rest) == Front::Frame(MessageView::NotInterested, 5),
        front(seq![0u8, 0, 0, 5, 4] + be32(index) + rest) == Front::Frame(
            MessageView::Have(index),
            9,
        ),
        front(seq![0u8, 0, 0, 13, 6] + be32(index) + be32(begin) + be32(length) + rest)
            == Front::Frame(MessageView::Request { index, begin, length }, 17),
        front(seq![0u8, 0, 0, 13, 8] + be32(index) + be32(begin) + be32(length) + rest)
            == Front::Frame(MessageView::Cancel { index, begin, length }, 17),
        front(seq![0u8, 0, 0, 5, 13] + be32(index) + rest) == Front::Frame(
            MessageView::SuggestPiece(index),
            9,
        ),
        front(seq![0u8, 0, 0, 1, 14] + rest) == Front::Frame(MessageView::HaveAll, 5),
        front(seq![0u8, 0, 0, 1, 15] + rest) == Front::Frame(MessageView::HaveNone, 5),
        front(seq![0u8, 0, 0, 13, 16] + be32(index) + be32(begin) + be32(length) + rest)
            == Front::Frame(MessageView::RejectRequest { index, begin, length }, 17),
        front(seq![0u8, 0, 0, 5, 17] + be32(index) + rest) == Front::Frame(
            MessageView::AllowedFast(index),
            9,
        ),
{
    fixed_messages_have_the_bytes_of_the_protocol(index, begin, length);
    encoded_message_parses_back(MessageView::KeepAlive, rest);
    encoded_message_parses_back(MessageView::Choke, rest);
    encoded_message_parses_back(MessageView::Unchoke, rest);
    encoded_message_parses_back(MessageView::Interested, rest);
    encoded_message_parses_back(MessageView::NotInterested, rest);
    encoded_message_parses_back(MessageView::Have(index), rest);
    encoded_message_parses_back(MessageView::Request { index, begin, length }, rest);
    encoded_message_parses_back(MessageView::Cancel { index, begin, length }, rest);
    encoded_message_parses_back(MessageView::SuggestPiece(index), rest);
    encoded_message_parses_back(MessageView::HaveAll, rest);
    encoded_message_parses_back(MessageView::HaveNone, rest);
    encoded_message_parses_back(MessageView::RejectRequest { index, begin, length }, rest);
    encoded_message_parses_back(MessageView::AllowedFast(index), rest);
}

/// A bitfield that another client sends is read as it is, whatever follows it.
pub proof fn bitfields_are_read(data: Seq<u8>, rest: Seq<u8>)
    requires
        data.len() + 1 <= 1_048_576,
    ensures
        front(be32((1 + data.len()) as u32) + seq![5u8] + data + rest) == Front::Frame(
            MessageView::Bitfield(data),
            5 + data.len() as int,
        ),
{
    vstd::arithmetic::div_mod::lemma_small_mod(1 + data.len(), 0x1_0000_0000);
    frame_is_read_back(5, data, rest);
    assert(frame(5, data) == be32((1 + data.len()) as u32) + seq![5u8] + data);
}

/// A block that another client sends is read with its piece and its place, whatever follows
/// it.
pub proof fn blocks_are_read(index: u32, begin: u32, data: Seq<u8>, rest: Seq<u8>)
    requires
        data.len() + 9 <= 1_048_576,
    ensures
        front(
            be32((9 + data.len()) as u32) + seq![7u8] + be32(index) + be32(begin) + data + rest,
        ) == Front::Frame(
            MessageView::Piece { index, begin, block: data },
            13 + data.len() as int,
        ),
{
    let m = MessageView::Piece { index, begin, block: data };
    messages_with_bytes_have_the_bytes_of_the_protocol(index, begin, 0, data);
    encoded_message_parses_back(m, rest);
    assert(encoded(m).len() == 13 + data.len());
}

/// An extended message that another client sends is read with its number, whatever follows it.
pub proof fn extended_messages_are_read(id: u8, data: Seq<u8>, rest: Seq<u8>)
    requires
        data.len() + 2 <= 1_048_576,
    ensures
        front(be32((2 + data.len()) as u32) + seq![20u8, id] + data + rest) == Front::Frame(
            MessageView::Extended { ext_id: id, payload: data },
            6 + data.len() as int,
        ),
{
    let m = MessageView::Extended { ext_id: id, payload: data };
    messages_with_bytes_have_the_bytes_of_the_protocol(0, 0, id, data);
    encoded_message_parses_back(m, rest);
    assert(encoded(m).len() == 6 + data.len());
}

/// A message of a number without a meaning is skipped whole, whatever follows it.
pub proof fn unknown_messages_are_skipped(id: u8, data: Seq<u8>, rest: Seq<u8>)
    requires
        data.len() + 1 <= 1_048_576,
        9 <= id <= 12 || id == 18 || id == 19 || id > 20,
    ensures
        front(be32((1 + data.len()) as u32) + seq![id] + data + rest) == Front::Frame(
            MessageView::Unknown(id, data),
            5 + data.len() as int,
        ),
{
    vstd::arithmetic::div_mod::lemma_small_mod(1 + data.len(), 0x1_0000_0000);
    frame_is_read_back(id, data, rest);
    assert(frame(id, data) == be32((1 + data.len()) as u32) + seq![id] + data);
}

/// A message whose integers do not fill its length exactly is refused, and so are a PIECE
/// without its two integers and an extended message without its number.
pub proof fn misshapen_messages_are_refused(id: u8, p: Seq<u8>, rest: Seq<u8>)
    requires
        1 + p.len() <= 1_048_576,
        (id == 4 || id == 13 || id == 17) && p.len() != 4 || (id == 6 || id == 8 || id == 16)
            && p.len() != 12 || (id == 14 || id == 15) && p.len() != 0 || id == 7 && p.len() < 8
            || id == 20 && p.len() < 1,
    ensures
        front(be32((1 + p.len()) as u32) + seq![id] + p + rest) is Bad,
{
    vstd::arithmetic::div_mod::lemma_small_mod(1 + p.len(), 0x1_0000_0000);
    frame_is_read_back(id, p, rest);
}

/// Nothing is taken from a buffer before its message is whole, and a length above a mebibyte
/// is refused.
pub proof fn a_message_is_awaited_whole(buf: Seq<u8>)
    ensures
        buf.len() < 4 ==> front(buf) is More,
        buf.len() >= 4 && be32_at(buf, 0) <= 1_048_576 && buf.len() < 4 + be32_at(buf, 0)
            ==> front(buf) is More,
        buf.len() >= 4 && be32_at(buf, 0) > 1_048_576 ==> front(buf) is Bad,
        buf.len() >= 4 && be32_at(buf, 0) <= 1_048_576 && buf.len() >= 4 + be32_at(buf, 0)
            ==> front(buf) !is More,
        front(buf) matches Front::Frame(_, n) ==> n == 4 + be32_at(buf, 0) && n <= buf.len(),
{
}

/// Messages follow one another in the stream.
pub proof fn a_row_of_messages_is_their_bytes_in_a_row(ms: Seq<MessageView>, more: Seq<MessageView>)
    ensures
        encoded_all(Seq::<MessageView>::empty()) == Seq::<u8>::empty(),
        forall|m: MessageView| #[trigger] encoded_all(seq![m]) == encoded(m),
        encoded_all(ms + more) == encoded_all(ms) + encoded_all(more),
    decreases more.len(),
{
    assert forall|m: MessageView| #[trigger] encoded_all(seq![m]) == encoded(m) by {
        assert(seq![m].drop_last() =~= Seq::<MessageView>::empty());
        assert(encoded_all(seq![m].drop_last()) =~= Seq::<u8>::empty());
        assert(encoded_all(seq![m]) =~= encoded(m));
    }
    if more.len() == 0 {
        assert(ms + more =~= ms);
        assert(encoded_all(ms) + encoded_all(more) =~= encoded_all(ms));
    } else {
        a_row_of_messages_is_their_bytes_in_a_row(ms, more.drop_last());
        assert((ms + more).drop_last() =~= ms + more.drop_last());
        assert(encoded_all(ms + more) =~= encoded_all(ms) + encoded_all(more));
    }
}

/// The handshake is that of the protocol: the length and the name of the protocol, eight
/// reserved bytes of which two advertise the extensions, the infohash and the peer id.
pub proof fn the_handshake_has_the_bytes_of_the_protocol(infohash: Seq<u8>, peer_id: Seq<u8>)
    requires
        infohash.len() == 20,
        peer_id.len() == 20,
    ensures
        handshake(infohash, peer_id) == seq![
            19u8, 66, 105, 116, 84, 111, 114, 114, 101, 110, 116, 32, 112, 114, 111, 116, 111, 99,
            111, 108, 0, 0, 0, 0, 0, 0x10, 0, 0x04,
        ] + infohash + peer_id,
{
    let head = seq![
        19u8, 66, 105, 116, 84, 111, 114, 114, 101, 110, 116, 32, 112, 114, 111, 116, 111, 99,
        111, 108, 0, 0, 0, 0, 0, 0x10, 0, 0x04,
    ];
    assert(seq![19u8] + BT_PROTOCOL@ + reserved() =~= head);
    assert(handshake(infohash, peer_id) =~= head + infohash + peer_id);
}

/// Only bytes that begin with the length and the name of the protocol open a handshake.
pub proof fn handshakes_are_known_by_their_name(buf: Seq<u8>)
    ensures
        opens_handshake(buf) <==> seq![
            19u8, 66, 105, 116, 84, 111, 114, 114, 101, 110, 116, 32, 112, 114, 111, 116, 111, 99,
            111, 108,
        ].is_prefix_of(buf),
{
    let name = seq![
        19u8, 66, 105, 116, 84, 111, 114, 114, 101, 110, 116, 32, 112, 114, 111, 116, 111, 99,
        111, 108,
    ];
    assert(seq![19u8] + BT_PROTOCOL@ =~= name);
    if opens_handshake(buf) {
        assert(buf.subrange(0, 20) =~= seq![19u8] + buf.subrange(1, 20));
    }
    if name.is_prefix_of(buf) {
        assert(buf.subrange(0, 20)[0] == 19);
        assert(buf.subrange(1, 20) =~= name.subrange(1, 20));
        assert(name.subrange(1, 20) =~= BT_PROTOCOL@);
    }
}

/// The header of a PIECE is read as soon as its thirteen bytes are there.
pub proof fn a_piece_is_known_by_its_header(index: u32, begin: u32, n: u32, rest: Seq<u8>)
    requires
        n + 9 <= 1_048_576,
    ensures
        piece_header(be32((9 + n) as u32) + seq![7u8] + be32(index) + be32(begin) + rest) == Ok::<
            Option<PieceHeader>,
            Seq<char>,
        >(Some(PieceHeader { index, begin, block_len: n, message_len: (9 + n) as u32 })),
{
    let buf = be32((9 + n) as u32) + seq![7u8] + be32(index) + be32(begin) + rest;
    assert(buf.subrange(0, 4) =~= be32((9 + n) as u32));
    assert(buf.subrange(5, 9) =~= be32(index));
    assert(buf.subrange(9, 13) =~= be32(begin));
    be32_round_trip(buf, 0, (9 + n) as u32);
    be32_round_trip(buf, 5, index);
    be32_round_trip(buf, 9, begin);
}

/// The three integers of a REQUEST payload are read back.
proof fn triple_reads_back(index: u32, begin: u32, length: u32)
    ensures
        triple(index, begin, length).len() == 12,
        be32_at(triple(index, begin, length), 0) == index,
        be32_at(triple(index, begin, length), 4) == begin,
        be32_at(triple(index, begin, length), 8) == length,
{
    let p = triple(index, begin, length);
    assert(p.subrange(0, 4) =~= be32(index));
    assert(p.subrange(4, 8) =~= be32(begin));
    assert(p.subrange(8, 12) =~= be32(length));
    be32_round_trip(p, 0, index);
    be32_round_trip(p, 4, begin);
    be32_round_trip(p, 8, length);
}

/// What the front of the buffer holds does not change when more bytes arrive: a message
/// stays the message and a refusal stays a refusal.
pub proof fn more_bytes_keep_the_front(buf: Seq<u8>, more: Seq<u8>)
    requires
        front(buf) !is More,
    ensures
        front(buf + more) == front(buf),
{
    let all = buf + more;
    assert(be32_at(all, 0) == be32_at(buf, 0));
    let len = be32_at(buf, 0) as int;
    if 0 < len <= MAX_MESSAGE_LENGTH {
        assert(all.subrange(5, 4 + len) =~= buf.subrange(5, 4 + len));
    }
}

/// A length field above the cap is refused from its four bytes alone.
pub proof fn oversize_is_refused_at_once(buf: Seq<u8>)
    requires
        buf.len() >= 4,
        be32_at(buf, 0) > MAX_MESSAGE_LENGTH,
    ensures
        front(buf.subrange(0, 4)) == Front::Bad(oversize(be32_at(buf, 0) as nat)),
        front(buf) == front(buf.subrange(0, 4)),
{
    let head = buf.subrange(0, 4);
    assert(head[0] == buf[0] && head[1] == buf[1] && head[2] == buf[2] && head[3] == buf[3]);
}

/// A message is asked for in bounded space: a buffer that holds the largest message is
/// never asked for more.
pub proof fn a_full_buffer_is_decided(buf: Seq<u8>)
    requires
        buf.len() >= 4 + MAX_MESSAGE_LENGTH,
    ensures
        front(buf) !is More,
{
}

/// The header read ahead of a PIECE's block agrees with the message that is read once
/// the block is there.
pub proof fn piece_header_agrees_with_message(buf: Seq<u8>, h: PieceHeader)
    requires
        piece_header(buf) == Ok::<Option<PieceHeader>, Seq<char>>(Some(h)),
        buf.len() >= 4 + h.message_len,
    ensures
        front(buf) == Front::Frame(
            MessageView::Piece {
                index: h.index,
                begin: h.begin,
                block: buf.subrange(13, 13 + h.block_len),
            },
            4 + h.message_len,
        ),
{
    let p = buf.subrange(5, 4 + h.message_len);
    assert(p[0] == buf[5] && p[1] == buf[6] && p[2] == buf[7] && p[3] == buf[8]);
    assert(p[4] == buf[9] && p[5] == buf[10] && p[6] == buf[11] && p[7] == buf[12]);
    assert(p.subrange(8, p.len() as int) =~= buf.subrange(13, 13 + h.block_len));
}

/// The handshake we send is one that we accept: it carries the infohash and the peer id
/// back and advertises both extensions.
pub proof fn handshake_parses_back(infohash: Seq<u8>, peer_id: Seq<u8>)
    requires
        infohash.len() == 20,
        peer_id.len() == 20,
    ensures
        handshake(infohash, peer_id).len() == HANDSHAKE_LEN,
        opens_handshake(handshake(infohash, peer_id)),
        handshake(infohash, peer_id).subrange(28, 48) == infohash,
        handshake(infohash, peer_id).subrange(48, 68) == peer_id,
        handshake(infohash, peer_id)[HS_EXT_BYTE as int] & HS_EXT_BIT != 0,
        handshake(infohash, peer_id)[HS_FAST_BYTE as int] & HS_FAST_BIT != 0,
{
    let hs = handshake(infohash, peer_id);
    assert(hs.subrange(1, 20) =~= BT_PROTOCOL@);
    assert(hs.subrange(28, 48) =~= infohash);
    assert(hs.subrange(48, 68) =~= peer_id);
    assert(0x10u8 & 0x10u8 != 0) by (bit_vector);
    assert(0x04u8 & 0x04u8 != 0) by (bit_vector);
}

/// The extension handshake is a dictionary with sorted keys: whether we prefer encryption,
/// where it is told, no messages, our port, 8192 requests at a time, and our name.
pub proof fn the_extension_handshake_tells_of_us(client: Seq<char>, port: u16, e: u8)
    ensures
        ltep_text(client, port, None) == "d"@ + "1:mde"@ + ("1:pi"@ + decimal(port as nat) + "e"@)
            + ("4:reqqi"@ + decimal(8192) + "e"@) + ("1:v"@ + decimal(encode_utf8(client).len())
            + ":"@ + client) + "e"@,
        ltep_text(client, port, Some(e)) == "d"@ + ("1:ei"@ + decimal(e as nat) + "e"@) + "1:mde"@
            + ("1:pi"@ + decimal(port as nat) + "e"@) + ("4:reqqi"@ + decimal(8192) + "e"@) + (
        "1:v"@ + decimal(encode_utf8(client).len()) + ":"@ + client) + "e"@,
{
    reveal_strlit("d");
    reveal_strlit("e");
    reveal_strlit(":");
    reveal_strlit("1:ei");
    reveal_strlit("1:mde");
    reveal_strlit("1:pi");
    reveal_strlit("4:reqqi");
    reveal_strlit("1:v");
    reveal_strlit("1:mde1:pi");
    reveal_strlit("e4:reqqi");
    reveal_strlit("e1:v");
    let own = "1:v"@ + decimal(encode_utf8(client).len()) + ":"@ + client;
    let tail = "1:mde"@ + ("1:pi"@ + decimal(port as nat) + "e"@) + ("4:reqqi"@ + decimal(8192)
        + "e"@) + own + "e"@;
    let told = "1:mde1:pi"@ + decimal(port as nat) + "e4:reqqi"@ + decimal(8192) + "e1:v"@
        + decimal(encode_utf8(client).len()) + ":"@ + client + "e"@;
    assert(told =~= tail);
    assert(ltep_text(client, port, None) =~= "d"@ + told);
    assert("d"@ + "1:mde"@ + ("1:pi"@ + decimal(port as nat) + "e"@) + ("4:reqqi"@ + decimal(8192)
        + "e"@) + own + "e"@ =~= "d"@ + tail);
    let pre = "1:ei"@ + decimal(e as nat) + "e"@;
    assert(ltep_text(client, port, Some(e)) =~= "d"@ + pre + told);
    assert("d"@ + pre + "1:mde"@ + ("1:pi"@ + decimal(port as nat) + "e"@) + ("4:reqqi"@ + decimal(
        8192,
    ) + "e"@) + own + "e"@ =~= "d"@ + pre + tail);
}

} // verus!
