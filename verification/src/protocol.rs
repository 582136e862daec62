use crate::bytes::{
    append_bytes, be32, be32_value, copy_range, lemma_be32_roundtrip, push_be32, read_be32,
    wire_len,
};
use crate::text::{decoded_text, is_trimmed, lemma_decoded_text_encode, text_of};
use std::sync::Arc;
use vstd::prelude::*;
use vstd::utf8::*;

verus! {

/// A shared, immutable text.
pub type CopyStr = Arc<String>;

/// The kind byte that opens every frame on the wire.
#[derive(Clone, Copy, PartialEq, Eq, Structural, Debug)]
pub enum DataTypeKind {
    Token,
    Name,
    Remove,
    Message,
    Image,
    RPS,
    Off,
    IsOff,
    OffData,
}

/// The byte that stands for a kind on the wire.
pub open spec fn kind_code(k: DataTypeKind) -> u8 {
    match k {
        DataTypeKind::Token => 1,
        DataTypeKind::Name => 2,
        DataTypeKind::Remove => 3,
        DataTypeKind::Message => 101,
        DataTypeKind::Image => 102,
        DataTypeKind::RPS => 103,
        DataTypeKind::Off => 104,
        DataTypeKind::IsOff => 105,
        DataTypeKind::OffData => 106,
    }
}

/// The kind a byte stands for, if any.
pub open spec fn kind_of_code(b: u8) -> Option<DataTypeKind> {
    if b == 1 {
        Some(DataTypeKind::Token)
    } else if b == 2 {
        Some(DataTypeKind::Name)
    } else if b == 3 {
        Some(DataTypeKind::Remove)
    } else if b == 101 {
        Some(DataTypeKind::Message)
    } else if b == 102 {
        Some(DataTypeKind::Image)
    } else if b == 103 {
        Some(DataTypeKind::RPS)
    } else if b == 104 {
        Some(DataTypeKind::Off)
    } else if b == 105 {
        Some(DataTypeKind::IsOff)
    } else if b == 106 {
        Some(DataTypeKind::OffData)
    } else {
        None
    }
}

impl DataTypeKind {
    /// The byte this kind is written as.
    pub fn code(self) -> (b: u8)
        ensures
            b == kind_code(self),
    {
        match self {
            DataTypeKind::Token => 1,
            DataTypeKind::Name => 2,
            DataTypeKind::Remove => 3,
            DataTypeKind::Message => 101,
            DataTypeKind::Image => 102,
            DataTypeKind::RPS => 103,
            DataTypeKind::Off => 104,
            DataTypeKind::IsOff => 105,
            DataTypeKind::OffData => 106,
        }
    }

    /// Reads a kind byte; `None` for a byte that names no kind.
    pub fn from_u8(num: u8) -> (k: Option<Self>)
        ensures
            k == kind_of_code(num),
    {
        match num {
            1 => Some(Self::Token),
            2 => Some(Self::Name),
            3 => Some(Self::Remove),
            101 => Some(Self::Message),
            102 => Some(Self::Image),
            103 => Some(Self::RPS),
            104 => Some(Self::Off),
            105 => Some(Self::IsOff),
            106 => Some(Self::OffData),
            _ => None,
        }
    }
}

/// Reading back the byte of a kind gives that kind, and a byte that reads as a
/// kind is that kind's byte: the kind byte is a bijection onto its nine values.
pub proof fn lemma_kind_code_roundtrip(k: DataTypeKind, b: u8)
    ensures
        kind_of_code(kind_code(k)) == Some(k),
        kind_of_code(b) == Some(k) ==> kind_code(k) == b,
{
}

/// A rock-paper-scissors message. The bytes are the three-byte id of a game.
#[derive(Clone, Debug)]
pub enum RPSType {
    /// A challenge from the frame's sender to the given player.
    Send(Vec<u8>, CopyStr),
    /// The challenged player's answer.
    Accept(Vec<u8>, bool),
    Rock(Vec<u8>),
    Paper(Vec<u8>),
    Scissor(Vec<u8>),
    /// The server's announcement that the game starts.
    Game(Vec<u8>),
    /// A player's forfeit.
    Fail(Vec<u8>),
    /// The two choices and the winner's token ("None" for a draw).
    Result(Vec<u8>, [u8; 2], CopyStr),
    /// A pending challenge, replayed to a newcomer: the challenged player.
    Data(Vec<u8>, CopyStr),
}

/// What a frame carries.
#[derive(Clone, Debug)]
pub enum DataType {
    Token(CopyStr),
    Name(CopyStr),
    Remove,
    Message(CopyStr),
    Image,
    RPS(RPSType),
    Off(CopyStr),
    IsOff(CopyStr),
    OffData(CopyStr),
}

/// One frame: the sender's token (if any), the kind byte and the content.
#[derive(Clone, Debug)]
pub struct Data {
    pub token: Option<CopyStr>,
    pub type_kind: DataTypeKind,
    pub inform: DataType,
}

/// The mathematical value of an [`RPSType`].
pub enum SpecRps {
    Send(Seq<u8>, Seq<char>),
    Accept(Seq<u8>, bool),
    Rock(Seq<u8>),
    Paper(Seq<u8>),
    Scissor(Seq<u8>),
    Game(Seq<u8>),
    Fail(Seq<u8>),
    Result(Seq<u8>, Seq<u8>, Seq<char>),
    Data(Seq<u8>, Seq<char>),
}

/// The mathematical value of a [`DataType`].
pub enum SpecDataType {
    Token(Seq<char>),
    Name(Seq<char>),
    Remove,
    Message(Seq<char>),
    Image,
    RPS(SpecRps),
    Off(Seq<char>),
    IsOff(Seq<char>),
    OffData(Seq<char>),
}

/// The mathematical value of a [`Data`].
pub struct SpecData {
    pub token: Option<Seq<char>>,
    pub type_kind: DataTypeKind,
    pub inform: SpecDataType,
}

impl View for RPSType {
    type V = SpecRps;

    open spec fn view(&self) -> SpecRps {
        match self {
            RPSType::Send(id, t) => SpecRps::Send(id@, t@),
            RPSType::Accept(id, a) => SpecRps::Accept(id@, *a),
            RPSType::Rock(id) => SpecRps::Rock(id@),
            RPSType::Paper(id) => SpecRps::Paper(id@),
            RPSType::Scissor(id) => SpecRps::Scissor(id@),
            RPSType::Game(id) => SpecRps::Game(id@),
            RPSType::Fail(id) => SpecRps::Fail(id@),
            RPSType::Result(id, c, w) => SpecRps::Result(id@, c@, w@),
            RPSType::Data(id, t) => SpecRps::Data(id@, t@),
        }
    }
}

impl View for DataType {
    type V = SpecDataType;

    open spec fn view(&self) -> SpecDataType {
        match self {
            DataType::Token(s) => SpecDataType::Token(s@),
            DataType::Name(s) => SpecDataType::Name(s@),
            DataType::Remove => SpecDataType::Remove,
            DataType::Message(s) => SpecDataType::Message(s@),
            DataType::Image => SpecDataType::Image,
            DataType::RPS(r) => SpecDataType::RPS(r@),
            DataType::Off(s) => SpecDataType::Off(s@),
            DataType::IsOff(s) => SpecDataType::IsOff(s@),
            DataType::OffData(s) => SpecDataType::OffData(s@),
        }
    }
}

/// The text of an optional token.
pub open spec fn opt_text(t: Option<CopyStr>) -> Option<Seq<char>> {
    match t {
        Some(s) => Some(s@),
        None => None,
    }
}

impl View for Data {
    type V = SpecData;

    open spec fn view(&self) -> SpecData {
        SpecData { token: opt_text(self.token), type_kind: self.type_kind, inform: self.inform@ }
    }
}

/// The bytes of a rock-paper-scissors message: a tag byte, the id, then the rest.
pub open spec fn rps_bytes(r: SpecRps) -> Seq<u8> {
    match r {
        SpecRps::Send(id, t) => seq![1u8] + id + encode_utf8(t),
        SpecRps::Accept(id, a) => seq![2u8] + id + seq![if a { 1u8 } else { 0u8 }],
        SpecRps::Rock(id) => seq![3u8] + id,
        SpecRps::Paper(id) => seq![4u8] + id,
        SpecRps::Scissor(id) => seq![5u8] + id,
        SpecRps::Game(id) => seq![6u8] + id,
        SpecRps::Fail(id) => seq![7u8] + id,
        SpecRps::Result(id, c, w) => seq![8u8] + id + c + encode_utf8(w),
        SpecRps::Data(id, t) => seq![9u8] + id + encode_utf8(t),
    }
}

/// The payload bytes of a content: the UTF-8 of its text, the message bytes of a
/// game message, and a single zero for `Remove` and `Image`.
pub open spec fn payload_bytes(d: SpecDataType) -> Seq<u8> {
    match d {
        SpecDataType::Token(s) => encode_utf8(s),
        SpecDataType::Name(s) => encode_utf8(s),
        SpecDataType::Off(s) => encode_utf8(s),
        SpecDataType::IsOff(s) => encode_utf8(s),
        SpecDataType::OffData(s) => encode_utf8(s),
        SpecDataType::Message(s) => encode_utf8(s),
        SpecDataType::RPS(r) => rps_bytes(r),
        SpecDataType::Remove => seq![0u8],
        SpecDataType::Image => seq![0u8],
    }
}

/// The payloads that can be read as content of the given kind: a game message
/// needs its tag and id, and `Accept` and `Result` the bytes after the id.
pub open spec fn payload_decodable(kind: DataTypeKind, b: Seq<u8>) -> bool {
    kind == DataTypeKind::RPS ==> {
        &&& b.len() >= 4
        &&& b[0] == 2 ==> b.len() >= 5
        &&& b[0] == 8 ==> b.len() >= 6
    }
}

/// The game message that some bytes stand for; an unknown tag reads as `Rock`
/// with the one-byte id `[0]`.
pub open spec fn rps_of_bytes(b: Seq<u8>) -> SpecRps {
    let id = b.subrange(1, 4);
    if b[0] == 1 {
        SpecRps::Send(id, decoded_text(b.subrange(4, b.len() as int)))
    } else if b[0] == 2 {
        SpecRps::Accept(id, b[4] == 1)
    } else if b[0] == 3 {
        SpecRps::Rock(id)
    } else if b[0] == 4 {
        SpecRps::Paper(id)
    } else if b[0] == 5 {
        SpecRps::Scissor(id)
    } else if b[0] == 6 {
        SpecRps::Game(id)
    } else if b[0] == 7 {
        SpecRps::Fail(id)
    } else if b[0] == 8 {
        SpecRps::Result(id, seq![b[4], b[5]], decoded_text(b.subrange(6, b.len() as int)))
    } else if b[0] == 9 {
        SpecRps::Data(id, decoded_text(b.subrange(4, b.len() as int)))
    } else {
        SpecRps::Rock(seq![0u8])
    }
}

/// The content that a payload of the given kind stands for.
pub open spec fn data_type_of_bytes(kind: DataTypeKind, b: Seq<u8>) -> SpecDataType {
    match kind {
        DataTypeKind::Token => SpecDataType::Token(decoded_text(b)),
        DataTypeKind::Name => SpecDataType::Name(decoded_text(b)),
        DataTypeKind::Remove => SpecDataType::Remove,
        DataTypeKind::Message => SpecDataType::Message(decoded_text(b)),
        DataTypeKind::Image => SpecDataType::Image,
        DataTypeKind::RPS => SpecDataType::RPS(rps_of_bytes(b)),
        DataTypeKind::Off => SpecDataType::Off(decoded_text(b)),
        DataTypeKind::IsOff => SpecDataType::IsOff(decoded_text(b)),
        DataTypeKind::OffData => SpecDataType::OffData(decoded_text(b)),
    }
}

/// The UTF-8 bytes of a shared text.
pub fn text_bytes(s: &CopyStr) -> (b: &[u8])
    ensures
        b@ == encode_utf8(s@),
{
    let st: &String = &**s;
    st.as_str().as_bytes()
}

/// A copy of a shared text, as an owned string.
pub fn owned_text(s: &CopyStr) -> (r: String)
    ensures
        r@ == s@,
{
    let st: &String = &**s;
    st.clone()
}

/// A new shared text holding `s`.
pub fn share(s: String) -> (r: CopyStr)
    ensures
        r@ == s@,
{
    Arc::new(s)
}

impl RPSType {
    /// The bytes of this game message.
    pub fn to_bytes(&self) -> (b: Vec<u8>)
        ensures
            b@ == rps_bytes(self@),
    {
        let mut out: Vec<u8> = Vec::new();
        match self {
            RPSType::Send(id, token) => {
                out.push(1u8);
                append_bytes(&mut out, id.as_slice());
                append_bytes(&mut out, text_bytes(token));
            },
            RPSType::Accept(id, is_accept) => {
                out.push(2u8);
                append_bytes(&mut out, id.as_slice());
                out.push(if *is_accept { 1u8 } else { 0u8 });
            },
            RPSType::Rock(id) => {
                out.push(3u8);
                append_bytes(&mut out, id.as_slice());
            },
            RPSType::Paper(id) => {
                out.push(4u8);
                append_bytes(&mut out, id.as_slice());
            },
            RPSType::Scissor(id) => {
                out.push(5u8);
                append_bytes(&mut out, id.as_slice());
            },
            RPSType::Game(id) => {
                out.push(6u8);
                append_bytes(&mut out, id.as_slice());
            },
            RPSType::Fail(id) => {
                out.push(7u8);
                append_bytes(&mut out, id.as_slice());
            },
            RPSType::Result(id, choice, win) => {
                out.push(8u8);
                append_bytes(&mut out, id.as_slice());
                append_bytes(&mut out, choice.as_slice());
                append_bytes(&mut out, text_bytes(win));
            },
            RPSType::Data(id, token) => {
                out.push(9u8);
                append_bytes(&mut out, id.as_slice());
                append_bytes(&mut out, text_bytes(token));
            },
        }
        assert(out@ =~= rps_bytes(self@));
        out
    }
}

impl DataType {
    /// The payload bytes of this content.
    pub fn change_bytes(&self) -> (b: Vec<u8>)
        ensures
            b@ == payload_bytes(self@),
    {
        match self {
            DataType::Token(info) => vstd::slice::slice_to_vec(text_bytes(info)),
            DataType::Name(info) => vstd::slice::slice_to_vec(text_bytes(info)),
            DataType::Off(info) => vstd::slice::slice_to_vec(text_bytes(info)),
            DataType::IsOff(info) => vstd::slice::slice_to_vec(text_bytes(info)),
            DataType::OffData(info) => vstd::slice::slice_to_vec(text_bytes(info)),
            DataType::Message(info) => vstd::slice::slice_to_vec(text_bytes(info)),
            DataType::RPS(rps) => rps.to_bytes(),
            _ => {
                let mut v: Vec<u8> = Vec::new();
                v.push(0u8);
                assert(v@ =~= seq![0u8]);
                v
            },
        }
    }

    /// Reads a payload as content of the given kind.
    pub fn from_bytes(kind: DataTypeKind, bytes: &[u8]) -> (d: DataType)
        requires
            payload_decodable(kind, bytes@),
        ensures
            d@ == data_type_of_bytes(kind, bytes@),
    {
        match kind {
            DataTypeKind::Token => DataType::Token(share(text_of(bytes))),
            DataTypeKind::Name => DataType::Name(share(text_of(bytes))),
            DataTypeKind::Remove => DataType::Remove,
            DataTypeKind::Message => DataType::Message(share(text_of(bytes))),
            DataTypeKind::Image => DataType::Image,
            DataTypeKind::RPS => {
                let rps_type = bytes[0];
                let id = copy_range(bytes, 1, 4);
                let n = bytes.len();
                let r = match rps_type {
                    1 => RPSType::Send(id, share(text_of(vstd::slice::slice_subrange(bytes, 4, n)))),
                    2 => RPSType::Accept(id, bytes[4] == 1),
                    3 => RPSType::Rock(id),
                    4 => RPSType::Paper(id),
                    5 => RPSType::Scissor(id),
                    6 => RPSType::Game(id),
                    7 => RPSType::Fail(id),
                    8 => {
                        let choice: [u8; 2] = [bytes[4], bytes[5]];
                        assert(choice@ =~= seq![bytes@[4], bytes@[5]]);
                        RPSType::Result(id, choice, share(text_of(vstd::slice::slice_subrange(bytes, 6, n))))
                    },
                    9 => RPSType::Data(id, share(text_of(vstd::slice::slice_subrange(bytes, 4, n)))),
                    _ => {
                        let mut zero: Vec<u8> = Vec::new();
                        zero.push(0u8);
                        assert(zero@ =~= seq![0u8]);
                        RPSType::Rock(zero)
                    },
                };
                DataType::RPS(r)
            },
            DataTypeKind::Off => DataType::Off(share(text_of(bytes))),
            DataTypeKind::IsOff => DataType::IsOff(share(text_of(bytes))),
            DataTypeKind::OffData => DataType::OffData(share(text_of(bytes))),
        }
    }
}

/// Whether a content is of the variant that a kind byte announces.
pub open spec fn kind_matches(k: DataTypeKind, d: SpecDataType) -> bool {
    match d {
        SpecDataType::Token(_) => k == DataTypeKind::Token,
        SpecDataType::Name(_) => k == DataTypeKind::Name,
        SpecDataType::Remove => k == DataTypeKind::Remove,
        SpecDataType::Message(_) => k == DataTypeKind::Message,
        SpecDataType::Image => k == DataTypeKind::Image,
        SpecDataType::RPS(_) => k == DataTypeKind::RPS,
        SpecDataType::Off(_) => k == DataTypeKind::Off,
        SpecDataType::IsOff(_) => k == DataTypeKind::IsOff,
        SpecDataType::OffData(_) => k == DataTypeKind::OffData,
    }
}

/// A game message that survives the trip over the wire: a three-byte id, two
/// choice bytes, and texts without surrounding white space.
pub open spec fn rps_wire_safe(r: SpecRps) -> bool {
    match r {
        SpecRps::Send(id, t) => id.len() == 3 && is_trimmed(t),
        SpecRps::Accept(id, _) => id.len() == 3,
        SpecRps::Rock(id) => id.len() == 3,
        SpecRps::Paper(id) => id.len() == 3,
        SpecRps::Scissor(id) => id.len() == 3,
        SpecRps::Game(id) => id.len() == 3,
        SpecRps::Fail(id) => id.len() == 3,
        SpecRps::Result(id, c, w) => id.len() == 3 && c.len() == 2 && is_trimmed(w),
        SpecRps::Data(id, t) => id.len() == 3 && is_trimmed(t),
    }
}

/// A content that survives the trip over the wire.
pub open spec fn content_wire_safe(d: SpecDataType) -> bool {
    match d {
        SpecDataType::Token(s) => is_trimmed(s),
        SpecDataType::Name(s) => is_trimmed(s),
        SpecDataType::Message(s) => is_trimmed(s),
        SpecDataType::Off(s) => is_trimmed(s),
        SpecDataType::IsOff(s) => is_trimmed(s),
        SpecDataType::OffData(s) => is_trimmed(s),
        SpecDataType::RPS(r) => rps_wire_safe(r),
        SpecDataType::Remove => true,
        SpecDataType::Image => true,
    }
}

/// Reading the payload of a content, under the kind of that content, gives the
/// content back, for every content that survives the wire.
pub proof fn lemma_payload_roundtrip(k: DataTypeKind, d: SpecDataType)
    requires
        kind_matches(k, d),
        content_wire_safe(d),
    ensures
        payload_decodable(k, payload_bytes(d)),
        data_type_of_bytes(k, payload_bytes(d)) == d,
{
    let b = payload_bytes(d);
    match d {
        SpecDataType::Token(s) => lemma_decoded_text_encode(s),
        SpecDataType::Name(s) => lemma_decoded_text_encode(s),
        SpecDataType::Message(s) => lemma_decoded_text_encode(s),
        SpecDataType::Off(s) => lemma_decoded_text_encode(s),
        SpecDataType::IsOff(s) => lemma_decoded_text_encode(s),
        SpecDataType::OffData(s) => lemma_decoded_text_encode(s),
        SpecDataType::RPS(r) => {
            match r {
                SpecRps::Send(id, t) => {
                    lemma_decoded_text_encode(t);
                    assert(b.subrange(1, 4) =~= id);
                    assert(b.subrange(4, b.len() as int) =~= encode_utf8(t));
                },
                SpecRps::Accept(id, a) => {
                    assert(b.subrange(1, 4) =~= id);
                },
                SpecRps::Rock(id) => {
                    assert(b.subrange(1, 4) =~= id);
                },
                SpecRps::Paper(id) => {
                    assert(b.subrange(1, 4) =~= id);
                },
                SpecRps::Scissor(id) => {
                    assert(b.subrange(1, 4) =~= id);
                },
                SpecRps::Game(id) => {
                    assert(b.subrange(1, 4) =~= id);
                },
                SpecRps::Fail(id) => {
                    assert(b.subrange(1, 4) =~= id);
                },
                SpecRps::Result(id, c, w) => {
                    lemma_decoded_text_encode(w);
                    assert(b.subrange(1, 4) =~= id);
                    assert(seq![b[4], b[5]] =~= c);
                    assert(b.subrange(6, b.len() as int) =~= encode_utf8(w));
                },
                SpecRps::Data(id, t) => {
                    lemma_decoded_text_encode(t);
                    assert(b.subrange(1, 4) =~= id);
                    assert(b.subrange(4, b.len() as int) =~= encode_utf8(t));
                },
            }
        },
        SpecDataType::Remove => {},
        SpecDataType::Image => {},
    }
}

/// The text a frame carries in place of an absent token.
pub open spec fn none_text() -> Seq<char> {
    seq!['N', 'o', 'n', 'e']
}

/// The text written for an optional token.
pub open spec fn token_text(t: Option<Seq<char>>) -> Seq<char> {
    match t {
        Some(s) => s,
        None => none_text(),
    }
}

/// The optional token that a read token text stands for.
pub open spec fn token_of_text(t: Seq<char>) -> Option<Seq<char>> {
    if t == none_text() {
        None
    } else {
        Some(t)
    }
}

/// The bytes of a frame: the kind byte, the token's length (four bytes,
/// big-endian, modulo 2^32) and UTF-8 bytes, then the payload's length and bytes.
pub open spec fn frame_bytes(d: SpecData) -> Seq<u8> {
    let tok = encode_utf8(token_text(d.token));
    let pay = payload_bytes(d.inform);
    seq![kind_code(d.type_kind)] + be32(wire_len(tok.len())) + tok + be32(wire_len(pay.len()))
        + pay
}

/// Why a frame could not be read.
#[derive(PartialEq, Eq, Structural, Debug, Clone, Copy)]
pub enum FrameError {
    /// The first byte names no kind.
    UnknownKind,
    /// The bytes end before the frame does.
    Truncated,
    /// A game payload too short for its tag.
    Malformed,
}

/// What the start of `buf` reads as: the length of the frame and its value, or
/// why it cannot be read.
pub open spec fn parse_frame(buf: Seq<u8>) -> Result<(nat, SpecData), FrameError> {
    if buf.len() < 1 {
        Err(FrameError::Truncated)
    } else if kind_of_code(buf[0]) is None {
        Err(FrameError::UnknownKind)
    } else if buf.len() < 5 {
        Err(FrameError::Truncated)
    } else {
        let k = kind_of_code(buf[0])->0;
        let p = 5 + be32_value(buf.subrange(1, 5));
        if buf.len() < p + 4 {
            Err(FrameError::Truncated)
        } else {
            let end = p + 4 + be32_value(buf.subrange(p as int, p + 4 as int));
            if buf.len() < end {
                Err(FrameError::Truncated)
            } else {
                let payload = buf.subrange(p + 4 as int, end as int);
                if !payload_decodable(k, payload) {
                    Err(FrameError::Malformed)
                } else {
                    Ok(
                        (
                            end,
                            SpecData {
                                token: token_of_text(decoded_text(buf.subrange(5, p as int))),
                                type_kind: k,
                                inform: data_type_of_bytes(k, payload),
                            },
                        ),
                    )
                }
            }
        }
    }
}

/// A frame that reads back as it was written: the kind agrees with the content,
/// the texts have no surrounding white space, a token is not the text "None",
/// ids have three bytes and both lengths fit in the four-byte header.
pub open spec fn frame_safe(d: SpecData) -> bool {
    &&& kind_matches(d.type_kind, d.inform)
    &&& content_wire_safe(d.inform)
    &&& match d.token {
        Some(t) => is_trimmed(t) && t != none_text(),
        None => true,
    }
    &&& encode_utf8(token_text(d.token)).len() < 0x1_0000_0000
    &&& payload_bytes(d.inform).len() < 0x1_0000_0000
}

/// The reading of a buffer laid out as a frame: kind byte, token length and
/// bytes, payload length and bytes, then anything.
proof fn lemma_parse_frame_layout(c: u8, tok: Seq<u8>, pay: Seq<u8>, rest: Seq<u8>)
    requires
        kind_of_code(c) is Some,
        tok.len() < 0x1_0000_0000,
        pay.len() < 0x1_0000_0000,
        payload_decodable(kind_of_code(c)->0, pay),
    ensures
        parse_frame(
            seq![c] + be32(tok.len() as u32) + tok + be32(pay.len() as u32) + pay + rest,
        ) == Ok::<(nat, SpecData), FrameError>(
            (
                5 + tok.len() + 4 + pay.len(),
                SpecData {
                    token: token_of_text(decoded_text(tok)),
                    type_kind: kind_of_code(c)->0,
                    inform: data_type_of_bytes(kind_of_code(c)->0, pay),
                },
            ),
        ),
{
    let buf = seq![c] + be32(tok.len() as u32) + tok + be32(pay.len() as u32) + pay + rest;
    lemma_be32_roundtrip(tok.len() as u32);
    lemma_be32_roundtrip(pay.len() as u32);
    let p = 5 + tok.len();
    assert(buf.subrange(1, 5) =~= be32(tok.len() as u32));
    assert(buf.subrange(5, p as int) =~= tok);
    assert(buf.subrange(p as int, p + 4 as int) =~= be32(pay.len() as u32));
    assert(buf.subrange(p + 4 as int, p + 4 + pay.len() as int) =~= pay);
}

/// A frame read from the start of a stream gives back the data that was
/// written, whatever follows it on the stream.
pub proof fn lemma_frame_roundtrip(d: SpecData, rest: Seq<u8>)
    requires
        frame_safe(d),
    ensures
        parse_frame(frame_bytes(d) + rest) == Ok::<(nat, SpecData), FrameError>(
            (frame_bytes(d).len(), d),
        ),
{
    let tok = encode_utf8(token_text(d.token));
    let pay = payload_bytes(d.inform);
    lemma_kind_code_roundtrip(d.type_kind, 0);
    lemma_payload_roundtrip(d.type_kind, d.inform);
    lemma_decoded_text_encode(token_text(d.token));
    assert(wire_len(tok.len()) == tok.len() as u32);
    assert(wire_len(pay.len()) == pay.len() as u32);
    lemma_parse_frame_layout(kind_code(d.type_kind), tok, pay, rest);
}

/// Writing a frame, and reading one back.
impl Data {
    /// The bytes of this frame, as they go over the wire.
    pub fn frame(&self) -> (buf: Vec<u8>)
        ensures
            buf@ == frame_bytes(self@),
    {
        let send_data = self.inform.change_bytes();
        let none_token = "None";
        proof {
            reveal_strlit("None");
        }
        let token: &[u8] = match &self.token {
            Some(t) => text_bytes(t),
            None => none_token.as_bytes(),
        };
        assert(none_token@ =~= none_text());
        assert(token@ == encode_utf8(token_text(self@.token)));
        let token_len: u32 = ((token.len() as u64) % 0x1_0000_0000u64) as u32;
        let data_len: u32 = ((send_data.len() as u64) % 0x1_0000_0000u64) as u32;
        let mut buffer: Vec<u8> = Vec::new();
        buffer.push(self.type_kind.code());
        push_be32(&mut buffer, token_len);
        append_bytes(&mut buffer, token);
        push_be32(&mut buffer, data_len);
        append_bytes(&mut buffer, send_data.as_slice());
        assert(buffer@ =~= frame_bytes(self@));
        buffer
    }

    /// Reads one frame from the start of `buf`: its length and its value.
    pub fn decode_frame(buf: &[u8]) -> (r: Result<(usize, Data), FrameError>)
        ensures
            match r {
                Ok((n, d)) => parse_frame(buf@) == Ok::<(nat, SpecData), FrameError>(
                    (n as nat, d@),
                ),
                Err(e) => parse_frame(buf@) == Err::<(nat, SpecData), FrameError>(e),
            },
    {
        if buf.len() < 1 {
            return Err(FrameError::Truncated);
        }
        let kind = match DataTypeKind::from_u8(buf[0]) {
            Some(k) => k,
            None => {
                return Err(FrameError::UnknownKind);
            },
        };
        if buf.len() < 5 {
            return Err(FrameError::Truncated);
        }
        let token_len = read_be32(buf, 1);
        let total = buf.len() as u64;
        if total < 5 + token_len as u64 + 4 {
            return Err(FrameError::Truncated);
        }
        let p: usize = 5 + token_len as usize;
        let data_len = read_be32(buf, p);
        if total < p as u64 + 4 + data_len as u64 {
            return Err(FrameError::Truncated);
        }
        let end: usize = p + 4 + data_len as usize;
        let payload = vstd::slice::slice_subrange(buf, p + 4, end);
        if !DataType::decodable(kind, payload) {
            return Err(FrameError::Malformed);
        }
        let token_string = text_of(vstd::slice::slice_subrange(buf, 5, p));
        let none_string = "None".to_owned();
        proof {
            reveal_strlit("None");
        }
        assert(none_string@ =~= none_text());
        let token = if token_string == none_string {
            None
        } else {
            Some(share(token_string))
        };
        let inform = DataType::from_bytes(kind, payload);
        let d = Data { token, type_kind: kind, inform };
        assert(d@.token == token_of_text(decoded_text(buf@.subrange(5, p as int))));
        Ok((end, d))
    }
}

impl DataType {
    /// Whether `from_bytes` can read the payload under the kind.
    pub fn decodable(kind: DataTypeKind, bytes: &[u8]) -> (b: bool)
        ensures
            b == payload_decodable(kind, bytes@),
    {
        match kind {
            DataTypeKind::RPS => {
                bytes.len() >= 4 && (bytes[0] != 2 || bytes.len() >= 5) && (bytes[0] != 8
                    || bytes.len() >= 6)
            },
            _ => true,
        }
    }
}

} // verus!
