//! Full frames and mini frames: encoding and decoding.
//!
//! Full frame (RFC 5456, section 8.1):
//!   `[F|src_call:15][R|dst_call:15][timestamp:32][oseq:8][iseq:8]`
//!   `[frametype:8][C|subclass:7][body...]`
//!
//! The body of a command frame is a list of information elements; that of a
//! media frame (voice, video, ...) is raw payload. Which of the two it is
//! depends on the frame type alone.
//!
//! Mini frame (section 8.2): `[0|src_call:15][timestamp:16][payload...]`

use vstd::prelude::*;

use crate::consts::frametype;
use crate::ie;
use crate::ie::{be16, be32, from_be16, from_be32, ies_view, parse_ies, wire_ies, Ie, IeModel};

verus! {

/// The bit that marks a full frame, and that marks a retransmission.
pub const HIGH_BIT: u16 = 0x8000;

/// What a full frame holds.
#[verifier::ext_equal]
pub ghost struct FrameModel {
    pub src_call: u16,
    pub dst_call: u16,
    pub retransmit: bool,
    pub timestamp: u32,
    pub oseq: u8,
    pub iseq: u8,
    pub frametype: u8,
    pub subclass: u8,
    pub ies: Seq<IeModel>,
    pub media_payload: Seq<u8>,
}

/// What a mini frame holds.
#[verifier::ext_equal]
pub ghost struct MiniModel {
    pub src_call: u16,
    pub timestamp16: u16,
    pub payload: Seq<u8>,
}

/// The frame types whose body is raw payload.
pub open spec fn carries_media(ft: u8) -> bool {
    ft == frametype::DTMF || ft == frametype::VOICE || ft == frametype::VIDEO || ft
        == frametype::TEXT || ft == frametype::IMAGE || ft == frametype::HTML || ft
        == frametype::CNG
}

/// Whether a datagram holds a full frame: the top bit of its first octet.
pub open spec fn full_frame(buf: Seq<u8>) -> bool {
    buf.len() >= 2 && buf[0] >= 128
}

impl FrameModel {
    /// A fresh frame: not a retransmission, no raw payload.
    pub open spec fn new(
        src_call: u16,
        dst_call: u16,
        timestamp: u32,
        oseq: u8,
        iseq: u8,
        frametype: u8,
        subclass: u8,
        ies: Seq<IeModel>,
    ) -> FrameModel {
        FrameModel {
            src_call,
            dst_call,
            retransmit: false,
            timestamp,
            oseq,
            iseq,
            frametype,
            subclass,
            ies,
            media_payload: Seq::empty(),
        }
    }

    /// The twelve octets of the header. Call numbers have 15 bits, the
    /// subclass 7.
    pub open spec fn header(self) -> Seq<u8> {
        be16((HIGH_BIT + self.src_call % HIGH_BIT) as u16) + be16(
            (self.dst_call % HIGH_BIT + if self.retransmit {
                HIGH_BIT as int
            } else {
                0
            }) as u16,
        ) + be32(self.timestamp) + seq![
            self.oseq,
            self.iseq,
            self.frametype,
            (self.subclass % 128) as u8,
        ]
    }

    /// The octets of a command frame.
    pub open spec fn wire(self) -> Seq<u8> {
        self.header() + wire_ies(self.ies)
    }

    /// The octets of a media frame with this payload.
    pub open spec fn wire_media(self, payload: Seq<u8>) -> Seq<u8> {
        self.header() + payload
    }

    /// The frame that a datagram holds, if any.
    pub open spec fn parse(buf: Seq<u8>) -> Option<FrameModel> {
        if buf.len() < 12 || buf[0] < 128 {
            None
        } else {
            let body = buf.skip(12);
            if !carries_media(buf[10]) && parse_ies(body) is None {
                None
            } else {
                Some(
                    FrameModel {
                        src_call: (from_be16(buf) % HIGH_BIT) as u16,
                        dst_call: (from_be16(buf.skip(2)) % HIGH_BIT) as u16,
                        retransmit: buf[2] >= 128,
                        timestamp: from_be32(buf.skip(4)),
                        oseq: buf[8],
                        iseq: buf[9],
                        frametype: buf[10],
                        subclass: (buf[11] % 128) as u8,
                        ies: if carries_media(buf[10]) {
                            Seq::empty()
                        } else {
                            parse_ies(body)->0
                        },
                        media_payload: if carries_media(buf[10]) {
                            body
                        } else {
                            Seq::empty()
                        },
                    },
                )
            }
        }
    }

    /// The frame as its header can hold it: 15-bit call numbers and a 7-bit
    /// subclass.
    pub open spec fn narrowed(self) -> FrameModel {
        FrameModel {
            src_call: (self.src_call % HIGH_BIT) as u16,
            dst_call: (self.dst_call % HIGH_BIT) as u16,
            subclass: (self.subclass % 128) as u8,
            ..self
        }
    }
}

impl MiniModel {
    /// The octets of the frame.
    pub open spec fn wire(self) -> Seq<u8> {
        be16((self.src_call % HIGH_BIT) as u16) + be16(self.timestamp16) + self.payload
    }

    /// The mini frame that a datagram holds, if any.
    pub open spec fn parse(buf: Seq<u8>) -> Option<MiniModel> {
        if buf.len() < 4 || buf[0] >= 128 {
            None
        } else {
            Some(
                MiniModel {
                    src_call: from_be16(buf),
                    timestamp16: from_be16(buf.skip(2)),
                    payload: buf.skip(4),
                },
            )
        }
    }
}

/// Whether a frame type carries raw payload and no elements.
fn is_media(ft: u8) -> (r: bool)
    ensures
        r == carries_media(ft),
{
    ft == frametype::DTMF || ft == frametype::VOICE || ft == frametype::VIDEO || ft
        == frametype::TEXT || ft == frametype::IMAGE || ft == frametype::HTML || ft
        == frametype::CNG
}

/// A full frame.
#[derive(Debug, Clone)]
pub struct FullFrame {
    pub src_call: u16,
    pub dst_call: u16,
    pub retransmit: bool,
    pub timestamp: u32,
    pub oseq: u8,
    pub iseq: u8,
    pub frametype: u8,
    pub subclass: u8,
    /// The elements of a command frame.
    pub ies: Vec<Ie>,
    /// The raw payload of a media frame that was received.
    pub media_payload: Vec<u8>,
}

impl View for FullFrame {
    type V = FrameModel;

    open spec fn view(&self) -> FrameModel {
        FrameModel {
            src_call: self.src_call,
            dst_call: self.dst_call,
            retransmit: self.retransmit,
            timestamp: self.timestamp,
            oseq: self.oseq,
            iseq: self.iseq,
            frametype: self.frametype,
            subclass: self.subclass,
            ies: ies_view(self.ies@),
            media_payload: self.media_payload@,
        }
    }
}

impl FullFrame {
    /// A fresh frame: not a retransmission, no raw payload.
    pub fn new(
        src_call: u16,
        dst_call: u16,
        timestamp: u32,
        oseq: u8,
        iseq: u8,
        frametype: u8,
        subclass: u8,
        ies: Vec<Ie>,
    ) -> (r: Self)
        ensures
            r@ == FrameModel::new(
                src_call,
                dst_call,
                timestamp,
                oseq,
                iseq,
                frametype,
                subclass,
                ies_view(ies@),
            ),
    {
        FullFrame {
            src_call,
            dst_call,
            retransmit: false,
            timestamp,
            oseq,
            iseq,
            frametype,
            subclass,
            ies,
            media_payload: Vec::new(),
        }
    }

    /// Appends the header.
    fn header_into(&self, out: &mut Vec<u8>)
        ensures
            final(out)@ == old(out)@ + self@.header(),
    {
        let src: u16 = HIGH_BIT + self.src_call % HIGH_BIT;
        let mut dst: u16 = self.dst_call % HIGH_BIT;
        if self.retransmit {
            dst = dst + HIGH_BIT;
        }
        ie::push_be16(out, src);
        ie::push_be16(out, dst);
        ie::push_be32(out, self.timestamp);
        out.push(self.oseq);
        out.push(self.iseq);
        out.push(self.frametype);
        // The C bit stays clear: the subclass is the value itself. The audio
        // formats in use (ULAW, ALAW) fit in seven bits.
        out.push(self.subclass % 128);
    }

    /// The octets of a command frame: header and elements.
    pub fn encode(&self) -> (r: Vec<u8>)
        ensures
            r@ == self@.wire(),
    {
        let mut out: Vec<u8> = Vec::with_capacity(44);
        self.header_into(&mut out);
        ie::encode(&self.ies, &mut out);
        out
    }

    /// The octets of a media frame: header and raw payload.
    pub fn encode_media(&self, payload: &[u8]) -> (r: Vec<u8>)
        ensures
            r@ == self@.wire_media(payload@),
    {
        let mut out: Vec<u8> = Vec::new();
        self.header_into(&mut out);
        ie::push_bytes(&mut out, payload);
        out
    }

    /// Decodes a datagram.
    ///
    /// `None` if it is shorter than a header, is a mini frame, or is a command
    /// frame whose elements are cut short.
    pub fn decode(buf: &[u8]) -> (r: Option<FullFrame>)
        ensures
            r is Some == FrameModel::parse(buf@) is Some,
            r is Some ==> r->0@ == FrameModel::parse(buf@)->0,
    {
        if buf.len() < 12 {
            return None;
        }
        let w0: u16 = buf[0] as u16 * 256 + buf[1] as u16;
        let w1: u16 = buf[2] as u16 * 256 + buf[3] as u16;
        if buf[0] < 128 {
            return None;
        }
        let frametype = buf[10];
        let body = vstd::slice::slice_subrange(buf, 12, buf.len());
        assert(body@ =~= buf@.skip(12));
        let (ies, media_payload) = if is_media(frametype) {
            (Vec::new(), vstd::slice::slice_to_vec(body))
        } else {
            match ie::decode(body) {
                Some(ies) => (ies, Vec::new()),
                None => {
                    return None;
                },
            }
        };
        let f = FullFrame {
            src_call: w0 % HIGH_BIT,
            dst_call: w1 % HIGH_BIT,
            retransmit: w1 >= HIGH_BIT,
            timestamp: buf[4] as u32 * 0x100_0000 + buf[5] as u32 * 0x1_0000 + buf[6] as u32 * 256
                + buf[7] as u32,
            oseq: buf[8],
            iseq: buf[9],
            frametype,
            subclass: buf[11] % 128,
            ies,
            media_payload,
        };
        assert(f@ =~= FrameModel::parse(buf@)->0);
        Some(f)
    }
}

/// A mini frame: audio of a call whose format a full frame has declared.
#[derive(Debug, Clone)]
pub struct MiniFrame {
    pub src_call: u16,
    pub timestamp16: u16,
    pub payload: Vec<u8>,
}

impl View for MiniFrame {
    type V = MiniModel;

    open spec fn view(&self) -> MiniModel {
        MiniModel {
            src_call: self.src_call,
            timestamp16: self.timestamp16,
            payload: self.payload@,
        }
    }
}

impl MiniFrame {
    /// The octets of the frame.
    pub fn encode(&self) -> (r: Vec<u8>)
        ensures
            r@ == self@.wire(),
    {
        let mut out: Vec<u8> = Vec::new();
        ie::push_be16(&mut out, self.src_call % HIGH_BIT);
        ie::push_be16(&mut out, self.timestamp16);
        ie::push_bytes(&mut out, &self.payload);
        out
    }

    /// Decodes a datagram.
    ///
    /// `None` if it is shorter than four octets or is a full frame.
    pub fn decode(buf: &[u8]) -> (r: Option<MiniFrame>)
        ensures
            r is Some == MiniModel::parse(buf@) is Some,
            r is Some ==> r->0@ == MiniModel::parse(buf@)->0,
    {
        if buf.len() < 4 || buf[0] >= 128 {
            return None;
        }
        let payload = vstd::slice::slice_to_vec(vstd::slice::slice_subrange(buf, 4, buf.len()));
        assert(payload@ =~= buf@.skip(4));
        Some(
            MiniFrame {
                src_call: buf[0] as u16 * 256 + buf[1] as u16,
                timestamp16: buf[2] as u16 * 256 + buf[3] as u16,
                payload,
            },
        )
    }
}

/// Whether a datagram holds a full frame: the top bit of its first octet.
pub fn is_full_frame(buf: &[u8]) -> (r: bool)
    ensures
        r == full_frame(buf@),
{
    buf.len() >= 2 && buf[0] >= 128
}

proof fn lemma_parse_header(f: FrameModel, body: Seq<u8>)
    ensures
        ({
            let buf = f.header() + body;
            &&& buf.len() == 12 + body.len()
            &&& full_frame(buf)
            &&& buf.skip(12) =~= body
            &&& from_be16(buf) == HIGH_BIT + f.src_call % HIGH_BIT
            &&& from_be16(buf.skip(2)) % HIGH_BIT == f.dst_call % HIGH_BIT
            &&& (buf[2] >= 128) == f.retransmit
            &&& from_be32(buf.skip(4)) == f.timestamp
            &&& buf[8] == f.oseq
            &&& buf[9] == f.iseq
            &&& buf[10] == f.frametype
            &&& buf[11] == f.subclass % 128
        }),
{
    let buf = f.header() + body;
    let d = (f.dst_call % HIGH_BIT + if f.retransmit {
        HIGH_BIT as int
    } else {
        0
    }) as u16;
    assert(buf[2] == d / 256 && buf[3] == d % 256);
    assert(buf.skip(2)[0] == buf[2] && buf.skip(2)[1] == buf[3]);
    let t = buf.skip(4);
    assert(t[0] == buf[4] && t[1] == buf[5] && t[2] == buf[6] && t[3] == buf[7]);
}

/// A command frame decodes to what was encoded (its call numbers cut to 15
/// bits, its subclass to 7), whenever each of its elements has at most 255
/// octets of data.
pub proof fn law_command_roundtrip(f: FrameModel)
    requires
        !carries_media(f.frametype),
        f.media_payload.len() == 0,
        ie::all_fit(f.ies),
    ensures
        FrameModel::parse(f.wire()) == Some(f.narrowed()),
{
    lemma_parse_header(f, wire_ies(f.ies));
    ie::law_decode_encode(f.ies);
    assert(FrameModel::parse(f.wire())->0 =~= f.narrowed());
}

/// A media frame decodes to its header and its payload, unread.
pub proof fn law_media_roundtrip(f: FrameModel, payload: Seq<u8>)
    requires
        carries_media(f.frametype),
    ensures
        FrameModel::parse(f.wire_media(payload)) == Some(
            (FrameModel { ies: Seq::empty(), media_payload: payload, ..f.narrowed() }),
        ),
{
    lemma_parse_header(f, payload);
    assert(FrameModel::parse(f.wire_media(payload))->0 =~= (FrameModel {
        ies: Seq::empty(),
        media_payload: payload,
        ..f.narrowed()
    }));
}

proof fn lemma_be16_of_from(b: Seq<u8>)
    requires
        b.len() >= 2,
    ensures
        be16(from_be16(b)) == seq![b[0], b[1]],
{
    assert(be16(from_be16(b)) =~= seq![b[0], b[1]]);
}

proof fn lemma_be32_of_from(b: Seq<u8>)
    requires
        b.len() >= 4,
    ensures
        be32(from_be32(b)) == seq![b[0], b[1], b[2], b[3]],
{
    let v = from_be32(b);
    assert(v / 0x100_0000 == b[0]);
    assert(v / 0x1_0000 == b[0] * 256 + b[1]);
    assert(v / 256 == b[0] * 0x1_0000 + b[1] * 256 + b[2]);
    assert(be32(v) =~= seq![b[0], b[1], b[2], b[3]]);
}

/// Encoding a decoded command frame gives back the datagram, but for the C
/// bit, which is cleared.
pub proof fn law_command_reencode(buf: Seq<u8>)
    requires
        FrameModel::parse(buf) is Some,
        !carries_media(buf[10]),
    ensures
        FrameModel::parse(buf)->0.wire() == buf.update(11, (buf[11] % 128) as u8),
{
    let f = FrameModel::parse(buf)->0;
    let body = buf.skip(12);
    ie::law_encode_decode(body);
    let dst = buf.skip(2);
    let t = buf.skip(4);
    assert(dst[0] == buf[2] && dst[1] == buf[3]);
    assert(t[0] == buf[4] && t[1] == buf[5] && t[2] == buf[6] && t[3] == buf[7]);
    lemma_be16_of_from(buf);
    lemma_be16_of_from(dst);
    lemma_be32_of_from(t);
    assert(HIGH_BIT + f.src_call % HIGH_BIT == from_be16(buf));
    assert(f.dst_call % HIGH_BIT + (if f.retransmit {
        HIGH_BIT as int
    } else {
        0
    }) == from_be16(dst));
    let head = f.header();
    assert(head =~= seq![
        buf[0],
        buf[1],
        buf[2],
        buf[3],
        buf[4],
        buf[5],
        buf[6],
        buf[7],
        buf[8],
        buf[9],
        buf[10],
        (buf[11] % 128) as u8,
    ]);
    assert(head + body =~= buf.update(11, (buf[11] % 128) as u8));
}

/// A mini frame decodes to what was encoded, its call number cut to 15 bits.
pub proof fn law_mini_roundtrip(m: MiniModel)
    ensures
        MiniModel::parse(m.wire()) == Some(
            (MiniModel { src_call: (m.src_call % HIGH_BIT) as u16, ..m }),
        ),
{
    let buf = m.wire();
    assert(buf.skip(2)[0] == buf[2] && buf.skip(2)[1] == buf[3]);
    assert(buf.skip(4) =~= m.payload);
    assert(MiniModel::parse(buf)->0 =~= (MiniModel {
        src_call: (m.src_call % HIGH_BIT) as u16,
        ..m
    }));
}

/// No datagram is both: what one kind of frame encodes to, the other kind
/// does not decode.
pub proof fn law_kinds_apart(f: FrameModel, payload: Seq<u8>, m: MiniModel)
    ensures
        full_frame(f.wire()),
        full_frame(f.wire_media(payload)),
        !full_frame(m.wire()),
        MiniModel::parse(f.wire()) is None,
        MiniModel::parse(f.wire_media(payload)) is None,
        FrameModel::parse(m.wire()) is None,
{
    lemma_parse_header(f, wire_ies(f.ies));
    lemma_parse_header(f, payload);
}

} // verus!
