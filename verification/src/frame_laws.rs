//! Where every field of a frame and of an element stands on the wire, octet by
//! octet, and the numbers that the protocol gives to types, subclasses and
//! elements.

use vstd::prelude::*;
use vstd::utf8::*;

use crate::consts::{authmethod, control, frametype, iax, ie as iet, IAX_PROTO_VERSION};
use crate::frame::{carries_media, full_frame, FrameModel, MiniModel};
use crate::ie::{
    all_fit, be16, be32, first_of, law_decode_encode, law_encode_decode, parse_ies, wire_ies,
    IeModel,
};

verus! {

// --- numbers ------------------------------------------------------------------

/// The frame types, and which of them carry raw payload: all but `CONTROL`,
/// `NULL`, `IAX` and those that have no name.
pub proof fn law_frame_types(ft: u8)
    ensures
        frametype::DTMF == 1 && frametype::VOICE == 2 && frametype::VIDEO == 3,
        frametype::CONTROL == 4 && frametype::NULL == 5 && frametype::IAX == 6,
        frametype::TEXT == 7 && frametype::IMAGE == 8 && frametype::HTML == 9,
        frametype::CNG == 10,
        carries_media(ft) <==> 1 <= ft <= 3 || 7 <= ft <= 10,
{
}

/// The subclasses of `IAX` and `CONTROL` frames, as the standard numbers them.
pub proof fn law_subclasses()
    ensures
        iax::NEW == 1 && iax::PING == 2 && iax::PONG == 3 && iax::ACK == 4,
        iax::HANGUP == 5 && iax::REJECT == 6 && iax::ACCEPT == 7,
        iax::AUTHREQ == 8 && iax::AUTHREP == 9 && iax::INVAL == 10,
        iax::LAGRQ == 11 && iax::LAGRP == 12,
        iax::REGREQ == 13 && iax::REGAUTH == 14 && iax::REGACK == 15 && iax::REGREJ == 16,
        iax::REGREL == 17 && iax::VNAK == 18 && iax::POKE == 30 && iax::CALLTOKEN == 40,
        control::HANGUP == 1 && control::RING == 2 && control::RINGING == 3,
        control::ANSWER == 4 && control::BUSY == 5 && control::CONGESTION == 8,
        control::PROGRESS == 14 && control::PROCEEDING == 15,
        control::HOLD == 16 && control::UNHOLD == 17,
{
}

/// The elements, the authentication methods and the audio formats, as the
/// standard numbers them.
pub proof fn law_element_kinds()
    ensures
        iet::CALLED_NUMBER == 1 && iet::CALLING_NUMBER == 2 && iet::CALLING_NAME == 4,
        iet::CALLED_CONTEXT == 5 && iet::USERNAME == 6 && iet::PASSWORD == 7,
        iet::CAPABILITY == 8 && iet::FORMAT == 9 && iet::VERSION == 11,
        iet::AUTHMETHODS == 14 && iet::CHALLENGE == 15 && iet::MD5_RESULT == 16,
        iet::RSA_RESULT == 17 && iet::APPARENT_ADDR == 18 && iet::REFRESH == 19,
        iet::CAUSE == 22 && iet::DATETIME == 31 && iet::CAUSECODE == 42,
        iet::CALLTOKEN == 54,
        authmethod::PLAINTEXT == 1 && authmethod::MD5 == 2 && authmethod::RSA == 4,
        crate::consts::format::G723_1 == 1 && crate::consts::format::GSM == 2,
        crate::consts::format::ULAW == 4 && crate::consts::format::ALAW == 8,
        crate::consts::format::SLINEAR == 64 && crate::consts::format::G729 == 256,
        crate::consts::format::SPEEX == 512,
        IAX_PROTO_VERSION == 2,
{
}

// --- elements -----------------------------------------------------------------

/// On the wire an element is its kind, the length of its data and the data, and
/// elements follow each other in their order.
pub proof fn law_elements_on_the_wire(a: Seq<IeModel>, e: IeModel)
    requires
        e.data.len() <= 255,
    ensures
        wire_ies(Seq::<IeModel>::empty()).len() == 0,
        wire_ies(a.push(e)) == wire_ies(a).push(e.kind).push(e.data.len() as u8) + e.data,
{
    assert(a.push(e).drop_last() =~= a);
    assert(wire_ies(a.push(e)) =~= wire_ies(a).push(e.kind).push(e.data.len() as u8) + e.data);
}

/// A run of octets holds elements exactly if it is what some elements of at
/// most 255 octets of data look like on the wire, and then it holds those.
pub proof fn law_elements_are_read(buf: Seq<u8>, ies: Seq<IeModel>)
    ensures
        parse_ies(buf) == Some(ies) <==> all_fit(ies) && wire_ies(ies) == buf,
{
    if parse_ies(buf) == Some(ies) {
        law_encode_decode(buf);
    }
    if all_fit(ies) && wire_ies(ies) == buf {
        law_decode_encode(ies);
    }
}

/// The data of a number is its octets, the high one first, and only data of
/// that length is a number; the data of a text is its UTF-8.
pub proof fn law_element_values(kind: u8, a: u16, b: u32, s: Seq<char>, e: IeModel)
    ensures
        IeModel::of_u16(kind, a) == (IeModel {
            kind,
            data: seq![(a / 256) as u8, (a % 256) as u8],
        }),
        IeModel::of_u32(kind, b).kind == kind,
        IeModel::of_u32(kind, b).data.len() == 4,
        ({
            let d = IeModel::of_u32(kind, b).data;
            b == d[0] * 0x100_0000 + d[1] * 0x1_0000 + d[2] * 0x100 + d[3]
        }),
        IeModel::of_str(kind, s) == (IeModel { kind, data: encode_utf8(s) }),
        IeModel::of_nothing(kind).kind == kind && IeModel::of_nothing(kind).data.len() == 0,
        e.to_u16() is Some <==> e.data.len() == 2,
        e.to_u16() is Some ==> e.to_u16()->0 == e.data[0] * 0x100 + e.data[1],
        e.to_u32() is Some <==> e.data.len() == 4,
        e.to_u32() is Some ==> e.to_u32()->0 == e.data[0] * 0x100_0000 + e.data[1] * 0x1_0000
            + e.data[2] * 0x100 + e.data[3],
        valid_utf8(e.data) ==> e.to_str() == decode_utf8(e.data),
        !valid_utf8(e.data) ==> e.to_str() == crate::text::utf8_lossy(e.data),
{
    assert(IeModel::of_u16(kind, a).data =~= seq![(a / 256) as u8, (a % 256) as u8]);
}

/// `e` is in the list, and no element of its kind stands before it.
pub open spec fn leads(ies: Seq<IeModel>, e: IeModel) -> bool {
    exists|i: int|
        0 <= i < ies.len() && #[trigger] ies[i] == e && forall|j: int|
            0 <= j < i ==> (#[trigger] ies[j]).kind != e.kind
}

/// No element of the list is of this kind.
pub open spec fn lacks(ies: Seq<IeModel>, kind: u8) -> bool {
    forall|i: int| 0 <= i < ies.len() ==> (#[trigger] ies[i]).kind != kind
}

/// A search gives the element that stands before all others of its kind, and
/// nothing exactly if there is none of the kind.
pub proof fn law_search_finds_the_first(ies: Seq<IeModel>, kind: u8)
    ensures
        first_of(ies, kind) is None <==> lacks(ies, kind),
        first_of(ies, kind) is Some ==> first_of(ies, kind)->0.kind == kind && leads(
            ies,
            first_of(ies, kind)->0,
        ),
    decreases ies.len(),
{
    if ies.len() > 0 {
        let rest = ies.drop_first();
        if ies[0].kind == kind {
            assert(first_of(ies, kind)->0 == ies[0]);
            assert(leads(ies, ies[0]));
        } else {
            law_search_finds_the_first(rest, kind);
            if first_of(rest, kind) is Some {
                let e = first_of(rest, kind)->0;
                let i = choose|i: int|
                    0 <= i < rest.len() && #[trigger] rest[i] == e && forall|j: int|
                        0 <= j < i ==> (#[trigger] rest[j]).kind != e.kind;
                assert(ies[i + 1] == e);
                assert forall|j: int| 0 <= j < i + 1 implies (#[trigger] ies[j]).kind != e.kind by {
                    if j > 0 {
                        assert(rest[j - 1] == ies[j]);
                    }
                }
            } else {
                assert forall|i: int| 0 <= i < ies.len() implies (#[trigger] ies[i]).kind != kind by {
                    if i > 0 {
                        assert(rest[i - 1] == ies[i]);
                    }
                }
            }
        }
    }
}

/// Of two elements of a kind the search gives the one that leads.
pub proof fn lemma_leader_is_found(ies: Seq<IeModel>, e: IeModel)
    requires
        leads(ies, e),
    ensures
        first_of(ies, e.kind) == Some(e),
{
    law_search_finds_the_first(ies, e.kind);
    let i = choose|i: int|
        0 <= i < ies.len() && #[trigger] ies[i] == e && forall|j: int|
            0 <= j < i ==> (#[trigger] ies[j]).kind != e.kind;
    let found = first_of(ies, e.kind)->0;
    let k = choose|k: int|
        0 <= k < ies.len() && #[trigger] ies[k] == found && forall|j: int|
            0 <= j < k ==> (#[trigger] ies[j]).kind != found.kind;
    assert(ies[i].kind == e.kind && ies[k].kind == e.kind);
    assert(i == k);
}

// --- frames -------------------------------------------------------------------

proof fn lemma_call_octets(n: u16, top: int)
    requires
        top == 0 || top == 0x80,
    ensures
        ({
            let v = n % 0x8000 + top * 0x100;
            &&& v / 256 == top + n / 0x100 % 0x80
            &&& v % 256 == n % 0x100
        }),
{
    let hi = n as int / 0x100;
    let lo = n as int % 0x100;
    assert(n == hi * 0x100 + lo);
    assert(n % 0x8000 == hi % 0x80 * 0x100 + lo);
}

proof fn lemma_timestamp_octets(t: u32)
    ensures
        t / 0x100_0000 * 0x100_0000 + t / 0x1_0000 % 256 * 0x1_0000 + t / 256 % 256 * 0x100 + t
            % 256 == t,
{
    let a = t as int / 0x1_0000;
    let b = t as int % 0x1_0000;
    assert(t == a * 0x1_0000 + b);
    assert(t / 256 % 256 == b / 256);
    assert(t / 0x100_0000 == a / 256);
}

proof fn lemma_header_octets(f: FrameModel)
    ensures
        ({
            let h = f.header();
            &&& h.len() == 12
            &&& h[0] == 0x80 + f.src_call / 0x100 % 0x80
            &&& h[1] == f.src_call % 0x100
            &&& h[2] == f.dst_call / 0x100 % 0x80 + if f.retransmit {
                0x80int
            } else {
                0
            }
            &&& h[3] == f.dst_call % 0x100
            &&& h[4] * 0x100_0000 + h[5] * 0x1_0000 + h[6] * 0x100 + h[7] == f.timestamp
            &&& h[8] == f.oseq
            &&& h[9] == f.iseq
            &&& h[10] == f.frametype
            &&& h[11] == f.subclass % 0x80
        }),
{
    let a = (0x8000 + f.src_call % 0x8000) as u16;
    let b = (f.dst_call % 0x8000 + if f.retransmit {
        0x8000int
    } else {
        0
    }) as u16;
    let t = f.timestamp;
    let tail = seq![f.oseq, f.iseq, f.frametype, (f.subclass % 128) as u8];
    let h = f.header();
    assert(h == be16(a) + be16(b) + be32(t) + tail);
    assert(h[0] == be16(a)[0] && h[1] == be16(a)[1] && h[2] == be16(b)[0] && h[3] == be16(b)[1]);
    assert(h[4] == be32(t)[0] && h[5] == be32(t)[1] && h[6] == be32(t)[2] && h[7] == be32(t)[3]);
    assert(h[8] == tail[0] && h[9] == tail[1] && h[10] == tail[2] && h[11] == tail[3]);
    lemma_call_octets(f.src_call, 0x80);
    lemma_call_octets(
        f.dst_call,
        if f.retransmit {
            0x80
        } else {
            0
        },
    );
    lemma_timestamp_octets(t);
}

/// The twelve octets before the body of a full frame: the F bit and the
/// sender's call number, the R bit and the receiver's, the timestamp, the two
/// sequence numbers, the type, and the subclass with the C bit clear.
pub proof fn law_full_frame_octets(f: FrameModel, payload: Seq<u8>)
    ensures
        ({
            let w = f.wire();
            let v = f.wire_media(payload);
            &&& w.len() >= 12
            &&& w.skip(12) == wire_ies(f.ies)
            &&& v.skip(12) == payload
            &&& v.take(12) == w.take(12)
            &&& w[0] == 0x80 + f.src_call / 0x100 % 0x80
            &&& w[1] == f.src_call % 0x100
            &&& w[2] == f.dst_call / 0x100 % 0x80 + if f.retransmit {
                0x80int
            } else {
                0
            }
            &&& w[3] == f.dst_call % 0x100
            &&& w[4] * 0x100_0000 + w[5] * 0x1_0000 + w[6] * 0x100 + w[7] == f.timestamp
            &&& w[8] == f.oseq
            &&& w[9] == f.iseq
            &&& w[10] == f.frametype
            &&& w[11] == f.subclass % 0x80
        }),
{
    let w = f.wire();
    let v = f.wire_media(payload);
    let h = f.header();
    lemma_header_octets(f);
    assert(w.skip(12) =~= wire_ies(f.ies));
    assert(v.skip(12) =~= payload);
    assert(v.take(12) =~= h && w.take(12) =~= h);
    assert(forall|i: int| 0 <= i < 12 ==> w[i] == h[i]);
}

/// A datagram is read as a full frame exactly if it has twelve octets, the F
/// bit, and a body that its type allows; and then every field is read from its
/// place.
pub proof fn law_full_frame_is_read(buf: Seq<u8>)
    ensures
        full_frame(buf) <==> buf.len() >= 2 && buf[0] >= 0x80,
        FrameModel::parse(buf) is Some <==> buf.len() >= 12 && buf[0] >= 0x80 && (carries_media(
            buf[10],
        ) || parse_ies(buf.skip(12)) is Some),
        FrameModel::parse(buf) is Some ==> {
            let f = FrameModel::parse(buf)->0;
            &&& f.src_call == (buf[0] - 0x80) * 0x100 + buf[1]
            &&& f.dst_call == buf[2] % 0x80 * 0x100 + buf[3]
            &&& f.retransmit <==> buf[2] >= 0x80
            &&& f.timestamp == buf[4] * 0x100_0000 + buf[5] * 0x1_0000 + buf[6] * 0x100 + buf[7]
            &&& f.oseq == buf[8]
            &&& f.iseq == buf[9]
            &&& f.frametype == buf[10]
            &&& f.subclass == buf[11] % 0x80
            &&& carries_media(buf[10]) ==> f.ies.len() == 0 && f.media_payload == buf.skip(12)
            &&& !carries_media(buf[10]) ==> f.media_payload.len() == 0 && Some(f.ies)
                == parse_ies(buf.skip(12))
        },
{
    if buf.len() >= 12 {
        assert(buf.skip(2)[0] == buf[2] && buf.skip(2)[1] == buf[3]);
        assert(buf.skip(4)[0] == buf[4] && buf.skip(4)[1] == buf[5] && buf.skip(4)[2] == buf[6]
            && buf.skip(4)[3] == buf[7]);
    }
}

/// A mini frame is the sender's call number without the F bit, the low half of
/// the timestamp, and the audio; a datagram of four octets without the F bit is
/// one, and no other is.
pub proof fn law_mini_frame_octets(m: MiniModel, buf: Seq<u8>)
    ensures
        m.wire().len() == 4 + m.payload.len(),
        m.wire()[0] == m.src_call / 0x100 % 0x80,
        m.wire()[1] == m.src_call % 0x100,
        m.wire()[2] == m.timestamp16 / 0x100,
        m.wire()[3] == m.timestamp16 % 0x100,
        m.wire().skip(4) == m.payload,
        MiniModel::parse(buf) is Some <==> buf.len() >= 4 && buf[0] < 0x80,
        MiniModel::parse(buf) is Some ==> {
            let p = MiniModel::parse(buf)->0;
            &&& p.src_call == buf[0] * 0x100 + buf[1]
            &&& p.timestamp16 == buf[2] * 0x100 + buf[3]
            &&& p.payload == buf.skip(4)
        },
{
    assert(m.wire().skip(4) =~= m.payload);
    if buf.len() >= 4 {
        assert(buf.skip(2)[0] == buf[2] && buf.skip(2)[1] == buf[3]);
    }
}

/// A new frame has the fields that it is given, is no retransmission, and has
/// no raw payload.
pub proof fn law_new_frame(
    src: u16,
    dst: u16,
    ts: u32,
    oseq: u8,
    iseq: u8,
    ft: u8,
    sc: u8,
    ies: Seq<IeModel>,
)
    ensures
        ({
            let f = FrameModel::new(src, dst, ts, oseq, iseq, ft, sc, ies);
            &&& f.src_call == src && f.dst_call == dst && f.timestamp == ts
            &&& f.oseq == oseq && f.iseq == iseq && f.frametype == ft && f.subclass == sc
            &&& f.ies == ies && f.media_payload.len() == 0 && !f.retransmit
        }),
{
}

} // verus!
