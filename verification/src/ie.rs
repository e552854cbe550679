//! Information elements: encoding and decoding.
//!
//! On the wire an element is `[kind:1][len:1][data:len]`.

use vstd::prelude::*;
use vstd::utf8::*;

use crate::text;

verus! {

/// What an information element holds.
#[verifier::ext_equal]
pub ghost struct IeModel {
    pub kind: u8,
    pub data: Seq<u8>,
}

/// A decoded information element: its type and its raw data.
#[derive(Debug, Clone, PartialEq, Eq)]
pub struct Ie {
    pub kind: u8,
    pub data: Vec<u8>,
}

impl View for Ie {
    type V = IeModel;

    open spec fn view(&self) -> IeModel {
        IeModel { kind: self.kind, data: self.data@ }
    }
}

/// What a list of elements holds.
pub open spec fn ies_view(ies: Seq<Ie>) -> Seq<IeModel> {
    ies.map_values(|i: Ie| i@)
}

/// The two octets of a 16-bit number, the high one first.
pub open spec fn be16(v: u16) -> Seq<u8> {
    seq![(v / 256) as u8, (v % 256) as u8]
}

/// The four octets of a 32-bit number, the high one first.
pub open spec fn be32(v: u32) -> Seq<u8> {
    seq![
        (v / 0x100_0000) as u8,
        (v / 0x1_0000 % 256) as u8,
        (v / 256 % 256) as u8,
        (v % 256) as u8,
    ]
}

/// The 16-bit number that two octets hold, the high one first.
pub open spec fn from_be16(b: Seq<u8>) -> u16 {
    (b[0] * 256 + b[1]) as u16
}

/// The 32-bit number that four octets hold, the high one first.
pub open spec fn from_be32(b: Seq<u8>) -> u32 {
    (b[0] * 0x100_0000 + b[1] * 0x1_0000 + b[2] * 256 + b[3]) as u32
}

impl IeModel {
    /// The element with this 16-bit number as its data.
    pub open spec fn of_u16(kind: u8, v: u16) -> IeModel {
        IeModel { kind, data: be16(v) }
    }

    /// The element with this 32-bit number as its data.
    pub open spec fn of_u32(kind: u8, v: u32) -> IeModel {
        IeModel { kind, data: be32(v) }
    }

    /// The element with the UTF-8 octets of `s` as its data.
    pub open spec fn of_str(kind: u8, s: Seq<char>) -> IeModel {
        IeModel { kind, data: encode_utf8(s) }
    }

    /// The element without data.
    pub open spec fn of_nothing(kind: u8) -> IeModel {
        IeModel { kind, data: Seq::empty() }
    }

    /// The data as a 16-bit number, if it is two octets long.
    pub open spec fn to_u16(self) -> Option<u16> {
        if self.data.len() == 2 {
            Some(from_be16(self.data))
        } else {
            None
        }
    }

    /// The data as a 32-bit number, if it is four octets long.
    pub open spec fn to_u32(self) -> Option<u32> {
        if self.data.len() == 4 {
            Some(from_be32(self.data))
        } else {
            None
        }
    }

    /// The data as text: what it encodes, if it is UTF-8.
    pub open spec fn to_str(self) -> Seq<char> {
        if valid_utf8(self.data) {
            decode_utf8(self.data)
        } else {
            text::utf8_lossy(self.data)
        }
    }

    /// The octets of the element on the wire. The length octet holds the
    /// length modulo 256: an element longer than 255 octets has no faithful
    /// encoding.
    pub open spec fn wire(self) -> Seq<u8> {
        seq![self.kind, (self.data.len() % 256) as u8] + self.data
    }

    /// The length of the data fits the length octet.
    pub open spec fn fits(self) -> bool {
        self.data.len() <= 255
    }
}

/// The octets of a list of elements on the wire.
pub open spec fn wire_ies(ies: Seq<IeModel>) -> Seq<u8>
    decreases ies.len(),
{
    if ies.len() == 0 {
        Seq::empty()
    } else {
        wire_ies(ies.drop_last()) + ies.last().wire()
    }
}

/// The elements that `buf` holds, if it is a whole number of elements.
pub open spec fn parse_ies(buf: Seq<u8>) -> Option<Seq<IeModel>>
    decreases buf.len(),
{
    if buf.len() == 0 {
        Some(Seq::empty())
    } else if buf.len() < 2 || buf.len() < 2 + buf[1] {
        None
    } else {
        let first = IeModel { kind: buf[0], data: buf.subrange(2, 2 + buf[1]) };
        match parse_ies(buf.skip(2 + buf[1])) {
            Some(rest) => Some(seq![first] + rest),
            None => None,
        }
    }
}

/// The first element of a kind.
pub open spec fn first_of(ies: Seq<IeModel>, kind: u8) -> Option<IeModel>
    decreases ies.len(),
{
    if ies.len() == 0 {
        None
    } else if ies[0].kind == kind {
        Some(ies[0])
    } else {
        first_of(ies.drop_first(), kind)
    }
}

impl Ie {
    /// An element with raw data.
    pub fn new(kind: u8, data: Vec<u8>) -> (r: Self)
        ensures
            r@ == (IeModel { kind, data: data@ }),
    {
        Ie { kind, data }
    }

    /// An element that holds a big-endian 16-bit number (`REFRESH`, `AUTHMETHODS`, ...).
    pub fn u16(kind: u8, v: u16) -> (r: Self)
        ensures
            r@ == IeModel::of_u16(kind, v),
    {
        let mut data: Vec<u8> = Vec::with_capacity(2);
        push_be16(&mut data, v);
        Ie { kind, data }
    }

    /// An element that holds a big-endian 32-bit number (`CAPABILITY`, `FORMAT`, ...).
    pub fn u32(kind: u8, v: u32) -> (r: Self)
        ensures
            r@ == IeModel::of_u32(kind, v),
    {
        let mut data: Vec<u8> = Vec::with_capacity(4);
        push_be32(&mut data, v);
        Ie { kind, data }
    }

    /// An element that holds text (`USERNAME`, `MD5_RESULT`, `CHALLENGE`, ...).
    pub fn str(kind: u8, s: &str) -> (r: Self)
        ensures
            r@ == IeModel::of_str(kind, s@),
    {
        Ie { kind, data: vstd::slice::slice_to_vec(s.as_bytes()) }
    }

    /// An element without data (the `CALLTOKEN` of a first request, which
    /// announces support).
    pub fn empty(kind: u8) -> (r: Self)
        ensures
            r@ == IeModel::of_nothing(kind),
    {
        Ie { kind, data: Vec::new() }
    }

    /// The data as text; octets that are not UTF-8 become U+FFFD.
    pub fn as_str(&self) -> (r: String)
        ensures
            r@ == self@.to_str(),
    {
        text::string_from_utf8_lossy(&self.data)
    }

    /// The data as a big-endian 16-bit number, if it is two octets long.
    pub fn as_u16(&self) -> (r: Option<u16>)
        ensures
            r == self@.to_u16(),
    {
        if self.data.len() == 2 {
            Some(self.data[0] as u16 * 256 + self.data[1] as u16)
        } else {
            None
        }
    }

    /// The data as a big-endian 32-bit number, if it is four octets long.
    pub fn as_u32(&self) -> (r: Option<u32>)
        ensures
            r == self@.to_u32(),
    {
        if self.data.len() == 4 {
            Some(
                self.data[0] as u32 * 0x100_0000 + self.data[1] as u32 * 0x1_0000
                    + self.data[2] as u32 * 256 + self.data[3] as u32,
            )
        } else {
            None
        }
    }
}

/// Appends a 16-bit number, the high octet first.
pub(crate) fn push_be16(out: &mut Vec<u8>, v: u16)
    ensures
        final(out)@ == old(out)@ + be16(v),
{
    out.push((v / 256) as u8);
    out.push((v % 256) as u8);
}

/// Appends a 32-bit number, the high octet first.
pub(crate) fn push_be32(out: &mut Vec<u8>, v: u32)
    ensures
        final(out)@ == old(out)@ + be32(v),
{
    out.push((v / 0x100_0000) as u8);
    out.push((v / 0x1_0000 % 256) as u8);
    out.push((v / 256 % 256) as u8);
    out.push((v % 256) as u8);
}

/// Appends raw octets.
pub(crate) fn push_bytes(out: &mut Vec<u8>, bytes: &[u8])
    ensures
        final(out)@ == old(out)@ + bytes@,
{
    out.extend_from_slice(bytes);
}

/// Appends a list of elements to a frame.
///
/// The length octet holds the length of an element's data modulo 256, so only
/// elements of at most 255 octets can be read back.
pub fn encode(ies: &[Ie], out: &mut Vec<u8>)
    ensures
        final(out)@ == old(out)@ + wire_ies(ies_view(ies@)),
{
    let ghost before = out@;
    for i in 0..ies.len()
        invariant
            out@ == before + wire_ies(ies_view(ies@).take(i as int)),
    {
        let ie = &ies[i];
        out.push(ie.kind);
        out.push((ie.data.len() % 256) as u8);
        push_bytes(out, &ie.data);
        proof {
            let all = ies_view(ies@);
            assert(all.take(i + 1).drop_last() =~= all.take(i as int));
            assert(all.take(i + 1).last() == ie@);
        }
    }
    assert(ies_view(ies@).take(ies@.len() as int) =~= ies_view(ies@));
}

/// Decodes the elements that fill a buffer.
///
/// `None` if the buffer is cut short: one octet is left over, or an element
/// claims more data than there is.
pub fn decode(buf: &[u8]) -> (r: Option<Vec<Ie>>)
    ensures
        r is Some == parse_ies(buf@) is Some,
        r is Some ==> ies_view(r->0@) == parse_ies(buf@)->0,
{
    let mut out: Vec<Ie> = Vec::new();
    let mut pos: usize = 0;
    assert(buf@.skip(0) =~= buf@);
    assert(ies_view(out@) =~= Seq::empty());
    while pos < buf.len()
        invariant
            pos <= buf@.len(),
            parse_ies(buf@) is Some == parse_ies(buf@.skip(pos as int)) is Some,
            parse_ies(buf@) is Some ==> parse_ies(buf@)->0 == ies_view(out@) + parse_ies(
                buf@.skip(pos as int),
            )->0,
        decreases buf@.len() - pos,
    {
        let ghost rest = buf@.skip(pos as int);
        if buf.len() - pos < 2 {
            return None;
        }
        let kind = buf[pos];
        let len = buf[pos + 1] as usize;
        if buf.len() - pos < 2 + len {
            return None;
        }
        let data = vstd::slice::slice_to_vec(vstd::slice::slice_subrange(buf, pos + 2, pos + 2 + len));
        let ghost seen = ies_view(out@);
        out.push(Ie { kind, data });
        pos = pos + 2 + len;
        proof {
            let first = IeModel { kind: rest[0], data: rest.subrange(2, 2 + rest[1]) };
            assert(rest.skip(2 + rest[1]) =~= buf@.skip(pos as int));
            assert(data@ =~= first.data);
            assert(ies_view(out@) =~= seen.push(first));
            if parse_ies(buf@.skip(pos as int)) is Some {
                let tail = parse_ies(buf@.skip(pos as int))->0;
                assert(seen + (seq![first] + tail) =~= seen.push(first) + tail);
            }
        }
    }
    assert(buf@.skip(pos as int) =~= Seq::empty());
    assert(ies_view(out@) + Seq::<IeModel>::empty() =~= ies_view(out@));
    Some(out)
}

/// The first element of a kind.
pub fn find(ies: &[Ie], kind: u8) -> (r: Option<&Ie>)
    ensures
        r is Some == first_of(ies_view(ies@), kind) is Some,
        r is Some ==> r->0@ == first_of(ies_view(ies@), kind)->0,
{
    let ghost all = ies_view(ies@);
    assert(all.skip(0) =~= all);
    for i in 0..ies.len()
        invariant
            all == ies_view(ies@),
            first_of(all, kind) == first_of(all.skip(i as int), kind),
    {
        assert(all.skip(i as int)[0] == ies@[i as int]@);
        if ies[i].kind == kind {
            return Some(&ies[i]);
        }
        assert(all.skip(i as int).drop_first() =~= all.skip(i + 1));
    }
    None
}

/// Every element of a list can be encoded faithfully.
pub open spec fn all_fit(ies: Seq<IeModel>) -> bool {
    forall|i: int| 0 <= i < ies.len() ==> (#[trigger] ies[i]).fits()
}

proof fn lemma_wire_first(first: IeModel, rest: Seq<IeModel>)
    ensures
        wire_ies(seq![first] + rest) == first.wire() + wire_ies(rest),
    decreases rest.len(),
{
    let all = seq![first] + rest;
    if rest.len() == 0 {
        assert(all.drop_last() =~= Seq::empty());
        assert(all.last() == first);
        assert(wire_ies(Seq::<IeModel>::empty()) =~= Seq::empty());
        assert(wire_ies(all) =~= first.wire() + wire_ies(rest));
    } else {
        lemma_wire_first(first, rest.drop_last());
        assert(all.drop_last() =~= seq![first] + rest.drop_last());
        assert(all.last() == rest.last());
        assert(wire_ies(all) =~= first.wire() + wire_ies(rest));
    }
}

/// Decoding gives back the elements that were encoded, whenever each of them
/// has at most 255 octets of data.
pub proof fn law_decode_encode(ies: Seq<IeModel>)
    requires
        all_fit(ies),
    ensures
        parse_ies(wire_ies(ies)) == Some(ies),
    decreases ies.len(),
{
    if ies.len() > 0 {
        let first = ies[0];
        let rest = ies.drop_first();
        assert(ies =~= seq![first] + rest);
        lemma_wire_first(first, rest);
        assert forall|i: int| 0 <= i < rest.len() implies (#[trigger] rest[i]).fits() by {
            assert(rest[i] == ies[i + 1]);
        }
        law_decode_encode(rest);
        let buf = wire_ies(ies);
        assert(buf[0] == first.kind && buf[1] == first.data.len());
        assert(buf.subrange(2, 2 + buf[1]) =~= first.data);
        assert(buf.skip(2 + buf[1]) =~= wire_ies(rest));
    }
}

/// Encoding gives back the octets that were decoded, and every decoded
/// element has at most 255 octets of data.
pub proof fn law_encode_decode(buf: Seq<u8>)
    requires
        parse_ies(buf) is Some,
    ensures
        wire_ies(parse_ies(buf)->0) == buf,
        all_fit(parse_ies(buf)->0),
    decreases buf.len(),
{
    if buf.len() > 0 {
        let first = IeModel { kind: buf[0], data: buf.subrange(2, 2 + buf[1]) };
        let tail = buf.skip(2 + buf[1]);
        law_encode_decode(tail);
        let rest = parse_ies(tail)->0;
        lemma_wire_first(first, rest);
        assert(first.wire() + tail =~= buf);
        assert forall|i: int| 0 <= i < (seq![first] + rest).len() implies (#[trigger] (seq![first]
            + rest)[i]).fits() by {
            if i > 0 {
                assert((seq![first] + rest)[i] == rest[i - 1]);
            }
        }
    } else {
        assert(wire_ies(parse_ies(buf)->0) =~= buf);
    }
}

/// A number, or text, that was put into an element is read back from it.
pub proof fn law_value_roundtrip(kind: u8, a: u16, b: u32, s: Seq<char>)
    ensures
        IeModel::of_u16(kind, a).to_u16() == Some(a),
        IeModel::of_u32(kind, b).to_u32() == Some(b),
        IeModel::of_str(kind, s).to_str() == s,
{
    encode_utf8_valid_utf8(s);
    encode_utf8_decode_utf8(s);
}

/// A search returns an element of the kind, and finds one if there is one.
pub proof fn law_first_of(ies: Seq<IeModel>, kind: u8)
    ensures
        first_of(ies, kind) is Some ==> first_of(ies, kind)->0.kind == kind && ies.contains(
            first_of(ies, kind)->0,
        ),
        first_of(ies, kind) is None ==> forall|i: int|
            0 <= i < ies.len() ==> (#[trigger] ies[i]).kind != kind,
    decreases ies.len(),
{
    if ies.len() > 0 && ies[0].kind != kind {
        let rest = ies.drop_first();
        law_first_of(rest, kind);
        if first_of(rest, kind) is Some {
            let k = choose|k: int| 0 <= k < rest.len() && rest[k] == first_of(rest, kind)->0;
            assert(ies[k + 1] == first_of(rest, kind)->0);
        } else {
            assert forall|i: int| 0 <= i < ies.len() implies (#[trigger] ies[i]).kind != kind by {
                if i > 0 {
                    assert(rest[i - 1] == ies[i]);
                }
            }
        }
    }
}

} // verus!
