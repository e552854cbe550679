//! What a leg promises: its frames are numbered one after the other, kept until
//! they are acknowledged, and sent again, all of them, when their time is up.

use vstd::prelude::*;

use crate::consts::{frametype, iax};
use crate::frame::{law_command_roundtrip, FrameModel};
use crate::ie::{all_fit, IeModel};
use crate::leg::{
    lemma_kept, marked, resends, some_hopeless, LegModel, OutstandingModel,
};
use crate::time::Instant;

verus! {

/// A datagram with the R bit set: the top bit of its third octet, and nothing
/// else, is changed.
pub open spec fn with_r_bit(bytes: Seq<u8>) -> Seq<u8> {
    bytes.update(2, (bytes[2] % 0x80 + 0x80) as u8)
}

proof fn lemma_r_bit(bytes: Seq<u8>)
    requires
        bytes.len() >= 3,
    ensures
        marked(bytes) == with_r_bit(bytes),
{
    let b: u8 = bytes[2];
    assert((b | 0x80) == b % 0x80 + 0x80) by (bit_vector);
    assert(marked(bytes) =~= with_r_bit(bytes));
}

/// What is sent again is every frame of the window whose wait of 700 ms is over
/// and that was sent again fewer than five times, each once, with the R bit,
/// in the order of the window.
pub proof fn law_every_due_frame_is_sent_again(w: Seq<OutstandingModel>, now: Instant)
    requires
        forall|i: int| 0 <= i < w.len() ==> (#[trigger] w[i]).bytes.len() >= 12,
    ensures
        resends(w, now) == w.filter(
            |o: OutstandingModel| o.deadline.nanos <= now.nanos && o.tries < 5,
        ).map_values(|o: OutstandingModel| with_r_bit(o.bytes)),
        forall|i: int|
            0 <= i < w.len() && (#[trigger] w[i]).deadline.nanos <= now.nanos && w[i].tries < 5
                ==> resends(w, now).contains(with_r_bit(w[i].bytes)),
    decreases w.len(),
{
    let again = |o: OutstandingModel| o.deadline.nanos <= now.nanos && o.tries < 5;
    let octets = |o: OutstandingModel| with_r_bit(o.bytes);
    reveal(Seq::filter);
    if w.len() > 0 {
        let before = w.drop_last();
        assert forall|i: int| 0 <= i < before.len() implies (#[trigger] before[i]).bytes.len()
            >= 12 by {
            assert(before[i] == w[i]);
        }
        law_every_due_frame_is_sent_again(before, now);
        assert(w[w.len() - 1].bytes.len() >= 12);
        lemma_r_bit(w.last().bytes);
        let kept = before.filter(again);
        if again(w.last()) {
            assert(kept.push(w.last()).map_values(octets) =~= kept.map_values(octets).push(
                octets(w.last()),
            ));
        }
        assert(resends(w, now) =~= w.filter(again).map_values(octets));
    } else {
        assert(resends(w, now) =~= w.filter(again).map_values(octets));
    }
    assert forall|i: int|
        0 <= i < w.len() && (#[trigger] w[i]).deadline.nanos <= now.nanos && w[i].tries
            < 5 implies resends(w, now).contains(with_r_bit(w[i].bytes)) by {
        lemma_kept(w, again, i);
        let k = w.filter(again);
        let j = choose|j: int| 0 <= j < k.len() && k[j] == w[i];
        assert(k.map_values(octets)[j] == with_r_bit(w[i].bytes));
    }
}

/// A look at the clock leaves the window its frames: one that is sent again is
/// counted once more and waits another 700 ms, any other is as it was. The
/// window is given up exactly if a frame that was sent again five times has
/// waited in vain once more.
pub proof fn law_window_after_a_look_at_the_clock(leg: LegModel, now: Instant)
    requires
        now.in_range(),
        leg.wf(),
    ensures
        ({
            let after = leg.checked_at(now);
            &&& after.local == leg.local && after.remote == leg.remote
            &&& after.oseq == leg.oseq && after.iseq == leg.iseq
            &&& after.outstanding.len() == leg.outstanding.len()
            &&& forall|i: int|
                0 <= i < leg.outstanding.len() ==> {
                    let o = #[trigger] leg.outstanding[i];
                    let p = after.outstanding[i];
                    let again = o.deadline.nanos <= now.nanos && o.tries < 5;
                    &&& p.bytes == o.bytes && p.oseq == o.oseq && p.ts == o.ts
                    &&& again ==> p.tries == o.tries + 1 && p.deadline.nanos == now.nanos
                        + 700_000_000
                    &&& !again ==> p == o
                }
            &&& some_hopeless(leg.outstanding, now) <==> exists|i: int|
                0 <= i < leg.outstanding.len() && (#[trigger] leg.outstanding[i]).deadline.nanos
                    <= now.nanos && leg.outstanding[i].tries >= 5
        }),
{
    if some_hopeless(leg.outstanding, now) {
        let i = choose|i: int|
            0 <= i < leg.outstanding.len() && (#[trigger] leg.outstanding[i]).hopeless(now);
        assert(leg.outstanding[i].deadline.nanos <= now.nanos && leg.outstanding[i].tries >= 5);
    }
    if exists|i: int|
        0 <= i < leg.outstanding.len() && (#[trigger] leg.outstanding[i]).deadline.nanos
            <= now.nanos && leg.outstanding[i].tries >= 5 {
        let i = choose|i: int|
            0 <= i < leg.outstanding.len() && (#[trigger] leg.outstanding[i]).deadline.nanos
                <= now.nanos && leg.outstanding[i].tries >= 5;
        assert(leg.outstanding[i].hopeless(now));
    }
}

/// A new leg, or one that starts afresh, has its number and nothing else.
pub proof fn law_new_leg(local: u16)
    ensures
        LegModel::new(local).local == local,
        LegModel::new(local).remote == 0,
        LegModel::new(local).oseq == 0,
        LegModel::new(local).iseq == 0,
        LegModel::new(local).outstanding.len() == 0,
{
}

/// The datagram is a full frame of this leg: from its number to the peer's, with
/// the number that the leg sends next and the one that it expects next.
pub open spec fn speaks(
    dg: Seq<u8>,
    leg: LegModel,
    ts: u32,
    ft: u8,
    sc: u8,
    ies: Seq<IeModel>,
) -> bool {
    FrameModel::parse(dg) == Some(
        FrameModel {
            src_call: (leg.local % 0x8000) as u16,
            dst_call: (leg.remote % 0x8000) as u16,
            retransmit: false,
            timestamp: ts,
            oseq: leg.oseq,
            iseq: leg.iseq,
            frametype: ft,
            subclass: sc,
            ies,
            media_payload: Seq::empty(),
        },
    )
}

/// What a leg builds is read by the peer as a frame of this leg.
pub proof fn law_leg_speaks(leg: LegModel, ts: u32, ft: u8, sc: u8, ies: Seq<IeModel>)
    requires
        sc < 0x80,
        all_fit(ies),
        crate::frame::carries_media(ft) ==> ies.len() == 0,
    ensures
        speaks(leg.frame(ts, ft, sc, ies).wire(), leg, ts, ft, sc, ies),
        speaks(leg.ack(ts), leg, ts, 6, 4, Seq::empty()),
        leg.frame(ts, ft, sc, ies).wire().len() >= 12,
        crate::frame::full_frame(leg.frame(ts, ft, sc, ies).wire()),
{
    let f = leg.frame(ts, ft, sc, ies);
    let a = leg.frame(ts, frametype::IAX, iax::ACK, Seq::empty());
    law_command_roundtrip(a);
    if crate::frame::carries_media(ft) {
        crate::frame::law_media_roundtrip(f, Seq::empty());
        assert(ies =~= Seq::empty());
        assert(f.wire() =~= f.wire_media(Seq::empty()));
    } else {
        law_command_roundtrip(f);
    }
    crate::frame_laws::law_full_frame_octets(f, Seq::empty());
}

/// The window has one more frame: these octets, under the number that the leg
/// sent next, to be sent again in 700 ms; and the leg's next number is one
/// higher.
pub open spec fn keeps(
    before: LegModel,
    after: LegModel,
    dg: Seq<u8>,
    ts: u32,
    now: Instant,
) -> bool {
    &&& after.local == before.local && after.remote == before.remote && after.iseq == before.iseq
    &&& after.oseq == (before.oseq + 1) % 256
    &&& after.outstanding.len() == before.outstanding.len() + 1
    &&& after.outstanding.drop_last() == before.outstanding
    &&& after.outstanding.last().oseq == before.oseq
    &&& after.outstanding.last().ts == ts
    &&& after.outstanding.last().bytes == dg
    &&& after.outstanding.last().deadline.nanos == now.nanos + 700_000_000
    &&& after.outstanding.last().tries == 0
}

/// A frame that is sent reliably is kept; one that is only built is counted, and
/// an acknowledgement is not even that.
pub proof fn law_reliable_frame_is_kept(
    leg: LegModel,
    ts: u32,
    ft: u8,
    sc: u8,
    ies: Seq<IeModel>,
    now: Instant,
)
    requires
        now.in_range(),
    ensures
        keeps(leg, leg.sent(ts, ft, sc, ies, now), leg.frame(ts, ft, sc, ies).wire(), ts, now),
        leg.advanced() == (LegModel { oseq: ((leg.oseq + 1) % 256) as u8, ..leg }),
{
    let after = leg.sent(ts, ft, sc, ies, now);
    assert(after.outstanding.drop_last() =~= leg.outstanding);
}

/// What a frame that arrives does to a leg: the peer's number is taken if it
/// gives one, the number after its own is expected next, and the window loses
/// the frames that precede the number it expects and, if it is an `ACK`, those
/// with its timestamp; what stays, stays in its order.
pub proof fn law_leg_hears(leg: LegModel, f: FrameModel)
    ensures
        leg.received(f).local == leg.local,
        leg.received(f).oseq == leg.oseq,
        leg.received(f).remote == if f.src_call != 0 {
            f.src_call
        } else {
            leg.remote
        },
        leg.received(f).iseq == (f.oseq + 1) % 256,
        leg.received(f).outstanding == leg.outstanding.filter(
            |o: OutstandingModel|
                !(1 <= (f.iseq - o.oseq) % 256 <= 127) && !(f.frametype == 6 && f.subclass == 4
                    && o.ts == f.timestamp),
        ),
        leg.note_recv(f).outstanding == leg.outstanding,
        leg.note_recv(f).local == leg.local && leg.note_recv(f).oseq == leg.oseq,
        leg.note_recv(f).remote == leg.received(f).remote,
        leg.note_recv(f).iseq == leg.received(f).iseq,
{
    lemma_same_filter(
        leg.outstanding,
        |o: OutstandingModel|
            !o.acked(f.iseq, f.timestamp, f.frametype == frametype::IAX && f.subclass == iax::ACK),
        |o: OutstandingModel|
            !(1 <= (f.iseq - o.oseq) % 256 <= 127) && !(f.frametype == 6 && f.subclass == 4
                && o.ts == f.timestamp),
    );
}

proof fn lemma_same_filter<A>(s: Seq<A>, p: spec_fn(A) -> bool, q: spec_fn(A) -> bool)
    requires
        forall|x: A| #[trigger] p(x) == q(x),
    ensures
        s.filter(p) == s.filter(q),
    decreases s.len(),
{
    reveal(Seq::filter);
    if s.len() > 0 {
        lemma_same_filter(s.drop_last(), p, q);
        assert(p(s.last()) == q(s.last()));
    }
}

} // verus!
