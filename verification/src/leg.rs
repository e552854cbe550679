//! One leg of a conversation: call numbers, sequence numbers and the window of
//! reliable frames that the peer has not acknowledged yet.

use vstd::prelude::*;
use std::collections::VecDeque;

use crate::consts::{frametype, iax};
use crate::frame::{FrameModel, FullFrame};
use crate::ie::{ies_view, Ie, IeModel};
use crate::time::Instant;

verus! {

/// How long a reliable frame waits for its acknowledgement before it is sent
/// again: 700 ms.
pub const RETX_AFTER: u64 = 700_000_000;

/// How many times a reliable frame is sent again.
pub const RETX_MAX: u32 = 5;

/// What is kept of a reliable frame in flight.
#[verifier::ext_equal]
pub ghost struct OutstandingModel {
    pub oseq: u8,
    pub ts: u32,
    pub bytes: Seq<u8>,
    pub deadline: Instant,
    pub tries: u32,
}

/// What a leg holds.
#[verifier::ext_equal]
pub ghost struct LegModel {
    pub local: u16,
    pub remote: u16,
    pub oseq: u8,
    pub iseq: u8,
    pub outstanding: Seq<OutstandingModel>,
}

/// Serial order of 8-bit sequence numbers: `b` is 1 to 127 steps ahead of `a`.
pub open spec fn precedes(a: u8, b: u8) -> bool {
    0 < (b - a) % 256 < 128
}

/// The next 8-bit sequence number.
pub open spec fn next_seq(a: u8) -> u8 {
    ((a + 1) % 256) as u8
}

/// A datagram with the retransmission bit set.
pub open spec fn marked(bytes: Seq<u8>) -> Seq<u8> {
    bytes.update(2, (bytes[2] | 0x80) as u8)
}

impl OutstandingModel {
    /// A whole full frame that was sent again at most [`RETX_MAX`] times.
    pub open spec fn wf(self) -> bool {
        self.bytes.len() >= 12 && self.tries <= RETX_MAX
    }

    /// The wait for the acknowledgement is over.
    pub open spec fn due(self, now: Instant) -> bool {
        self.deadline.nanos <= now.nanos
    }

    /// To be sent again now.
    pub open spec fn resend(self, now: Instant) -> bool {
        self.due(now) && self.tries < RETX_MAX
    }

    /// Sent often enough, and still not acknowledged.
    pub open spec fn hopeless(self, now: Instant) -> bool {
        self.due(now) && self.tries >= RETX_MAX
    }

    /// The frame after a look at the clock.
    pub open spec fn checked_at(self, now: Instant) -> OutstandingModel {
        if self.resend(now) {
            OutstandingModel {
                tries: (self.tries + 1) as u32,
                deadline: now.after(RETX_AFTER as int),
                ..self
            }
        } else {
            self
        }
    }

    /// A received frame with this sequence number and timestamp acknowledges
    /// this one: by its sequence number, or, if it is an `ACK`, by its timestamp.
    pub open spec fn acked(self, recv_iseq: u8, recv_ts: u32, is_ack: bool) -> bool {
        precedes(self.oseq, recv_iseq) || (is_ack && self.ts == recv_ts)
    }
}

/// The datagrams to send again, in the order of the window.
pub open spec fn resends(window: Seq<OutstandingModel>, now: Instant) -> Seq<Seq<u8>>
    decreases window.len(),
{
    if window.len() == 0 {
        Seq::empty()
    } else {
        let before = resends(window.drop_last(), now);
        if window.last().resend(now) {
            before.push(marked(window.last().bytes))
        } else {
            before
        }
    }
}

/// Some frame of the window has been sent often enough.
pub open spec fn some_hopeless(window: Seq<OutstandingModel>, now: Instant) -> bool {
    exists|i: int| 0 <= i < window.len() && (#[trigger] window[i]).hopeless(now)
}

/// What a window keeps when a frame arrives.
pub open spec fn unacked(
    window: Seq<OutstandingModel>,
    recv_iseq: u8,
    recv_ts: u32,
    is_ack: bool,
) -> Seq<OutstandingModel> {
    window.filter(|o: OutstandingModel| !o.acked(recv_iseq, recv_ts, is_ack))
}

impl LegModel {
    /// A leg that has not spoken yet.
    pub open spec fn new(local: u16) -> LegModel {
        LegModel { local, remote: 0, oseq: 0, iseq: 0, outstanding: Seq::empty() }
    }

    /// The leg after the frame `f` arrived on it: the peer's call number, if
    /// it gave one, and the sequence number expected next.
    pub open spec fn note_recv(self, f: FrameModel) -> LegModel {
        LegModel {
            remote: if f.src_call != 0 {
                f.src_call
            } else {
                self.remote
            },
            iseq: next_seq(f.oseq),
            ..self
        }
    }

    /// The full frame that the leg builds next.
    pub open spec fn frame(self, ts: u32, ft: u8, sc: u8, ies: Seq<IeModel>) -> FrameModel {
        FrameModel::new(self.local, self.remote, ts, self.oseq, self.iseq, ft, sc, ies)
    }

    /// The leg after it built a frame.
    pub open spec fn advanced(self) -> LegModel {
        LegModel { oseq: next_seq(self.oseq), ..self }
    }

    /// The octets of an acknowledgement.
    pub open spec fn ack(self, ts: u32) -> Seq<u8> {
        self.frame(ts, frametype::IAX, iax::ACK, Seq::empty()).wire()
    }

    /// The leg with one more frame to be acknowledged.
    pub open spec fn tracking(self, f: FrameModel, now: Instant) -> LegModel {
        LegModel {
            outstanding: self.outstanding.push(
                OutstandingModel {
                    oseq: f.oseq,
                    ts: f.timestamp,
                    bytes: f.wire(),
                    deadline: now.after(RETX_AFTER as int),
                    tries: 0,
                },
            ),
            ..self
        }
    }

    /// The leg after it sent a reliable frame.
    pub open spec fn sent(
        self,
        ts: u32,
        ft: u8,
        sc: u8,
        ies: Seq<IeModel>,
        now: Instant,
    ) -> LegModel {
        self.advanced().tracking(self.frame(ts, ft, sc, ies), now)
    }

    /// The leg after a received frame acknowledged part of the window.
    pub open spec fn ack_upto(self, recv_iseq: u8, recv_ts: u32, is_ack: bool) -> LegModel {
        LegModel { outstanding: unacked(self.outstanding, recv_iseq, recv_ts, is_ack), ..self }
    }

    /// The leg after the frame `f` was counted and its acknowledgement taken.
    pub open spec fn received(self, f: FrameModel) -> LegModel {
        self.note_recv(f).ack_upto(
            f.iseq,
            f.timestamp,
            f.frametype == frametype::IAX && f.subclass == iax::ACK,
        )
    }

    /// The leg after a look at the clock.
    pub open spec fn checked_at(self, now: Instant) -> LegModel {
        LegModel {
            outstanding: self.outstanding.map_values(|o: OutstandingModel| o.checked_at(now)),
            ..self
        }
    }

    /// Every frame in flight is a whole full frame, and was not sent again more
    /// often than it may be.
    pub open spec fn wf(self) -> bool {
        forall|i: int| 0 <= i < self.outstanding.len() ==> (#[trigger] self.outstanding[i]).wf()
    }
}

/// Whether `a` precedes `b` in the serial order of 8-bit numbers.
pub fn seq_before(a: u8, b: u8) -> (r: bool)
    ensures
        r == precedes(a, b),
{
    let d = b.wrapping_sub(a);
    d != 0 && d < 128
}

/// A reliable full frame that the peer has not acknowledged.
#[derive(Debug)]
pub struct Outstanding {
    pub oseq: u8,
    pub ts: u32,
    pub bytes: Vec<u8>,
    pub deadline: Instant,
    pub tries: u32,
}

impl View for Outstanding {
    type V = OutstandingModel;

    open spec fn view(&self) -> OutstandingModel {
        OutstandingModel {
            oseq: self.oseq,
            ts: self.ts,
            bytes: self.bytes@,
            deadline: self.deadline,
            tries: self.tries,
        }
    }
}

/// What a window holds.
pub open spec fn window_view(window: Seq<Outstanding>) -> Seq<OutstandingModel> {
    window.map_values(|o: Outstanding| o@)
}

/// What a list of datagrams holds.
pub open spec fn datagrams_view(v: Seq<Vec<u8>>) -> Seq<Seq<u8>> {
    v.map_values(|b: Vec<u8>| b@)
}

proof fn lemma_window_pop(window: Seq<Outstanding>)
    requires
        window.len() > 0,
    ensures
        window_view(window)[0] == window[0]@,
        window_view(window.subrange(1, window.len() as int)) == window_view(window).skip(1),
{
    assert(window_view(window.subrange(1, window.len() as int)) =~= window_view(window).skip(1));
}

proof fn lemma_window_push(window: Seq<Outstanding>, o: Outstanding)
    ensures
        window_view(window.push(o)) == window_view(window).push(o@),
{
    assert(window_view(window.push(o)) =~= window_view(window).push(o@));
}

/// One leg of a conversation.
#[derive(Debug)]
pub struct Leg {
    pub local: u16,
    pub remote: u16,
    pub oseq: u8,
    pub iseq: u8,
    pub outstanding: VecDeque<Outstanding>,
}

impl View for Leg {
    type V = LegModel;

    open spec fn view(&self) -> LegModel {
        LegModel {
            local: self.local,
            remote: self.remote,
            oseq: self.oseq,
            iseq: self.iseq,
            outstanding: window_view(self.outstanding@),
        }
    }
}

/// Sets the retransmission bit of a datagram.
fn mark(bytes: &Vec<u8>) -> (r: Vec<u8>)
    requires
        bytes@.len() >= 12,
    ensures
        r@ == marked(bytes@),
{
    let mut b = bytes.clone();
    assert(b@ =~= bytes@);
    let flag: u8 = b[2] | 0x80;
    b.set(2, flag);
    b
}

impl Leg {
    /// A leg that has not spoken yet.
    pub fn new(local: u16) -> (r: Self)
        ensures
            r@ == LegModel::new(local),
    {
        let leg = Leg { local, remote: 0, oseq: 0, iseq: 0, outstanding: VecDeque::new() };
        assert(leg@ =~= LegModel::new(local));
        leg
    }

    /// Starts the leg afresh, under the same call number.
    pub fn reset(&mut self)
        ensures
            final(self)@ == LegModel::new(old(self)@.local),
    {
        self.remote = 0;
        self.oseq = 0;
        self.iseq = 0;
        self.outstanding.clear();
        assert(self@ =~= LegModel::new(old(self)@.local));
    }

    /// Takes the peer's call number and the sequence number expected next from
    /// a received frame.
    pub fn note_recv(&mut self, f: &FullFrame)
        ensures
            final(self)@ == old(self)@.note_recv(f@),
    {
        if f.src_call != 0 {
            self.remote = f.src_call;
        }
        self.iseq = f.oseq.wrapping_add(1);
    }

    /// Builds the next full frame, and counts it.
    pub fn build(&mut self, ts: u32, ft: u8, sc: u8, ies: Vec<Ie>) -> (r: FullFrame)
        ensures
            r@ == old(self)@.frame(ts, ft, sc, ies_view(ies@)),
            final(self)@ == old(self)@.advanced(),
    {
        let f = FullFrame::new(self.local, self.remote, ts, self.oseq, self.iseq, ft, sc, ies);
        self.oseq = self.oseq.wrapping_add(1);
        f
    }

    /// The octets of an acknowledgement, which is neither counted nor reliable.
    pub fn ack_bytes(&self, ts: u32) -> (r: Vec<u8>)
        ensures
            r@ == self@.ack(ts),
    {
        let ies: Vec<Ie> = Vec::new();
        assert(ies_view(ies@) =~= Seq::empty());
        FullFrame::new(
            self.local,
            self.remote,
            ts,
            self.oseq,
            self.iseq,
            frametype::IAX,
            iax::ACK,
            ies,
        ).encode()
    }

    /// Keeps a frame in the window until the peer acknowledges it.
    pub fn track_reliable(&mut self, f: &FullFrame, now: Instant)
        requires
            now.in_range(),
        ensures
            final(self)@ == old(self)@.tracking(f@, now),
    {
        let o = Outstanding {
            oseq: f.oseq,
            ts: f.timestamp,
            bytes: f.encode(),
            deadline: now.plus(RETX_AFTER),
            tries: 0,
        };
        self.outstanding.push_back(o);
        assert(self@ =~= old(self)@.tracking(f@, now));
    }

    /// Builds a frame, keeps it in the window, and returns its octets.
    pub fn send_reliable(&mut self, ts: u32, ft: u8, sc: u8, ies: Vec<Ie>, now: Instant) -> (r: Vec<
        u8,
    >)
        requires
            now.in_range(),
        ensures
            r@ == old(self)@.frame(ts, ft, sc, ies_view(ies@)).wire(),
            final(self)@ == old(self)@.sent(ts, ft, sc, ies_view(ies@), now),
    {
        let f = self.build(ts, ft, sc, ies);
        self.track_reliable(&f, now);
        f.encode()
    }

    /// Drops what a received frame acknowledges: everything before its
    /// sequence number and, if it is an `ACK`, what has its timestamp.
    pub fn ack_upto(&mut self, recv_iseq: u8, recv_ts: u32, is_ack: bool)
        ensures
            final(self)@ == old(self)@.ack_upto(recv_iseq, recv_ts, is_ack),
    {
        let ghost window = window_view(self.outstanding@);
        let ghost keep = |o: OutstandingModel| !o.acked(recv_iseq, recv_ts, is_ack);
        let mut kept: VecDeque<Outstanding> = VecDeque::new();
        let n = self.outstanding.len();
        assert(window_view(kept@) =~= window.take(0).filter(keep)) by {
            reveal(Seq::filter);
        }
        for i in 0..n
            invariant
                n == window.len(),
                keep == (|o: OutstandingModel| !o.acked(recv_iseq, recv_ts, is_ack)),
                window_view(self.outstanding@) == window.skip(i as int),
                window_view(kept@) == window.take(i as int).filter(keep),
                self.local == old(self).local,
                self.remote == old(self).remote,
                self.oseq == old(self).oseq,
                self.iseq == old(self).iseq,
        {
            let ghost before = self.outstanding@;
            assert(before.len() == window.skip(i as int).len());
            if let Some(o) = self.outstanding.pop_front() {
                proof {
                    lemma_window_pop(before);
                    assert(o@ == window[i as int]);
                    assert(window.skip(i as int).skip(1) =~= window.skip(i + 1));
                    reveal(Seq::filter);
                    assert(window.take(i + 1).drop_last() =~= window.take(i as int));
                    assert(window.take(i + 1).last() == o@);
                }
                let ghost had = kept@;
                if !(seq_before(o.oseq, recv_iseq) || (is_ack && o.ts == recv_ts)) {
                    kept.push_back(o);
                    proof {
                        lemma_window_push(had, o);
                    }
                }
            }
        }
        assert(window.take(n as int) =~= window);
        self.outstanding = kept;
    }

    /// Sends again what has waited long enough: the datagrams to send, and
    /// whether some frame has been sent as often as it may be.
    pub fn retransmit(&mut self, now: Instant) -> (r: (Vec<Vec<u8>>, bool))
        requires
            now.in_range(),
            old(self)@.wf(),
        ensures
            final(self)@ == old(self)@.checked_at(now),
            datagrams_view(r.0@) == resends(old(self)@.outstanding, now),
            r.1 == some_hopeless(old(self)@.outstanding, now),
    {
        let ghost window = window_view(self.outstanding@);
        let ghost after = window.map_values(|o: OutstandingModel| o.checked_at(now));
        let mut kept: VecDeque<Outstanding> = VecDeque::new();
        let mut again: Vec<Vec<u8>> = Vec::new();
        let mut lost = false;
        let n = self.outstanding.len();
        assert(window_view(kept@) =~= after.take(0));
        assert(datagrams_view(again@) =~= resends(window.take(0), now));
        for i in 0..n
            invariant
                n == window.len(),
                now.in_range(),
                old(self)@.wf(),
                window == old(self)@.outstanding,
                after == window.map_values(|o: OutstandingModel| o.checked_at(now)),
                window_view(self.outstanding@) == window.skip(i as int),
                window_view(kept@) == after.take(i as int),
                datagrams_view(again@) == resends(window.take(i as int), now),
                lost == some_hopeless(window.take(i as int), now),
                self.local == old(self).local,
                self.remote == old(self).remote,
                self.oseq == old(self).oseq,
                self.iseq == old(self).iseq,
        {
            let ghost before = self.outstanding@;
            let ghost sent = again@;
            let ghost had = kept@;
            assert(before.len() == window.skip(i as int).len());
            if let Some(o) = self.outstanding.pop_front() {
                let mut o = o;
                let ghost was = o@;
                proof {
                    lemma_window_pop(before);
                    assert(was == window[i as int]);
                    assert(window.skip(i as int).skip(1) =~= window.skip(i + 1));
                    assert(window.take(i + 1).drop_last() =~= window.take(i as int));
                    assert(window.take(i + 1).last() == was);
                }
                if now.nanos >= o.deadline.nanos {
                    if o.tries >= RETX_MAX {
                        lost = true;
                        assert(window.take(i + 1)[i as int].hopeless(now));
                    } else {
                        again.push(mark(&o.bytes));
                        o.tries = o.tries + 1;
                        o.deadline = now.plus(RETX_AFTER);
                        assert(datagrams_view(again@) =~= datagrams_view(sent).push(
                            marked(was.bytes),
                        ));
                    }
                }
                proof {
                    if some_hopeless(window.take(i as int), now) {
                        let k = choose|k: int|
                            0 <= k < i && (#[trigger] window.take(i as int)[k]).hopeless(now);
                        assert(window.take(i + 1)[k].hopeless(now));
                    }
                    if some_hopeless(window.take(i + 1), now) && !was.hopeless(now) {
                        let k = choose|k: int|
                            0 <= k < i + 1 && (#[trigger] window.take(i + 1)[k]).hopeless(now);
                        assert(window.take(i as int)[k].hopeless(now));
                    }
                }
                kept.push_back(o);
                proof {
                    lemma_window_push(had, o);
                    assert(o@ == after[i as int]);
                    assert(after.take(i + 1) =~= after.take(i as int).push(after[i as int]));
                }
            }
        }
        assert(window.take(n as int) =~= window);
        assert(after.take(n as int) =~= after);
        self.outstanding = kept;
        (again, lost)
    }
}

/// The serial order is strict, and a number precedes the next 127.
pub proof fn law_serial_order(a: u8, b: u8, n: int)
    requires
        0 < n < 128,
    ensures
        !precedes(a, a),
        precedes(a, b) ==> !precedes(b, a),
        precedes(a, next_seq(a)),
        precedes(a, ((a + n) % 256) as u8),
{
}

/// A retransmission is the same frame with the retransmission bit set, and
/// setting it twice is setting it once.
pub proof fn law_retransmission(bytes: Seq<u8>)
    requires
        bytes.len() >= 12,
    ensures
        FrameModel::parse(marked(bytes)) == match FrameModel::parse(bytes) {
            Some(f) => Some((FrameModel { retransmit: true, ..f })),
            None => None,
        },
        marked(marked(bytes)) == marked(bytes),
{
    let b: u8 = bytes[2];
    assert((b | 0x80) >= 128 && (b | 0x80) % 128 == b % 128 && ((b | 0x80) | 0x80) == (b | 0x80))
        by (bit_vector);
    let after = marked(bytes);
    assert(after.skip(12) =~= bytes.skip(12));
    assert(after.skip(4)[0] == bytes.skip(4)[0] && after.skip(4)[1] == bytes.skip(4)[1]
        && after.skip(4)[2] == bytes.skip(4)[2] && after.skip(4)[3] == bytes.skip(4)[3]);
    assert(after.skip(2)[0] == (b | 0x80) && after.skip(2)[1] == bytes[3]);
    assert(bytes.skip(2)[0] == b && bytes.skip(2)[1] == bytes[3]);
    assert(marked(after) =~= after);
    if FrameModel::parse(bytes) is Some {
        assert(FrameModel::parse(after)->0 =~= (FrameModel {
            retransmit: true,
            ..FrameModel::parse(bytes)->0
        }));
    }
}

/// What a filter keeps was there before, and passes the filter.
pub proof fn lemma_kept_from<A>(s: Seq<A>, keep: spec_fn(A) -> bool, i: int) -> (j: int)
    requires
        0 <= i < s.filter(keep).len(),
    ensures
        0 <= j < s.len(),
        s[j] == s.filter(keep)[i],
        keep(s[j]),
    decreases s.len(),
{
    reveal(Seq::filter);
    let before = s.drop_last().filter(keep);
    if i < before.len() {
        lemma_kept_from(s.drop_last(), keep, i)
    } else {
        s.len() - 1
    }
}

/// What passes a filter is kept.
pub proof fn lemma_kept<A>(s: Seq<A>, keep: spec_fn(A) -> bool, j: int)
    requires
        0 <= j < s.len(),
        keep(s[j]),
    ensures
        s.filter(keep).contains(s[j]),
    decreases s.len(),
{
    reveal(Seq::filter);
    let before = s.drop_last().filter(keep);
    if j < s.len() - 1 {
        lemma_kept(s.drop_last(), keep, j);
        let i = choose|i: int| 0 <= i < before.len() && before[i] == s[j];
        assert(s.filter(keep)[i] == s[j]);
    } else {
        assert(s.filter(keep)[before.len() as int] == s[j]);
    }
}

/// A received frame takes exactly the frames that it acknowledges out of the
/// window: those before its sequence number and, if it is an `ACK`, those
/// with its timestamp.
pub proof fn law_acknowledgement(leg: LegModel, f: FrameModel, o: OutstandingModel)
    ensures
        leg.received(f).outstanding.contains(o) <==> leg.outstanding.contains(o) && !o.acked(
            f.iseq,
            f.timestamp,
            f.frametype == frametype::IAX && f.subclass == iax::ACK,
        ),
{
    let is_ack = f.frametype == frametype::IAX && f.subclass == iax::ACK;
    let keep = |o: OutstandingModel| !o.acked(f.iseq, f.timestamp, is_ack);
    let after = leg.outstanding.filter(keep);
    assert(after == leg.received(f).outstanding);
    if after.contains(o) {
        let i = choose|i: int| 0 <= i < after.len() && after[i] == o;
        let j = lemma_kept_from(leg.outstanding, keep, i);
        assert(leg.outstanding[j] == o);
    }
    if leg.outstanding.contains(o) && keep(o) {
        let j = choose|j: int| 0 <= j < leg.outstanding.len() && leg.outstanding[j] == o;
        lemma_kept(leg.outstanding, keep, j);
    }
}

/// One acknowledgement can clear the window: a frame whose sequence number is
/// the one that the leg sends next acknowledges everything before it.
pub proof fn law_cumulative_acknowledgement(leg: LegModel, f: FrameModel)
    requires
        f.iseq == leg.oseq,
        forall|i: int|
            0 <= i < leg.outstanding.len() ==> precedes(
                (#[trigger] leg.outstanding[i]).oseq,
                leg.oseq,
            ),
    ensures
        leg.received(f).outstanding.len() == 0,
{
    let is_ack = f.frametype == frametype::IAX && f.subclass == iax::ACK;
    let after = leg.received(f).outstanding;
    if after.len() > 0 {
        let j = lemma_kept_from(
            leg.outstanding,
            |o: OutstandingModel| !o.acked(f.iseq, f.timestamp, is_ack),
            0,
        );
        assert(false);
    }
}

/// The acknowledgement that the peer sends for a frame takes the frame out of
/// the window.
pub proof fn law_acknowledged_frame_leaves(
    leg: LegModel,
    peer: LegModel,
    f: FrameModel,
    ts: u32,
    o: OutstandingModel,
)
    requires
        o.oseq == f.oseq,
    ensures
        ({
            let ack = FrameModel::parse(peer.received(f).ack(ts));
            &&& ack is Some
            &&& !leg.received(ack->0).outstanding.contains(o)
        }),
{
    let g = peer.received(f).frame(ts, frametype::IAX, iax::ACK, Seq::empty());
    crate::frame::law_command_roundtrip(g);
    law_serial_order(f.oseq, 0, 1);
    law_acknowledgement(leg, g.narrowed(), o);
}

/// A frame is sent again at most [`RETX_MAX`] times: each look at the clock
/// that sends it counts one more, and the count stays within the limit.
pub proof fn law_retransmissions_bounded(o: OutstandingModel, now: Instant)
    requires
        o.wf(),
    ensures
        o.checked_at(now).wf(),
        o.checked_at(now).bytes == o.bytes,
        o.resend(now) ==> o.checked_at(now).tries == o.tries + 1,
        !o.resend(now) ==> o.checked_at(now) == o,
        o.due(now) ==> o.resend(now) != o.hopeless(now),
{
}

} // verus!
