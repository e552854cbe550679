//! How the audio of a call keeps its time: mini frames carry half a timestamp,
//! and the driver gets whole ones, however long the call lasts.

use vstd::prelude::*;

use crate::client_laws::{law_timestamp_is_completed, law_timestamp_is_nearest, law_timestamp_low_bits};
use crate::client_model::{CallModel, CallState, ClientModel, EventModel};
use crate::frame::{full_frame, MiniModel};
use crate::time::Instant;

verus! {

/// The datagram is a mini frame of audio from a peer whose number leads to the
/// call `k`, and the call is up.
pub open spec fn brings_audio(m: ClientModel, dg: Seq<u8>, p: MiniModel, k: u16) -> bool {
    &&& !full_frame(dg)
    &&& MiniModel::parse(dg) == Some(p)
    &&& m.remote_index.contains_key(p.src_call)
    &&& m.remote_index[p.src_call] == k
    &&& m.calls[k].state == CallState::Up
}

/// How far two timestamps are apart.
pub open spec fn apart(a: u32, b: u32) -> int {
    if a >= b {
        a - b
    } else {
        b - a
    }
}

/// A mini frame of a call that is up: the driver gets its audio, octet for
/// octet, with a timestamp that ends in the frame's 16 bits; and that timestamp
/// is the one that the next mini frame follows. It is the nearest of its kind to
/// the one before, or, for the first of all, the 16 bits themselves. Nothing is
/// sent, and nothing else changes.
pub proof fn law_mini_audio_arrives(
    m: ClientModel,
    dg: Seq<u8>,
    p: MiniModel,
    k: u16,
    t: u32,
    now: Instant,
)
    requires
        m.wf(),
        brings_audio(m, dg, p, k),
    ensures
        ({
            let after = m.on_datagram(dg, now);
            let ts = after.calls[k].last_voice_ts;
            let last = m.calls[k].last_voice_ts;
            &&& after.events == m.events.push(
                EventModel::Voice { call: k, ts, ulaw: p.payload },
            )
            &&& after.calls == m.calls.insert(
                k,
                CallModel { last_voice_ts: ts, voice_ts_seen: true, ..m.calls[k] },
            )
            &&& after == (ClientModel { calls: after.calls, events: after.events, ..m })
            &&& ts % 0x1_0000 == p.timestamp16
            &&& !m.calls[k].voice_ts_seen ==> ts == p.timestamp16
            &&& m.calls[k].voice_ts_seen && t % 0x1_0000 == p.timestamp16 ==> apart(ts, last)
                <= apart(t, last) && (apart(ts, last) == apart(t, last) ==> ts <= t)
        }),
{
    let c = m.calls[k];
    law_timestamp_low_bits(c.last_voice_ts, p.timestamp16, c.voice_ts_seen);
    if c.voice_ts_seen && t % 0x1_0000 == p.timestamp16 {
        law_timestamp_is_nearest(c.last_voice_ts, p.timestamp16, t);
    }
    assert(m.on_datagram(dg, now) == m.on_mini(p));
}

/// A mini frame of anyone else, or of a call that is not up, changes nothing.
pub proof fn law_other_mini_audio_is_dropped(
    m: ClientModel,
    dg: Seq<u8>,
    p: MiniModel,
    now: Instant,
)
    requires
        m.wf(),
        !full_frame(dg),
        MiniModel::parse(dg) == Some(p),
        m.remote_index.contains_key(p.src_call) ==> m.calls[m.remote_index[p.src_call]].state
            != CallState::Up,
    ensures
        m.on_datagram(dg, now) == m,
{
}

/// A client after datagrams that arrived one by one, each at its instant.
pub open spec fn after_datagrams(m: ClientModel, dgs: Seq<(Seq<u8>, Instant)>) -> ClientModel
    decreases dgs.len(),
{
    if dgs.len() == 0 {
        m
    } else {
        after_datagrams(m, dgs.drop_last()).on_datagram(dgs.last().0, dgs.last().1)
    }
}

/// The true timestamps of a stream that goes on from `last`: each lies within
/// half the 16-bit range of the one before.
pub open spec fn goes_on(last: u32, times: Seq<u32>) -> bool {
    forall|i: int|
        0 <= i < times.len() ==> -0x8000 <= #[trigger] times[i] - (if i == 0 {
            last
        } else {
            times[i - 1]
        }) < 0x8000
}

/// However long a call lasts, every mini frame of its stream reaches the driver
/// with the sender's whole timestamp and with its own audio, in the order of
/// arrival.
pub proof fn law_long_calls_keep_their_time(
    m: ClientModel,
    k: u16,
    src: u16,
    dgs: Seq<(Seq<u8>, Instant)>,
    minis: Seq<MiniModel>,
    times: Seq<u32>,
)
    requires
        m.wf(),
        m.remote_index.contains_key(src),
        m.remote_index[src] == k,
        m.calls[k].state == CallState::Up,
        m.calls[k].voice_ts_seen,
        minis.len() == dgs.len(),
        times.len() == dgs.len(),
        goes_on(m.calls[k].last_voice_ts, times),
        forall|i: int|
            0 <= i < dgs.len() ==> !full_frame((#[trigger] dgs[i]).0) && MiniModel::parse(dgs[i].0)
                == Some(minis[i]) && minis[i].src_call == src && minis[i].timestamp16 == times[i]
                % 0x1_0000,
    ensures
        ({
            let after = after_datagrams(m, dgs);
            &&& after.events.len() == m.events.len() + dgs.len()
            &&& after.events.take(m.events.len() as int) == m.events
            &&& forall|i: int|
                0 <= i < dgs.len() ==> #[trigger] after.events[m.events.len() + i]
                    == (EventModel::Voice { call: k, ts: times[i], ulaw: minis[i].payload })
            &&& after.out == m.out
            &&& after.wf()
            &&& after.remote_index == m.remote_index
            &&& after.calls[k].state == CallState::Up
            &&& after.calls[k].voice_ts_seen
            &&& dgs.len() > 0 ==> after.calls[k].last_voice_ts == times.last()
            &&& dgs.len() == 0 ==> after.calls[k].last_voice_ts == m.calls[k].last_voice_ts
        }),
    decreases dgs.len(),
{
    if dgs.len() > 0 {
        let n = dgs.len() - 1;
        let most = dgs.drop_last();
        assert forall|i: int| 0 <= i < most.len() implies !full_frame((#[trigger] most[i]).0)
            && MiniModel::parse(most[i].0) == Some(minis.drop_last()[i])
            && minis.drop_last()[i].src_call == src && minis.drop_last()[i].timestamp16
            == times.drop_last()[i] % 0x1_0000 by {
            assert(most[i] == dgs[i]);
        }
        assert(goes_on(m.calls[k].last_voice_ts, times.drop_last())) by {
            let t = times.drop_last();
            assert forall|i: int| 0 <= i < t.len() implies -0x8000 <= #[trigger] t[i] - (if i == 0 {
                m.calls[k].last_voice_ts
            } else {
                t[i - 1]
            }) < 0x8000 by {
                assert(t[i] == times[i]);
            }
        }
        law_long_calls_keep_their_time(
            m,
            k,
            src,
            most,
            minis.drop_last(),
            times.drop_last(),
        );
        let b = after_datagrams(m, most);
        let after = after_datagrams(m, dgs);
        assert(dgs[n as int] == dgs.last());
        assert(times[n as int] == times.last());
        law_timestamp_is_completed(b.calls[k].last_voice_ts, times[n as int]);
        law_mini_audio_arrives(b, dgs.last().0, minis[n as int], k, times[n as int], dgs.last().1);
        crate::client_laws::law_datagram_keeps_invariant(b, dgs.last().0, dgs.last().1);
        assert(b.on_datagram(dgs.last().0, dgs.last().1) == b.on_mini(minis[n as int]));
        assert(after.events.take(m.events.len() as int) =~= b.events.take(m.events.len() as int));
        assert forall|i: int| 0 <= i < dgs.len() implies #[trigger] after.events[m.events.len() + i]
            == (EventModel::Voice { call: k, ts: times[i], ulaw: minis[i].payload }) by {
            if i < n {
                assert(after.events[m.events.len() + i] == b.events[m.events.len() + i]);
            }
        }
    } else {
        assert(m.events.take(m.events.len() as int) =~= m.events);
    }
}

} // verus!
