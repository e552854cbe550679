//! What goes into the jitter buffer and what comes out of it, case by case, in
//! terms of timestamps and payloads alone.

use vstd::prelude::*;

use crate::jitter::{is_highest, is_lowest, lemma_extremes, lemma_lowest_exists, JitterModel, PullModel};
use crate::time::Instant;

verus! {

/// A new buffer is empty, waits for 40 ms of audio and has counted nothing.
pub proof fn law_new_buffer()
    ensures
        JitterModel::new().frames.dom().len() == 0,
        !JitterModel::new().playing,
        JitterModel::new().target_ms == 40,
        JitterModel::new().last_arrival is None,
        JitterModel::new().played == 0 && JitterModel::new().concealed == 0,
        JitterModel::new().late == 0 && JitterModel::new().overflow == 0,
        JitterModel::new().miss_budget == 0,
{
}

/// The depth is what is asked for, but never less than 40 ms nor more than
/// 200 ms; nothing else changes.
pub proof fn law_depth_within_limits(m: JitterModel, depth_ms: u32)
    ensures
        40 <= m.retargeted(depth_ms).target_ms <= 200,
        40 <= depth_ms <= 200 ==> m.retargeted(depth_ms).target_ms == depth_ms,
        depth_ms < 40 ==> m.retargeted(depth_ms).target_ms == 40,
        depth_ms > 200 ==> m.retargeted(depth_ms).target_ms == 200,
        m.retargeted(depth_ms) == (JitterModel {
            target_ms: m.retargeted(depth_ms).target_ms,
            ..m
        }),
{
}

// --- arrivals -----------------------------------------------------------------

/// The frame that ran ahead last is remembered, with its arrival; a frame that
/// was overtaken is not.
pub open spec fn remembers(before: JitterModel, after: JitterModel, ts: u32, now: Instant) -> bool {
    after.last_arrival == match before.last_arrival {
        Some((prev, at)) => if ts > prev {
            Some((ts, now))
        } else {
            Some((prev, at))
        },
        None => Some((ts, now)),
    }
}

/// There is room for the frame, or it replaces one with its timestamp.
pub open spec fn has_room(m: JitterModel, ts: u32) -> bool {
    m.frames.dom().len() < 100 || m.frames.contains_key(ts)
}

/// A frame whose turn has not passed, and that is at most 400 ms ahead of the
/// cursor, is stored under its timestamp, whatever arrived before it: nothing
/// else that is buffered, counted or played changes. So is every frame while
/// nothing is played.
pub proof fn law_frame_in_time_is_stored(m: JitterModel, ts: u32, payload: Seq<u8>, now: Instant)
    requires
        m.wf(),
        m.playing ==> m.next_ts <= ts <= m.next_ts + 400,
        has_room(m, ts),
    ensures
        ({
            let after = m.pushed(ts, payload, now);
            &&& after.frames == m.frames.insert(ts, payload)
            &&& after == (JitterModel {
                frames: after.frames,
                last_arrival: after.last_arrival,
                ..m
            })
            &&& remembers(m, after, ts, now)
        }),
{
    if m.frames.contains_key(ts) {
        assert(m.frames.insert(ts, payload).dom() =~= m.frames.dom());
    }
}

/// The buffer after frames that arrived one by one, each at its instant.
pub open spec fn after_pushes(m: JitterModel, fs: Seq<(u32, Seq<u8>, Instant)>) -> JitterModel
    decreases fs.len(),
{
    if fs.len() == 0 {
        m
    } else {
        let f = fs.last();
        after_pushes(m, fs.drop_last()).pushed(f.0, f.1, f.2)
    }
}

/// Frames of different timestamps that arrive in any order, before their turn
/// and not too far ahead, are all in the buffer afterwards, each with its own
/// payload; none is counted late, and what was there is still there.
pub proof fn law_any_order_is_stored(m: JitterModel, fs: Seq<(u32, Seq<u8>, Instant)>)
    requires
        m.wf(),
        m.frames.dom().len() + fs.len() <= 100,
        forall|i: int|
            0 <= i < fs.len() && m.playing ==> m.next_ts <= (#[trigger] fs[i]).0 <= m.next_ts + 400,
        forall|i: int, j: int|
            0 <= i < j < fs.len() ==> (#[trigger] fs[i]).0 != (#[trigger] fs[j]).0,
        forall|i: int| 0 <= i < fs.len() ==> !m.frames.contains_key((#[trigger] fs[i]).0),
    ensures
        ({
            let after = after_pushes(m, fs);
            &&& after == (JitterModel {
                frames: after.frames,
                last_arrival: after.last_arrival,
                ..m
            })
            &&& after.frames.dom().finite()
            &&& after.frames.dom().len() == m.frames.dom().len() + fs.len()
            &&& forall|i: int|
                0 <= i < fs.len() ==> after.frames.contains_key((#[trigger] fs[i]).0)
                    && after.frames[fs[i].0] == fs[i].1
            &&& forall|k: u32| #[trigger]
                m.frames.contains_key(k) ==> after.frames.contains_key(k) && after.frames[k]
                    == m.frames[k]
            &&& forall|k: u32| #[trigger]
                after.frames.contains_key(k) ==> m.frames.contains_key(k) || exists|i: int|
                    0 <= i < fs.len() && (#[trigger] fs[i]).0 == k
        }),
    decreases fs.len(),
{
    if fs.len() > 0 {
        let most = fs.drop_last();
        assert forall|i: int| 0 <= i < most.len() implies #[trigger] most[i] == fs[i] by {}
        law_any_order_is_stored(m, most);
        let b = after_pushes(m, most);
        let f = fs.last();
        assert(fs[fs.len() - 1] == f);
        if b.frames.contains_key(f.0) {
            assert(m.frames.contains_key(f.0) || exists|i: int|
                0 <= i < most.len() && (#[trigger] most[i]).0 == f.0);
            if !m.frames.contains_key(f.0) {
                let i = choose|i: int| 0 <= i < most.len() && (#[trigger] most[i]).0 == f.0;
                assert(fs[i].0 == fs[fs.len() - 1].0);
            }
        }
        law_frame_in_time_is_stored(b, f.0, f.1, f.2);
        let after = after_pushes(m, fs);
        assert(after.frames == b.frames.insert(f.0, f.1));
        assert forall|i: int| 0 <= i < fs.len() implies after.frames.contains_key(
            (#[trigger] fs[i]).0,
        ) && after.frames[fs[i].0] == fs[i].1 by {
            if i < most.len() {
                assert(most[i] == fs[i]);
                assert(fs[i].0 != fs[fs.len() - 1].0);
            }
        }
        assert forall|k: u32| #[trigger] after.frames.contains_key(k) implies m.frames.contains_key(
            k,
        ) || exists|i: int| 0 <= i < fs.len() && (#[trigger] fs[i]).0 == k by {
            if k == f.0 {
                assert(fs[fs.len() - 1].0 == k);
            } else {
                assert(b.frames.contains_key(k));
                if !m.frames.contains_key(k) {
                    let i = choose|i: int| 0 <= i < most.len() && (#[trigger] most[i]).0 == k;
                    assert(fs[i].0 == k);
                }
            }
        }
    }
}

/// A frame whose turn has passed is counted as late, and is the only kind that
/// is: nothing that is buffered or played changes.
pub proof fn law_only_late_frames_are_late(m: JitterModel, ts: u32, payload: Seq<u8>, now: Instant)
    requires
        m.wf(),
        m.late < u64::MAX,
    ensures
        ({
            let after = m.pushed(ts, payload, now);
            &&& m.playing && ts < m.next_ts ==> after == (JitterModel {
                late: (m.late + 1) as u64,
                last_arrival: after.last_arrival,
                ..m
            })
            &&& !(m.playing && ts < m.next_ts) ==> after.late == m.late
                && after.frames.contains_key(ts) == (has_room(m, ts) || m.playing && ts > m.next_ts
                + 400 || exists|k: u32| #[trigger] m.frames.contains_key(k) && k < ts)
                && (after.frames.contains_key(ts) ==> after.frames[ts] == payload)
            &&& remembers(m, after, ts, now)
            &&& after.played == m.played && after.concealed == m.concealed
            &&& after.next_ts == m.next_ts && after.target_ms == m.target_ms
            &&& after.miss_budget == m.miss_budget
        }),
{
    let all = m.frames.insert(ts, payload);
    if m.frames.contains_key(ts) {
        assert(all.dom() =~= m.frames.dom());
    } else if m.frames.dom().len() == 100 {
        lemma_lowest_exists(all);
        let lo = crate::jitter::lowest(all);
        if exists|k: u32| #[trigger] m.frames.contains_key(k) && k < ts {
            let k = choose|k: u32| #[trigger] m.frames.contains_key(k) && k < ts;
            assert(all.contains_key(k));
            assert(lo <= k);
        } else {
            assert(m.frames.contains_key(lo) ==> lo >= ts);
            assert(lo <= ts) by {
                assert(all.contains_key(ts));
            }
            assert(lo == ts);
        }
    }
}

/// A frame more than 400 ms ahead of the cursor starts the buffer over: it
/// alone is buffered, and nothing is played until the buffer has filled up.
pub proof fn law_jump_starts_over(m: JitterModel, ts: u32, payload: Seq<u8>, now: Instant)
    requires
        m.wf(),
        m.playing,
        ts > m.next_ts + 400,
    ensures
        ({
            let after = m.pushed(ts, payload, now);
            &&& after == (JitterModel {
                frames: after.frames,
                playing: false,
                last_arrival: after.last_arrival,
                ..m
            })
            &&& forall|k: u32| #[trigger] after.frames.contains_key(k) <==> k == ts
            &&& after.frames[ts] == payload
            &&& remembers(m, after, ts, now)
        }),
{
}

/// A full buffer of 100 frames loses its oldest, and only that, for a new one;
/// the loss is counted.
pub proof fn law_full_buffer_makes_room(m: JitterModel, ts: u32, payload: Seq<u8>, now: Instant)
    requires
        m.wf(),
        m.frames.dom().len() == 100,
        !m.frames.contains_key(ts),
        m.playing ==> m.next_ts <= ts <= m.next_ts + 400,
        m.overflow < u64::MAX,
    ensures
        ({
            let after = m.pushed(ts, payload, now);
            &&& after == (JitterModel {
                frames: after.frames,
                overflow: (m.overflow + 1) as u64,
                last_arrival: after.last_arrival,
                ..m
            })
            &&& after.frames.dom().len() == 100
            &&& exists|old: u32|
                (old == ts || #[trigger] m.frames.contains_key(old)) && !after.frames.contains_key(
                    old,
                ) && old <= ts && (forall|k: u32| #[trigger] m.frames.contains_key(k) ==> old <= k)
                    && forall|k: u32| #[trigger]
                    after.frames.contains_key(k) <==> k != old && (k == ts
                        || m.frames.contains_key(k))
            &&& forall|k: u32| #[trigger]
                after.frames.contains_key(k) ==> after.frames[k] == if k == ts {
                    payload
                } else {
                    m.frames[k]
                }
        }),
{
    let all = m.frames.insert(ts, payload);
    lemma_lowest_exists(all);
    let lo = crate::jitter::lowest(all);
    let after = m.pushed(ts, payload, now);
    assert(after.frames == all.remove(lo));
    assert(all.contains_key(ts));
    assert forall|k: u32| #[trigger] m.frames.contains_key(k) implies lo <= k by {
        assert(all.contains_key(k));
    }
    assert(lo == ts || m.frames.contains_key(lo));
    if lo == ts {
        assert(m.frames.contains_key(lo) == false);
    }
}

/// How far off an arrival is: the milliseconds between the two pauses, that of
/// the clock and that of the timestamps, since the frame that ran ahead last;
/// only a frame that runs ahead of one is measured.
pub proof fn law_deviation_of_an_arrival(m: JitterModel, ts: u32, now: Instant)
    ensures
        m.deviation(ts, now) is Some <==> m.last_arrival is Some && ts > (m.last_arrival->0).0,
        m.deviation(ts, now) is Some ==> {
            let (prev, at) = m.last_arrival->0;
            let clock = if now.nanos >= at.nanos {
                (now.nanos - at.nanos) / 1_000_000
            } else {
                0
            };
            let told = ts - prev;
            m.deviation(ts, now)->0 == if clock >= told {
                clock - told
            } else {
                told - clock
            }
        },
{
}

// --- playing ------------------------------------------------------------------

/// The frame whose turn it is comes out with its payload and leaves the buffer,
/// the cursor goes on by 20 ms, and the misses weigh three less.
pub proof fn law_frame_at_its_turn_is_played(m: JitterModel)
    requires
        m.wf(),
        m.playing,
        m.miss_budget <= 60,
        m.frames.contains_key(m.next_ts),
        m.played < u64::MAX,
        m.next_ts <= u32::MAX - 20,
    ensures
        m.pulled().1 == PullModel::Play(m.frames[m.next_ts]),
        m.pulled().0 == (JitterModel {
            frames: m.frames.remove(m.next_ts),
            next_ts: (m.next_ts + 20) as u32,
            played: (m.played + 1) as u64,
            miss_budget: if m.miss_budget >= 3 {
                (m.miss_budget - 3) as u32
            } else {
                0
            },
            ..m
        }),
{
}

/// A frame that is missing at its turn, while later ones wait, is concealed: the
/// cursor goes on by 20 ms, the hole is counted, and nothing leaves the buffer.
pub proof fn law_missing_frame_is_concealed(m: JitterModel)
    requires
        m.wf(),
        m.playing,
        m.miss_budget <= 60,
        !m.frames.contains_key(m.next_ts),
        m.frames.dom().len() > 0,
        m.concealed < u64::MAX,
        m.next_ts <= u32::MAX - 20,
    ensures
        m.pulled().1 == PullModel::Conceal,
        m.pulled().0 == (JitterModel {
            next_ts: (m.next_ts + 20) as u32,
            concealed: (m.concealed + 1) as u64,
            miss_budget: (m.miss_budget + 1) as u32,
            ..m
        }),
{
}

/// A buffer that runs empty falls silent and fills up again; the misses are
/// forgotten.
pub proof fn law_empty_buffer_falls_silent(m: JitterModel)
    requires
        m.wf(),
        m.playing,
        m.frames.dom().len() == 0,
    ensures
        m.pulled().1 == PullModel::Silence,
        m.pulled().0 == (JitterModel { playing: false, miss_budget: 0, ..m }),
{
    assert(!m.frames.contains_key(m.next_ts)) by {
        if m.frames.contains_key(m.next_ts) {
            assert(m.frames.dom().contains(m.next_ts));
        }
    }
}

/// After too many misses, the newest frame is played and the cursor goes on
/// behind it.
pub proof fn law_too_many_misses_jump_to_the_newest(m: JitterModel, newest: u32)
    requires
        m.wf(),
        m.playing,
        m.miss_budget > 60,
        m.frames.contains_key(newest),
        forall|k: u32| #[trigger] m.frames.contains_key(k) ==> k <= newest,
        m.played < u64::MAX,
        newest <= u32::MAX - 20,
    ensures
        m.pulled().1 == PullModel::Play(m.frames[newest]),
        m.pulled().0 == (JitterModel {
            frames: m.frames.remove(newest),
            next_ts: (newest + 20) as u32,
            played: (m.played + 1) as u64,
            miss_budget: 0,
            ..m
        }),
{
    assert(m.frames.dom().contains(newest));
    lemma_lowest_exists(m.frames);
    assert(is_highest(m.frames, newest));
    lemma_extremes(m.frames, crate::jitter::lowest(m.frames), newest);
}

/// While the buffer fills up there is silence, and nothing changes, until the
/// oldest and the newest frame span the target depth; then the oldest frame is
/// played, and the cursor goes on behind it.
pub proof fn law_playing_starts_at_the_depth(m: JitterModel, oldest: u32, newest: u32)
    requires
        m.wf(),
        !m.playing,
        m.miss_budget <= 60,
        m.frames.contains_key(oldest),
        m.frames.contains_key(newest),
        forall|k: u32| #[trigger] m.frames.contains_key(k) ==> oldest <= k <= newest,
        newest - oldest <= u32::MAX - 20,
        oldest <= u32::MAX - 20,
        m.played < u64::MAX,
    ensures
        newest - oldest + 20 < m.target_ms ==> m.pulled() == (m, PullModel::Silence),
        newest - oldest + 20 >= m.target_ms ==> m.pulled().1 == PullModel::Play(m.frames[oldest])
            && m.pulled().0 == (JitterModel {
            frames: m.frames.remove(oldest),
            next_ts: (oldest + 20) as u32,
            playing: true,
            played: (m.played + 1) as u64,
            miss_budget: if m.miss_budget >= 3 {
                (m.miss_budget - 3) as u32
            } else {
                0
            },
            ..m
        }),
{
    assert(m.frames.dom().contains(oldest));
    assert(is_lowest(m.frames, oldest) && is_highest(m.frames, newest));
    lemma_extremes(m.frames, oldest, newest);
}

/// Without a frame a buffer that fills up is silent, and stays as it is.
pub proof fn law_nothing_to_play(m: JitterModel)
    requires
        m.wf(),
        !m.playing,
        m.frames.dom().len() == 0,
    ensures
        m.pulled() == (m, PullModel::Silence),
{
}

/// A change of call empties the buffer and starts its filling over; the cursor,
/// the depth and the counters are those from before.
pub proof fn law_change_of_call(m: JitterModel)
    ensures
        m.cleared().frames == Map::<u32, Seq<u8>>::empty(),
        !m.cleared().playing,
        m.cleared().last_arrival is None,
        m.cleared().miss_budget == 0,
        m.cleared() == (JitterModel {
            frames: Map::empty(),
            playing: false,
            last_arrival: None,
            miss_budget: 0,
            ..m
        }),
{
}

} // verus!
