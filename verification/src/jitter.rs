//! Adaptive jitter buffer for audio in frames of 20 ms, with timestamps in
//! milliseconds.
//!
//! It keeps frames in the order of their timestamps, holds back as much audio
//! as the measured jitter of the arrivals calls for, and reports holes so that
//! the caller can conceal them. It decodes nothing.
//!
//! The estimate of the jitter itself is the caller's: [`JitterBuffer::push`]
//! returns how far off an arrival was, and [`JitterBuffer::recompute_target`]
//! takes the depth that follows from it.

use std::collections::BTreeMap;
use vstd::prelude::*;
use vstd::std_specs::btree::spec_keys_iter;
use vstd::std_specs::iter::IteratorSpec;

use crate::time::Instant;

verus! {

broadcast use vstd::laws_cmp::group_laws_cmp;

/// Length of a frame: 160 samples at 8 kHz.
pub const FRAME_MS: u32 = 20;

/// The target depth is never lower.
pub const MIN_DEPTH_MS: u32 = 40;

/// The target depth is never higher.
pub const MAX_DEPTH_MS: u32 = 200;

/// A stream that runs ahead of the cursor by more than this is taken up anew.
pub const RESYNC_LAG_MS: u32 = 400;

/// How many frames are kept at most: 2 s of audio.
pub const MAX_FRAMES: usize = 100;

/// The cursor is moved to the newest frame when the misses weigh more.
pub const MISS_BUDGET_THRESHOLD: u32 = 60;

/// How much the misses weigh less after a frame was played.
pub const MISS_BUDGET_DECAY_ON_PLAY: u32 = 3;

/// What there is to play.
#[derive(Debug, Clone, PartialEq)]
pub enum Pull {
    /// A payload to decode and play.
    Play(Vec<u8>),
    /// The frame is missing, but the stream goes on: conceal the hole.
    Conceal,
    /// The buffer fills up, or is empty: play silence.
    Silence,
}

/// What there is to play.
#[verifier::ext_equal]
pub ghost enum PullModel {
    Play(Seq<u8>),
    Conceal,
    Silence,
}

impl View for Pull {
    type V = PullModel;

    open spec fn view(&self) -> PullModel {
        match *self {
            Pull::Play(p) => PullModel::Play(p@),
            Pull::Conceal => PullModel::Conceal,
            Pull::Silence => PullModel::Silence,
        }
    }
}

/// Counters for diagnosis.
#[derive(Debug, Default, Clone, Copy)]
pub struct Stats {
    pub played: u64,
    pub concealed: u64,
    pub late: u64,
    pub overflow: u64,
    pub target_ms: u32,
    pub buffered: usize,
}

/// What a buffer holds.
#[verifier::ext_equal]
pub ghost struct JitterModel {
    pub frames: Map<u32, Seq<u8>>,
    pub next_ts: u32,
    pub playing: bool,
    pub target_ms: u32,
    pub last_arrival: Option<(u32, Instant)>,
    pub played: u64,
    pub concealed: u64,
    pub late: u64,
    pub overflow: u64,
    pub miss_budget: u32,
}

/// `k` is the lowest key.
pub open spec fn is_lowest<V>(m: Map<u32, V>, k: u32) -> bool {
    m.contains_key(k) && forall|j: u32| #[trigger] m.contains_key(j) ==> k <= j
}

/// `k` is the highest key.
pub open spec fn is_highest<V>(m: Map<u32, V>, k: u32) -> bool {
    m.contains_key(k) && forall|j: u32| #[trigger] m.contains_key(j) ==> j <= k
}

/// The lowest key of a map that is not empty.
pub open spec fn lowest<V>(m: Map<u32, V>) -> u32 {
    choose|k: u32| is_lowest(m, k)
}

/// The highest key of a map that is not empty.
pub open spec fn highest<V>(m: Map<u32, V>) -> u32 {
    choose|k: u32| is_highest(m, k)
}

/// A counter after one more event.
pub open spec fn counted(n: u64) -> u64 {
    ((n + 1) % 0x1_0000_0000_0000_0000) as u64
}

/// The timestamp of the frame after.
pub open spec fn next_frame(ts: u32) -> u32 {
    ((ts + FRAME_MS) % 0x1_0000_0000) as u32
}

impl JitterModel {
    /// An empty buffer.
    pub open spec fn new() -> JitterModel {
        JitterModel {
            frames: Map::empty(),
            next_ts: 0,
            playing: false,
            target_ms: MIN_DEPTH_MS,
            last_arrival: None,
            played: 0,
            concealed: 0,
            late: 0,
            overflow: 0,
            miss_budget: 0,
        }
    }

    /// What every operation keeps: the buffer is bounded, the target depth
    /// stays between its limits, and so does the weight of the misses.
    pub open spec fn wf(self) -> bool {
        &&& self.frames.dom().finite()
        &&& self.frames.dom().len() <= MAX_FRAMES
        &&& MIN_DEPTH_MS <= self.target_ms <= MAX_DEPTH_MS
        &&& self.miss_budget <= MISS_BUDGET_THRESHOLD + 1
    }

    /// How much audio is buffered, in milliseconds.
    pub open spec fn span_ms(self) -> u32 {
        if self.frames.dom().len() == 0 {
            0
        } else {
            ((highest(self.frames) - lowest(self.frames) + FRAME_MS) % 0x1_0000_0000) as u32
        }
    }

    /// The frame runs ahead of all that arrived before.
    pub open spec fn runs_ahead(self, ts: u32) -> bool {
        self.last_arrival is None || ts > (self.last_arrival->0).0
    }

    /// By how many milliseconds the pause before a frame differs from the
    /// pause that its timestamp tells; only frames that run ahead count.
    pub open spec fn deviation(self, ts: u32, now: Instant) -> Option<u64> {
        match self.last_arrival {
            Some((prev, at)) => if ts > prev {
                let d = now.ms_since(at) - (ts - prev);
                Some(
                    (if d >= 0 {
                        d
                    } else {
                        -d
                    }) as u64,
                )
            } else {
                None
            },
            None => None,
        }
    }

    /// A frame whose turn has passed.
    pub open spec fn is_late(self, ts: u32) -> bool {
        self.playing && ts < self.next_ts
    }

    /// A frame that the cursor would never catch up with.
    pub open spec fn is_far_ahead(self, ts: u32) -> bool {
        self.playing && ts - self.next_ts > RESYNC_LAG_MS
    }

    /// The buffer after a frame arrived.
    pub open spec fn pushed(self, ts: u32, payload: Seq<u8>, now: Instant) -> JitterModel {
        let noted = JitterModel {
            last_arrival: if self.runs_ahead(ts) {
                Some((ts, now))
            } else {
                self.last_arrival
            },
            ..self
        };
        if self.is_late(ts) {
            JitterModel { late: counted(self.late), ..noted }
        } else if self.is_far_ahead(ts) {
            JitterModel {
                frames: Map::empty().insert(ts, payload),
                playing: false,
                ..noted
            }
        } else {
            let frames = self.frames.insert(ts, payload);
            if frames.dom().len() > MAX_FRAMES {
                JitterModel {
                    frames: frames.remove(lowest(frames)),
                    overflow: counted(self.overflow),
                    ..noted
                }
            } else {
                JitterModel { frames, ..noted }
            }
        }
    }

    /// The buffer after it was seen whether enough is there to start playing.
    pub open spec fn primed(self) -> JitterModel {
        if !self.playing && self.span_ms() >= self.target_ms && self.frames.dom().len() > 0 {
            JitterModel { next_ts: lowest(self.frames), playing: true, ..self }
        } else {
            self
        }
    }

    /// The buffer after the cursor was moved, if there were too many misses.
    pub open spec fn anchored(self) -> JitterModel {
        if self.miss_budget > MISS_BUDGET_THRESHOLD {
            JitterModel {
                next_ts: if self.frames.dom().len() > 0 {
                    highest(self.frames)
                } else {
                    self.next_ts
                },
                miss_budget: 0,
                ..self
            }
        } else {
            self
        }
    }

    /// The buffer after the frame at the cursor was taken, and the frame.
    pub open spec fn stepped(self) -> (JitterModel, PullModel) {
        if self.frames.contains_key(self.next_ts) {
            (
                JitterModel {
                    frames: self.frames.remove(self.next_ts),
                    next_ts: next_frame(self.next_ts),
                    played: counted(self.played),
                    miss_budget: if self.miss_budget > MISS_BUDGET_DECAY_ON_PLAY {
                        (self.miss_budget - MISS_BUDGET_DECAY_ON_PLAY) as u32
                    } else {
                        0
                    },
                    ..self
                },
                PullModel::Play(self.frames[self.next_ts]),
            )
        } else if self.frames.dom().len() > 0 {
            (
                JitterModel {
                    next_ts: next_frame(self.next_ts),
                    concealed: counted(self.concealed),
                    miss_budget: (self.miss_budget + 1) as u32,
                    ..self
                },
                PullModel::Conceal,
            )
        } else {
            (JitterModel { playing: false, miss_budget: 0, ..self }, PullModel::Silence)
        }
    }

    /// The buffer after 20 ms were asked for, and what there is to play.
    pub open spec fn pulled(self) -> (JitterModel, PullModel) {
        let m = self.primed();
        if !m.playing {
            (m, PullModel::Silence)
        } else {
            m.anchored().stepped()
        }
    }

    /// The buffer after it was emptied for another call; the depth that was
    /// learnt, the counters and the cursor stay.
    pub open spec fn cleared(self) -> JitterModel {
        JitterModel {
            frames: Map::empty(),
            playing: false,
            last_arrival: None,
            miss_budget: 0,
            ..self
        }
    }

    /// The buffer with another target depth.
    pub open spec fn retargeted(self, depth_ms: u32) -> JitterModel {
        JitterModel {
            target_ms: if depth_ms < MIN_DEPTH_MS {
                MIN_DEPTH_MS
            } else if depth_ms > MAX_DEPTH_MS {
                MAX_DEPTH_MS
            } else {
                depth_ms
            },
            ..self
        }
    }
}

/// A jitter buffer.
#[derive(Debug)]
pub struct JitterBuffer {
    pub frames: BTreeMap<u32, Vec<u8>>,
    pub next_ts: u32,
    pub playing: bool,
    pub target_ms: u32,
    /// Timestamp and arrival of the frame that ran ahead last.
    pub last_arrival: Option<(u32, Instant)>,
    pub played: u64,
    pub concealed: u64,
    pub late: u64,
    pub overflow: u64,
    pub miss_budget: u32,
}

/// What a table of payloads holds.
pub open spec fn frames_view(frames: Map<u32, Vec<u8>>) -> Map<u32, Seq<u8>> {
    frames.map_values(|p: Vec<u8>| p@)
}

impl View for JitterBuffer {
    type V = JitterModel;

    open spec fn view(&self) -> JitterModel {
        JitterModel {
            frames: frames_view(self.frames@),
            next_ts: self.next_ts,
            playing: self.playing,
            target_ms: self.target_ms,
            last_arrival: self.last_arrival,
            played: self.played,
            concealed: self.concealed,
            late: self.late,
            overflow: self.overflow,
            miss_budget: self.miss_budget,
        }
    }
}

pub proof fn lemma_extremes<V>(m: Map<u32, V>, lo: u32, hi: u32)
    requires
        is_lowest(m, lo),
        is_highest(m, hi),
    ensures
        lowest(m) == lo,
        highest(m) == hi,
{
    let a = lowest(m);
    assert(is_lowest(m, a));
    assert(m.contains_key(a) && m.contains_key(lo));
    let b = highest(m);
    assert(is_highest(m, b));
    assert(m.contains_key(b) && m.contains_key(hi));
}

/// The lowest and the highest key.
fn extremes(frames: &BTreeMap<u32, Vec<u8>>) -> (r: Option<(u32, u32)>)
    ensures
        r is None <==> frames@.dom().len() == 0,
        r is Some ==> is_lowest(frames_view(frames@), (r->0).0) && is_highest(
            frames_view(frames@),
            (r->0).1,
        ),
        r is Some ==> lowest(frames_view(frames@)) == (r->0).0 && highest(frames_view(frames@))
            == (r->0).1,
{
    let ghost m = frames_view(frames@);
    let mut found: Option<(u32, u32)> = None;
    for k in it: frames.keys()
        invariant
            found is None <==> it.index() == 0,
            found is Some ==> exists|i: int| 0 <= i < it.index() && *it.seq()[i] == (found->0).0,
            found is Some ==> exists|i: int| 0 <= i < it.index() && *it.seq()[i] == (found->0).1,
            forall|i: int|
                0 <= i < it.index() ==> (found->0).0 <= *(#[trigger] it.seq()[i]) <= (found->0).1,
    {
        let ghost n = it.index();
        match found {
            None => {
                found = Some((*k, *k));
            },
            Some((lo, hi)) => {
                found = Some(
                    (
                        if *k < lo {
                            *k
                        } else {
                            lo
                        },
                        if *k > hi {
                            *k
                        } else {
                            hi
                        },
                    ),
                );
            },
        }
        assert(*it.seq()[n] == *k);
    }
    proof {
        let keys = spec_keys_iter(frames).remaining();
        assert(keys.unref().to_set() == frames@.dom());
        assert forall|k: u32| #[trigger] m.contains_key(k) implies found is Some && (found->0).0 <= k
            <= (found->0).1 by {
            assert(keys.unref().to_set().contains(k));
            assert(keys.unref().contains(k));
            let i = choose|i: int| 0 <= i < keys.unref().len() && keys.unref()[i] == k;
            assert(*keys[i] == k);
        }
        if found is Some {
            let i = choose|i: int| 0 <= i < keys.len() && *keys[i] == (found->0).0;
            assert(keys.unref()[i] == (found->0).0);
            assert(keys.unref().to_set().contains((found->0).0));
            let j = choose|j: int| 0 <= j < keys.len() && *keys[j] == (found->0).1;
            assert(keys.unref()[j] == (found->0).1);
            assert(keys.unref().to_set().contains((found->0).1));
            lemma_extremes(m, (found->0).0, (found->0).1);
        }
    }
    found
}

impl Default for JitterBuffer {
    fn default() -> (r: Self)
        ensures
            r@ == JitterModel::new(),
            r@.wf(),
    {
        Self::new()
    }
}

impl JitterBuffer {
    /// An empty buffer.
    pub fn new() -> (r: Self)
        ensures
            r@ == JitterModel::new(),
            r@.wf(),
    {
        let r = JitterBuffer {
            frames: BTreeMap::new(),
            next_ts: 0,
            playing: false,
            target_ms: MIN_DEPTH_MS,
            last_arrival: None,
            played: 0,
            concealed: 0,
            late: 0,
            overflow: 0,
            miss_budget: 0,
        };
        assert(r@ =~= JitterModel::new());
        r
    }

    /// Empties the buffer for another call. The target depth that was learnt and
    /// the counters stay.
    pub fn reset(&mut self)
        ensures
            final(self)@ == old(self)@.cleared(),
            old(self)@.wf() ==> final(self)@.wf(),
    {
        self.frames.clear();
        self.playing = false;
        self.last_arrival = None;
        self.miss_budget = 0;
        assert(self@ =~= old(self)@.cleared());
    }

    /// Sets the target depth, within its limits.
    pub fn recompute_target(&mut self, depth_ms: u32)
        ensures
            final(self)@ == old(self)@.retargeted(depth_ms),
            old(self)@.wf() ==> final(self)@.wf(),
    {
        self.target_ms = if depth_ms < MIN_DEPTH_MS {
            MIN_DEPTH_MS
        } else if depth_ms > MAX_DEPTH_MS {
            MAX_DEPTH_MS
        } else {
            depth_ms
        };
    }

    /// By how many milliseconds the pause before a frame differs from the
    /// pause that its timestamp tells; `None` unless the frame runs ahead of
    /// one that arrived before.
    fn deviation(&self, ts: u32, now: Instant) -> (r: Option<u64>)
        ensures
            r == self@.deviation(ts, now),
    {
        match self.last_arrival {
            Some((prev, at)) => {
                if ts > prev {
                    let pause = now.millis_since(at);
                    let told = (ts - prev) as u64;
                    Some(
                        if pause >= told {
                            pause - told
                        } else {
                            told - pause
                        },
                    )
                } else {
                    None
                }
            },
            None => None,
        }
    }

    /// Takes a frame that arrived. The result, where there is one, is how far
    /// off its arrival was, in milliseconds.
    pub fn push(&mut self, ts: u32, payload: Vec<u8>, now: Instant) -> (r: Option<u64>)
        requires
            old(self)@.wf(),
        ensures
            r == old(self)@.deviation(ts, now),
            final(self)@ == old(self)@.pushed(ts, payload@, now),
            final(self)@.wf(),
    {
        let deviation = self.deviation(ts, now);
        let ahead = match self.last_arrival {
            Some((prev, _)) => ts > prev,
            None => true,
        };
        if ahead {
            self.last_arrival = Some((ts, now));
        }
        if self.playing && ts < self.next_ts {
            self.late = self.late.wrapping_add(1);
            return deviation;
        }
        let ghost had = self@;
        if self.playing && ts - self.next_ts > RESYNC_LAG_MS {
            self.frames.clear();
            self.playing = false;
            assert(self@.frames =~= Map::empty());
        }
        let ghost before = self@.frames;
        self.frames.insert(ts, payload);
        let ghost frames = self@.frames;
        assert(frames =~= before.insert(ts, payload@));
        assert(frames.dom() =~= self.frames@.dom());
        if self.frames.len() > MAX_FRAMES {
            if let Some((oldest, _)) = extremes(&self.frames) {
                self.frames.remove(&oldest);
                self.overflow = self.overflow.wrapping_add(1);
                assert(self@.frames =~= frames.remove(oldest));
            }
        }
        deviation
    }

    /// Takes the next 20 ms to play.
    pub fn pull(&mut self) -> (r: Pull)
        requires
            old(self)@.wf(),
        ensures
            final(self)@ == old(self)@.pulled().0,
            r@ == old(self)@.pulled().1,
            final(self)@.wf(),
    {
        assert(self@.frames.dom() =~= self.frames@.dom());
        if !self.playing {
            if self.buffered_span_ms() >= self.target_ms {
                if let Some((first, _)) = extremes(&self.frames) {
                    self.next_ts = first;
                    self.playing = true;
                }
            }
            if !self.playing {
                return Pull::Silence;
            }
        }
        assert(self@ == old(self)@.primed());
        if self.miss_budget > MISS_BUDGET_THRESHOLD {
            if let Some((_, newest)) = extremes(&self.frames) {
                self.next_ts = newest;
            }
            self.miss_budget = 0;
        }
        let ghost m = self@;
        assert(m == old(self)@.primed().anchored());
        match self.frames.remove(&self.next_ts) {
            Some(payload) => {
                assert(self@.frames =~= m.frames.remove(m.next_ts));
                self.next_ts = self.next_ts.wrapping_add(FRAME_MS);
                self.played = self.played.wrapping_add(1);
                self.miss_budget = self.miss_budget.saturating_sub(MISS_BUDGET_DECAY_ON_PLAY);
                Pull::Play(payload)
            },
            None => {
                assert(self@.frames =~= m.frames);
                assert(self@.frames.dom() =~= self.frames@.dom());
                if self.frames.len() > 0 {
                    self.next_ts = self.next_ts.wrapping_add(FRAME_MS);
                    self.concealed = self.concealed.wrapping_add(1);
                    self.miss_budget = self.miss_budget + 1;
                    Pull::Conceal
                } else {
                    self.playing = false;
                    self.miss_budget = 0;
                    Pull::Silence
                }
            },
        }
    }

    /// The counters, the target depth and how many frames are buffered.
    pub fn stats(&self) -> (r: Stats)
        ensures
            r.played == self@.played,
            r.concealed == self@.concealed,
            r.late == self@.late,
            r.overflow == self@.overflow,
            r.target_ms == self@.target_ms,
            r.buffered == self@.frames.dom().len(),
    {
        assert(self@.frames.dom() =~= self.frames@.dom());
        Stats {
            played: self.played,
            concealed: self.concealed,
            late: self.late,
            overflow: self.overflow,
            target_ms: self.target_ms,
            buffered: self.frames.len(),
        }
    }

    /// How much audio is buffered, in milliseconds.
    fn buffered_span_ms(&self) -> (r: u32)
        ensures
            r == self@.span_ms(),
    {
        assert(self@.frames.dom() =~= self.frames@.dom());
        match extremes(&self.frames) {
            Some((lo, hi)) => {
                assert(self@.frames.contains_key(lo));
                (hi - lo).wrapping_add(FRAME_MS)
            },
            None => 0,
        }
    }
}

/// The buffer after `n` times 20 ms were asked for.
pub open spec fn after_pulls(m: JitterModel, n: nat) -> JitterModel
    decreases n,
{
    if n == 0 {
        m
    } else {
        after_pulls(m, (n - 1) as nat).pulled().0
    }
}

/// What comes out the next time, after `n` times 20 ms were asked for.
pub open spec fn nth_pull(m: JitterModel, n: nat) -> PullModel {
    after_pulls(m, n).pulled().1
}

/// Frames that follow each other come out one by one in the order of their
/// timestamps, each with its own payload, in whatever order they arrived.
pub proof fn law_plays_in_order(m: JitterModel, n: nat, i: nat)
    requires
        m.playing,
        m.miss_budget <= MISS_BUDGET_THRESHOLD,
        m.next_ts + n * FRAME_MS <= u32::MAX,
        forall|j: int|
            0 <= j < n ==> #[trigger] m.frames.contains_key((m.next_ts + j * FRAME_MS) as u32),
        i < n,
    ensures
        nth_pull(m, i) == PullModel::Play(m.frames[(m.next_ts + i * FRAME_MS) as u32]),
{
    lemma_run(m, n, i);
    assert(m.frames.contains_key((m.next_ts + i * FRAME_MS) as u32));
}

proof fn lemma_run(m: JitterModel, n: nat, i: nat)
    requires
        m.playing,
        m.miss_budget <= MISS_BUDGET_THRESHOLD,
        m.next_ts + n * FRAME_MS <= u32::MAX,
        forall|j: int|
            0 <= j < n ==> #[trigger] m.frames.contains_key((m.next_ts + j * FRAME_MS) as u32),
        i <= n,
    ensures
        ({
            let s = after_pulls(m, i);
            &&& s.playing
            &&& s.miss_budget <= MISS_BUDGET_THRESHOLD
            &&& s.next_ts == m.next_ts + i * FRAME_MS
            &&& forall|k: u32|
                k >= s.next_ts && m.frames.contains_key(k) ==> #[trigger] s.frames.contains_key(k)
                    && s.frames[k] == m.frames[k]
        }),
    decreases i,
{
    if i > 0 {
        lemma_run(m, n, (i - 1) as nat);
        let s = after_pulls(m, (i - 1) as nat);
        assert(m.frames.contains_key((m.next_ts + (i - 1) * FRAME_MS) as u32));
        assert(s.frames.contains_key(s.next_ts));
    }
}

/// While the buffer fills up, the order in which two frames arrive makes no
/// difference to what is buffered.
pub proof fn law_arrival_order_is_no_matter(
    m: JitterModel,
    a: u32,
    x: Seq<u8>,
    b: u32,
    y: Seq<u8>,
    first: Instant,
    second: Instant,
)
    requires
        m.frames.dom().finite(),
        !m.playing,
        a != b,
        m.frames.dom().len() + 2 <= MAX_FRAMES,
    ensures
        m.pushed(a, x, first).pushed(b, y, second).frames == m.pushed(b, y, first).pushed(
            a,
            x,
            second,
        ).frames,
        m.pushed(a, x, first).pushed(b, y, second).frames == m.frames.insert(a, x).insert(b, y),
{
    assert(m.frames.insert(a, x).insert(b, y) =~= m.frames.insert(b, y).insert(a, x));
}

/// A change of call keeps the depth that was learnt, and the counters; nothing
/// of the call before is played.
pub proof fn law_reset_keeps_what_was_learnt(m: JitterModel)
    requires
        m.wf(),
    ensures
        m.cleared().wf(),
        m.cleared().target_ms == m.target_ms,
        m.cleared().played == m.played,
        m.cleared().concealed == m.concealed,
        m.cleared().late == m.late,
        m.cleared().overflow == m.overflow,
        m.cleared().frames.dom().len() == 0,
        m.cleared().pulled() == (m.cleared(), PullModel::Silence),
{
}

/// A hole in the stream is reported, and the stream goes on behind it: nothing
/// that is buffered is lost.
pub proof fn law_hole_is_concealed(m: JitterModel)
    requires
        m.wf(),
        m.playing,
        m.miss_budget <= MISS_BUDGET_THRESHOLD,
        !m.frames.contains_key(m.next_ts),
        m.frames.dom().len() > 0,
    ensures
        m.pulled().1 == PullModel::Conceal,
        m.pulled().0.frames == m.frames,
        m.pulled().0.next_ts == next_frame(m.next_ts),
        m.pulled().0.concealed == counted(m.concealed),
{
}

/// A frame whose turn has passed is counted and dropped.
pub proof fn law_late_frame_is_dropped(m: JitterModel, ts: u32, payload: Seq<u8>, now: Instant)
    requires
        m.playing,
        ts < m.next_ts,
    ensures
        m.pushed(ts, payload, now).frames == m.frames,
        m.pushed(ts, payload, now).next_ts == m.next_ts,
        m.pushed(ts, payload, now).late == counted(m.late),
{
}

/// A stream that jumps far ahead is taken up anew: what is stale is dropped,
/// and playing starts over with the first frame of the new run.
pub proof fn law_jump_is_taken_up(
    m: JitterModel,
    ts: u32,
    payload: Seq<u8>,
    now: Instant,
)
    requires
        m.playing,
        ts > m.next_ts + RESYNC_LAG_MS,
    ensures
        !m.pushed(ts, payload, now).playing,
        m.pushed(ts, payload, now).frames == Map::<u32, Seq<u8>>::empty().insert(ts, payload),
{
}

/// A buffer that fills up plays silence until it spans the target depth; the
/// first frame that it then plays is the oldest.
pub proof fn law_waits_for_depth(m: JitterModel)
    requires
        m.wf(),
        !m.playing,
        m.miss_budget <= MISS_BUDGET_THRESHOLD,
    ensures
        m.span_ms() < m.target_ms ==> m.pulled() == (m, PullModel::Silence),
        m.span_ms() >= m.target_ms ==> m.frames.contains_key(lowest(m.frames)) && m.pulled().1
            == PullModel::Play(m.frames[lowest(m.frames)]),
{
    if m.span_ms() >= m.target_ms {
        lemma_lowest_exists(m.frames);
    }
}

pub proof fn lemma_lowest_exists<V>(m: Map<u32, V>)
    requires
        m.dom().finite(),
        m.dom().len() > 0,
    ensures
        is_lowest(m, lowest(m)),
        is_highest(m, highest(m)),
    decreases m.dom().len(),
{
    let k = m.dom().choose();
    assert(m.contains_key(k));
    if m.dom().len() == 1 {
        assert forall|j: u32| #[trigger] m.contains_key(j) implies j == k by {
            if j != k {
                assert(m.dom().remove(k).contains(j));
                assert(m.dom().remove(k).len() == 0);
            }
        }
        assert(is_lowest(m, k) && is_highest(m, k));
    } else {
        let r = m.remove(k);
        assert(r.dom() =~= m.dom().remove(k));
        lemma_lowest_exists(r);
        let lo = if lowest(r) < k {
            lowest(r)
        } else {
            k
        };
        let hi = if highest(r) > k {
            highest(r)
        } else {
            k
        };
        assert forall|j: u32| #[trigger] m.contains_key(j) implies lo <= j <= hi by {
            if j != k {
                assert(r.contains_key(j));
            }
        }
        assert(r.contains_key(lowest(r)) && r.contains_key(highest(r)));
        assert(is_lowest(m, lo) && is_highest(m, hi));
    }
}

/// A stream that plays never gets stuck: as long as something is buffered, a
/// frame is played after at most 61 holes.
pub proof fn law_never_stuck(m: JitterModel) -> (n: nat)
    requires
        m.wf(),
        m.playing,
        m.frames.dom().len() > 0,
    ensures
        n <= MISS_BUDGET_THRESHOLD + 1 - m.miss_budget,
        nth_pull(m, n) is Play,
        forall|i: nat| i < n ==> #[trigger] nth_pull(m, i) == PullModel::Conceal,
    decreases MISS_BUDGET_THRESHOLD + 1 - m.miss_budget,
{
    if m.miss_budget > MISS_BUDGET_THRESHOLD {
        lemma_lowest_exists(m.frames);
        assert(after_pulls(m, 0) == m);
        0
    } else if m.frames.contains_key(m.next_ts) {
        assert(after_pulls(m, 0) == m);
        0
    } else {
        let next = m.pulled().0;
        let n = law_never_stuck(next);
        assert forall|i: nat| true implies #[trigger] after_pulls(next, i) == after_pulls(
            m,
            i + 1,
        ) by {
            lemma_pulls_shift(m, i);
        }
        assert(after_pulls(next, n) == after_pulls(m, n + 1));
        assert forall|i: nat| i < n + 1 implies #[trigger] nth_pull(m, i) == PullModel::Conceal by {
            if i == 0 {
                assert(after_pulls(m, 0) == m);
            } else {
                assert(after_pulls(next, (i - 1) as nat) == after_pulls(m, i));
                assert(nth_pull(next, (i - 1) as nat) == PullModel::Conceal);
            }
        }
        n + 1
    }
}

proof fn lemma_pulls_shift(m: JitterModel, i: nat)
    ensures
        after_pulls(m.pulled().0, i) == after_pulls(m, i + 1),
    decreases i,
{
    if i > 0 {
        lemma_pulls_shift(m, (i - 1) as nat);
    } else {
        assert(after_pulls(m, 1) == after_pulls(m, 0).pulled().0);
    }
}

/// A buffer that nobody empties drops its oldest frame for each new one.
pub proof fn law_full_buffer_drops_the_oldest(
    m: JitterModel,
    ts: u32,
    payload: Seq<u8>,
    now: Instant,
)
    requires
        m.wf(),
        m.frames.dom().len() == MAX_FRAMES,
        !m.frames.contains_key(ts),
        !m.is_late(ts),
        !m.is_far_ahead(ts),
    ensures
        ({
            let after = m.pushed(ts, payload, now);
            let all = m.frames.insert(ts, payload);
            &&& is_lowest(all, lowest(all))
            &&& after.frames == all.remove(lowest(all))
            &&& after.frames.dom().len() == MAX_FRAMES
            &&& after.overflow == counted(m.overflow)
        }),
{
    lemma_lowest_exists(m.frames.insert(ts, payload));
}

} // verus!
