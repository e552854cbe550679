//! Queues of samples between the audio devices and the calls.

use std::collections::VecDeque;
use vstd::prelude::*;

verus! {

/// The sample rate of the calls.
pub const SAMPLE_RATE: u32 = 8000;

/// Samples in a frame of 20 ms.
pub const FRAME_SAMPLES: usize = 160;

/// How much audio waits to be played at most, in milliseconds.
pub const PLAY_CAP_MS: u32 = 200;

/// How many recorded samples wait to be sent at most.
pub const CAPTURE_CAP: usize = 48_000;

/// The shortest block that a resampler works on.
pub const CHUNK_MIN: usize = 128;

/// The newest `cap` items.
pub open spec fn newest<T>(s: Seq<T>, cap: int) -> Seq<T> {
    if s.len() > cap {
        s.skip(s.len() - cap)
    } else {
        s
    }
}

/// Drops the oldest items of a queue until no more than `cap` are left.
pub fn trim_to<T>(q: &mut VecDeque<T>, cap: usize)
    ensures
        final(q)@ == newest(old(q)@, cap as int),
{
    assert(q@.skip(0) =~= q@);
    let ghost mut dropped: int = 0;
    while q.len() > cap
        invariant
            0 <= dropped <= old(q)@.len(),
            q@ == old(q)@.skip(dropped),
            dropped > 0 ==> q@.len() >= cap,
        decreases q@.len(),
    {
        let ghost before = q@;
        let _ = q.pop_front();
        proof {
            assert(before.subrange(1, before.len() as int) =~= old(q)@.skip(dropped + 1));
            dropped = dropped + 1;
        }
    }
    assert(q@ =~= newest(old(q)@, cap as int));
}

/// Appends an item to a queue and drops the oldest ones beyond `cap`.
pub fn push_capped<T>(q: &mut VecDeque<T>, item: T, cap: usize)
    ensures
        final(q)@ == newest(old(q)@.push(item), cap as int),
{
    q.push_back(item);
    trim_to(q, cap);
}

/// Appends items to a queue and drops the oldest ones beyond `cap`: better a gap
/// than a growing delay.
pub fn extend_capped<T>(q: &mut VecDeque<T>, items: Vec<T>, cap: usize)
    ensures
        final(q)@ == newest(old(q)@ + items@, cap as int),
{
    let ghost had = q@;
    assert(had + items@.take(0) =~= had);
    for item in it: items
        invariant
            it.seq() == items@,
            q@ == had + items@.take(it.index()),
    {
        q.push_back(item);
        assert(had + items@.take(it.index() + 1) =~= (had + items@.take(it.index())).push(item));
    }
    assert(items@.take(items@.len() as int) =~= items@);
    trim_to(q, cap);
}

/// Items that are taken out in chunks of a fixed length.
#[derive(Debug)]
pub struct ChunkQueue<T> {
    pub items: VecDeque<T>,
}

impl<T> View for ChunkQueue<T> {
    type V = Seq<T>;

    open spec fn view(&self) -> Seq<T> {
        self.items@
    }
}

impl<T: Copy> ChunkQueue<T> {
    /// An empty queue.
    pub fn new() -> (r: Self)
        ensures
            r@ == Seq::<T>::empty(),
    {
        let r = ChunkQueue { items: VecDeque::new() };
        assert(r@ =~= Seq::<T>::empty());
        r
    }

    /// Appends items.
    pub fn feed(&mut self, items: &[T])
        ensures
            final(self)@ == old(self)@ + items@,
    {
        let ghost had = self@;
        assert(had + items@.take(0) =~= had);
        for i in 0..items.len()
            invariant
                self@ == had + items@.take(i as int),
        {
            self.items.push_back(items[i]);
            assert(had + items@.take(i + 1) =~= (had + items@.take(i as int)).push(
                items@[i as int],
            ));
        }
        assert(items@.take(items@.len() as int) =~= items@);
    }

    /// The oldest `n` items, if there are as many.
    pub fn take_chunk(&mut self, n: usize) -> (r: Option<Vec<T>>)
        ensures
            r is Some == (n <= old(self)@.len()),
            r is Some ==> r->0@ == old(self)@.take(n as int) && final(self)@ == old(self)@.skip(
                n as int,
            ),
            r is None ==> final(self)@ == old(self)@,
    {
        if self.items.len() < n {
            return None;
        }
        let ghost had = self@;
        let mut chunk: Vec<T> = Vec::new();
        assert(had.skip(0) =~= had);
        for i in 0..n
            invariant
                n <= had.len(),
                self@ == had.skip(i as int),
                chunk@ == had.take(i as int),
        {
            let ghost before = self@;
            if let Some(item) = self.items.pop_front() {
                chunk.push(item);
                assert(before.subrange(1, before.len() as int) =~= had.skip(i + 1));
                assert(had.take(i + 1) =~= had.take(i as int).push(had[i as int]));
            }
        }
        Some(chunk)
    }

    /// Drops everything.
    pub fn clear(&mut self)
        ensures
            final(self)@ == Seq::<T>::empty(),
    {
        self.items.clear();
        assert(self@ =~= Seq::<T>::empty());
    }

    /// All whole frames of `len` items, oldest first; the rest waits.
    pub fn take_frames(&mut self, len: usize) -> (r: Vec<Vec<T>>)
        requires
            len > 0,
        ensures
            frames_view(r@) == whole_frames(old(self)@, len as int),
            final(self)@ == rest_of(old(self)@, len as int),
    {
        let ghost had = self@;
        let mut frames: Vec<Vec<T>> = Vec::new();
        assert(frames_view(frames@) + whole_frames(had, len as int) =~= whole_frames(
            had,
            len as int,
        ));
        while self.items.len() >= len
            invariant
                len > 0,
                frames_view(frames@) + whole_frames(self@, len as int) == whole_frames(
                    had,
                    len as int,
                ),
                rest_of(self@, len as int) == rest_of(had, len as int),
            decreases self@.len(),
        {
            let ghost seen = frames_view(frames@);
            if let Some(chunk) = self.take_chunk(len) {
                frames.push(chunk);
                assert(frames_view(frames@) =~= seen.push(chunk@));
                assert(seen + (seq![chunk@] + whole_frames(self@, len as int)) =~= seen.push(
                    chunk@,
                ) + whole_frames(self@, len as int));
            }
        }
        assert(frames_view(frames@) + Seq::<Seq<T>>::empty() =~= frames_view(frames@));
        frames
    }
}

/// What a list of frames holds.
pub open spec fn frames_view<T>(v: Seq<Vec<T>>) -> Seq<Seq<T>> {
    v.map_values(|f: Vec<T>| f@)
}

/// The whole frames at the start of a sequence.
pub open spec fn whole_frames<T>(s: Seq<T>, len: int) -> Seq<Seq<T>>
    decreases s.len(),
{
    if len <= 0 || s.len() < len {
        Seq::empty()
    } else {
        seq![s.take(len)] + whole_frames(s.skip(len), len)
    }
}

/// What is left of a sequence after its whole frames.
pub open spec fn rest_of<T>(s: Seq<T>, len: int) -> Seq<T>
    decreases s.len(),
{
    if len <= 0 || s.len() < len {
        s
    } else {
        rest_of(s.skip(len), len)
    }
}

/// Frames put together again.
pub open spec fn flat<T>(frames: Seq<Seq<T>>) -> Seq<T>
    decreases frames.len(),
{
    if frames.len() == 0 {
        Seq::empty()
    } else {
        frames[0] + flat(frames.drop_first())
    }
}

/// Cutting into frames loses nothing and keeps the order: the frames and the
/// rest, put together, are what was there; each frame has the length asked for,
/// and the rest is shorter.
pub proof fn law_frames_lose_nothing<T>(s: Seq<T>, len: int, i: int)
    requires
        len > 0,
    ensures
        flat(whole_frames(s, len)) + rest_of(s, len) == s,
        rest_of(s, len).len() < len,
        0 <= i < whole_frames(s, len).len() ==> whole_frames(s, len)[i].len() == len,
    decreases s.len(),
{
    if s.len() >= len {
        law_frames_lose_nothing(s.skip(len), len, i - 1);
        let inner = whole_frames(s.skip(len), len);
        let all = whole_frames(s, len);
        assert(all.drop_first() =~= inner);
        assert(all[0] == s.take(len));
        assert(s.take(len) + flat(inner) + rest_of(s.skip(len), len) =~= s.take(len) + (flat(inner)
            + rest_of(s.skip(len), len)));
        assert(s =~= s.take(len) + s.skip(len));
        if 0 < i < all.len() {
            assert(all[i] == inner[i - 1]);
        }
    } else {
        assert(flat(whole_frames(s, len)) + rest_of(s, len) =~= s);
    }
}

/// How many samples wait to be played at most, for a device with this rate and
/// this many channels.
pub fn play_cap(out_rate: u32, out_ch: u16) -> (r: usize)
    requires
        out_rate * PLAY_CAP_MS <= u32::MAX,
        out_rate * PLAY_CAP_MS / 1000 * out_ch <= usize::MAX,
    ensures
        r == out_rate * PLAY_CAP_MS / 1000 * out_ch,
{
    (out_rate * PLAY_CAP_MS / 1000) as usize * out_ch as usize
}

/// The length of the blocks for a resampler: 10 ms of its input, and no less
/// than [`CHUNK_MIN`].
pub fn chunk_for(from_rate: u32) -> (r: usize)
    ensures
        r == if from_rate / 100 > CHUNK_MIN {
            (from_rate / 100) as int
        } else {
            CHUNK_MIN as int
        },
{
    let chunk = (from_rate / 100) as usize;
    if chunk > CHUNK_MIN {
        chunk
    } else {
        CHUNK_MIN
    }
}

/// Half of a sample, rounded toward zero.
pub open spec fn half(s: i16) -> i16 {
    if s >= 0 {
        (s as int / 2) as i16
    } else {
        (-(-s as int / 2)) as i16
    }
}

/// Half as loud.
pub open spec fn faded(pcm: Seq<i16>) -> Seq<i16> {
    pcm.map_values(|s: i16| half(s))
}

/// Makes a frame half as loud.
pub fn fade(pcm: &[i16]) -> (r: Vec<i16>)
    ensures
        r@ == faded(pcm@),
{
    let mut out: Vec<i16> = Vec::new();
    for i in 0..pcm.len()
        invariant
            out@ == faded(pcm@.take(i as int)),
    {
        let s = pcm[i] as i32;
        let h: i32 = if s >= 0 {
            s / 2
        } else {
            -(-s / 2)
        };
        out.push(h as i16);
        assert(faded(pcm@.take(i + 1)) =~= faded(pcm@.take(i as int)).push(half(pcm@[i as int])));
    }
    assert(pcm@.take(pcm@.len() as int) =~= pcm@);
    out
}

/// A frame faded `n` times.
pub open spec fn faded_times(pcm: Seq<i16>, n: nat) -> Seq<i16>
    decreases n,
{
    if n == 0 {
        pcm
    } else {
        faded(faded_times(pcm, (n - 1) as nat))
    }
}

/// A frame that is repeated through a hole gets quieter each time, and is silent
/// after sixteen times.
pub proof fn law_fades_to_silence(pcm: Seq<i16>, i: int)
    requires
        0 <= i < pcm.len(),
    ensures
        faded_times(pcm, 16).len() == pcm.len(),
        faded_times(pcm, 16)[i] == 0,
{
    reveal_with_fuel(faded_times, 17);
}

/// A queue with a limit keeps the newest items, in order, and no more than the
/// limit; below the limit it keeps all.
pub proof fn law_newest_are_kept<T>(s: Seq<T>, cap: int, i: int)
    requires
        cap >= 0,
    ensures
        s.len() <= cap ==> newest(s, cap) == s,
        s.len() > cap ==> newest(s, cap).len() == cap,
        0 <= i < newest(s, cap).len() ==> newest(s, cap)[newest(s, cap).len() - 1 - i] == s[s.len()
            - 1 - i],
{
}

/// Halving a sample keeps its sign and takes half of its size, rounded down; a
/// frame is halved sample by sample.
pub proof fn law_halving(s: i16, pcm: Seq<i16>, i: int)
    ensures
        s >= 0 ==> 0 <= s - 2 * half(s) <= 1,
        s < 0 ==> -1 <= s - 2 * half(s) <= 0,
        faded(pcm).len() == pcm.len(),
        0 <= i < pcm.len() ==> faded(pcm)[i] == half(pcm[i]),
{
}

/// 8000 samples a second, 160 to a frame of 20 ms; 200 ms wait to be played at
/// most, and 48000 samples to be sent; no block is shorter than 128 samples.
pub proof fn law_audio_sizes()
    ensures
        SAMPLE_RATE == 8000,
        FRAME_SAMPLES == 160,
        PLAY_CAP_MS == 200,
        CAPTURE_CAP == 48_000,
        CHUNK_MIN == 128,
{
}

} // verus!
