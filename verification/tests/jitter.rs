use iax2::jitter::{Stats, FRAME_MS, MAX_DEPTH_MS, MIN_DEPTH_MS};
use iax2::time::Instant;
use iax2::{JitterBuffer, Pull};

/// A buffer with the estimate of the jitter that sets its depth.
struct Playout {
    buffer: JitterBuffer,
    jitter: f64,
}

impl Playout {
    fn new() -> Self {
        Playout { buffer: JitterBuffer::new(), jitter: 0.0 }
    }

    fn push(&mut self, ts: u32, payload: Vec<u8>, now: Instant) {
        if let Some(d) = self.buffer.push(ts, payload, now) {
            self.jitter += (d as f64 - self.jitter) / 16.0;
            self.buffer.recompute_target((40.0 + 3.0 * self.jitter) as u32);
        }
    }

    fn pull(&mut self) -> Pull {
        self.buffer.pull()
    }

    fn stats(&self) -> Stats {
        self.buffer.stats()
    }
}

fn later(t: Instant, ms: u64) -> Instant {
    t.plus(ms * 1_000_000)
}

fn pcm(tag: u8) -> Vec<u8> {
    vec![tag; 160]
}

#[test]
fn in_order_playout() {
    let t0 = Instant::from_millis(5_000);
    let mut jb = Playout::new();
    for i in 0..4u32 {
        jb.push(i * FRAME_MS, pcm(i as u8), later(t0, (i * 20) as u64));
    }
    let mut out = Vec::new();
    for _ in 0..4 {
        if let Pull::Play(p) = jb.pull() {
            out.push(p[0]);
        }
    }
    assert_eq!(out, vec![0, 1, 2, 3], "riproduzione in ordine");
}

#[test]
fn reorders_by_timestamp() {
    let t0 = Instant::from_millis(5_000);
    let mut jb = Playout::new();
    for (n, i) in [2u32, 0, 3, 1].into_iter().enumerate() {
        jb.push(i * FRAME_MS, pcm(i as u8), later(t0, (n as u64) * 20));
    }
    let mut out = Vec::new();
    for _ in 0..4 {
        if let Pull::Play(p) = jb.pull() {
            out.push(p[0]);
        }
    }
    assert_eq!(out, vec![0, 1, 2, 3], "riallineati per ts nonostante l'ordine d'arrivo");
}

#[test]
fn resyncs_when_cursor_falls_permanently_behind() {
    let t0 = Instant::from_millis(5_000);
    let mut jb = Playout::new();

    for i in 0..5u32 {
        jb.push(i * FRAME_MS, pcm(i as u8), later(t0, (i * 20) as u64));
    }
    assert!(matches!(jb.pull(), Pull::Play(_)), "priming completato, primo frame riprodotto");

    let jump = 20 + MAX_DEPTH_MS * 3;
    for k in 0..5u32 {
        let ts = jump + k * FRAME_MS;
        jb.push(ts, pcm(100 + k as u8), later(t0, 1000 + (k * 20) as u64));
    }

    let mut played = Vec::new();
    for _ in 0..5 {
        if let Pull::Play(p) = jb.pull() {
            played.push(p[0]);
        }
    }
    assert!(!played.is_empty(), "dopo il resync il buffer deve riprendere a riprodurre, non restare bloccato in Conceal/Silence per sempre");
    assert_eq!(played[0], 100, "riparte dal primo frame del cluster fresco, non da un vecchio frame stantio rimasto in coda");
    assert_eq!(played, vec![100, 101, 102, 103, 104], "tutto il cluster fresco viene riprodotto in ordine dopo il resync");
}

#[test]
fn recovers_from_small_persistent_gap_via_conceal_streak() {
    let t0 = Instant::from_millis(5_000);
    let mut jb = Playout::new();

    for i in 0..5u32 {
        jb.push(i * FRAME_MS, pcm(i as u8), later(t0, (i * 20) as u64));
    }
    assert!(matches!(jb.pull(), Pull::Play(_)));

    let gap_start = 20 + 150;
    for k in 0..60u32 {
        let ts = gap_start + k * FRAME_MS;
        jb.push(ts, pcm(200), later(t0, 1000 + (k * 20) as u64));
    }

    let mut saw_play_again = false;
    for _ in 0..60 {
        if matches!(jb.pull(), Pull::Play(_)) {
            saw_play_again = true;
            break;
        }
    }
    assert!(saw_play_again, "il buffer deve riprendere a riprodurre entro la soglia di streak, non restare bloccato in Conceal per sempre");
}

#[test]
fn gap_yields_conceal() {
    let t0 = Instant::from_millis(5_000);
    let mut jb = Playout::new();
    for i in [0u32, 20, 60, 80] {
        jb.push(i, pcm((i / 20) as u8), later(t0, i as u64));
    }
    let mut seq = Vec::new();
    for _ in 0..5 {
        seq.push(jb.pull());
    }
    assert_eq!(seq[0], Pull::Play(pcm(0)));
    assert_eq!(seq[1], Pull::Play(pcm(1)));
    assert_eq!(seq[2], Pull::Conceal, "il buco produce PLC");
    assert_eq!(seq[3], Pull::Play(pcm(3)));
    assert!(jb.stats().concealed >= 1);
}

#[test]
fn late_frame_is_dropped() {
    let t0 = Instant::from_millis(5_000);
    let mut jb = Playout::new();
    for i in [0u32, 20, 40, 60] {
        jb.push(i, pcm((i / 20) as u8), later(t0, i as u64));
    }
    let _ = jb.pull();
    let _ = jb.pull();
    jb.push(20, pcm(99), later(t0, 100));
    assert_eq!(jb.stats().late, 1, "il frame in ritardo e' contato e scartato");
}

#[test]
fn target_depth_grows_with_jitter() {
    let t0 = Instant::from_millis(5_000);
    let mut jb = Playout::new();
    assert_eq!(jb.stats().target_ms, MIN_DEPTH_MS);
    let arrivals = [0u64, 5, 70, 80, 200, 210, 215, 400];
    for (n, a) in arrivals.into_iter().enumerate() {
        jb.push(n as u32 * FRAME_MS, pcm(n as u8), later(t0, a));
    }
    assert!(jb.stats().target_ms > MIN_DEPTH_MS, "il target si adatta al jitter");
}

#[test]
fn resyncs_on_sustained_partial_misalignment_even_with_sporadic_hits() {
    let t0 = Instant::from_millis(5_000);
    let mut jb = Playout::new();

    for i in 0..5u32 {
        jb.push(i * FRAME_MS, pcm(i as u8), later(t0, (i * 20) as u64));
    }
    assert!(matches!(jb.pull(), Pull::Play(_)));

    let mut saw_play = 0usize;
    let mut saw_conceal_or_late = 0usize;
    for k in 0..80u32 {
        let ts = 20 + 60 + k * FRAME_MS;
        jb.push(ts, pcm(200), later(t0, 1000 + (k * 20) as u64));
        match jb.pull() {
            Pull::Play(_) => saw_play += 1,
            Pull::Conceal => saw_conceal_or_late += 1,
            Pull::Silence => {}
        }
    }
    assert!(saw_play > 40, "dopo il resync la maggioranza dei pull deve tornare a essere Play, non restare bloccata a meta' strada (Play={saw_play}, Conceal={saw_conceal_or_late})");
}

#[test]
fn silence_until_the_target_is_reached() {
    let t = Instant::from_millis(0);
    let mut jb = JitterBuffer::default();
    assert_eq!(jb.pull(), Pull::Silence);
    assert_eq!(jb.push(100, pcm(1), t), None);
    assert_eq!(jb.pull(), Pull::Silence);
    jb.push(120, pcm(2), t);
    assert_eq!(jb.pull(), Pull::Play(pcm(1)));
    assert_eq!(jb.pull(), Pull::Play(pcm(2)));
    assert_eq!(jb.pull(), Pull::Silence);
    assert!(!jb.playing);
    assert_eq!(jb.stats().played, 2);
}

#[test]
fn target_stays_between_its_limits() {
    let mut jb = JitterBuffer::new();
    jb.recompute_target(0);
    assert_eq!(jb.stats().target_ms, MIN_DEPTH_MS);
    jb.recompute_target(150);
    assert_eq!(jb.stats().target_ms, 150);
    jb.recompute_target(5000);
    assert_eq!(jb.stats().target_ms, MAX_DEPTH_MS);
}

#[test]
fn deviation_counts_frames_that_run_ahead() {
    let mut jb = JitterBuffer::new();
    assert_eq!(jb.push(100, pcm(1), Instant::from_millis(1000)), None);
    assert_eq!(jb.push(120, pcm(2), Instant::from_millis(1025)), Some(5));
    assert_eq!(jb.push(110, pcm(3), Instant::from_millis(1030)), None);
    assert_eq!(jb.push(160, pcm(4), Instant::from_millis(1030)), Some(35));
    assert_eq!(jb.push(180, pcm(5), Instant::from_millis(1000)), Some(20));
}

#[test]
fn a_full_buffer_drops_its_oldest() {
    let t = Instant::from_millis(0);
    let mut jb = JitterBuffer::new();
    for i in 0..103u32 {
        jb.push(i * FRAME_MS, pcm(i as u8), t);
    }
    assert_eq!(jb.stats().buffered, 100);
    assert_eq!(jb.stats().overflow, 3);
    assert_eq!(jb.pull(), Pull::Play(pcm(3)));
}

#[test]
fn reset_keeps_the_counters() {
    let t = Instant::from_millis(0);
    let mut jb = JitterBuffer::new();
    jb.push(0, pcm(0), t);
    jb.push(20, pcm(1), t);
    let _ = jb.pull();
    jb.recompute_target(100);
    jb.reset();
    let s = jb.stats();
    assert_eq!((s.played, s.buffered, s.target_ms), (1, 0, 100));
    assert_eq!(jb.pull(), Pull::Silence);
}

#[test]
fn reset_keeps_the_depth_that_was_learnt() {
    let t0 = Instant::from_millis(5_000);
    let mut jb = Playout::new();
    for (n, ms) in [0u64, 5, 70, 80, 200, 210, 215, 400].into_iter().enumerate() {
        jb.push(n as u32 * FRAME_MS, pcm(n as u8), later(t0, ms));
    }
    let before = jb.stats();
    assert_eq!(before.target_ms, 100);
    jb.buffer.reset();
    let after = jb.stats();
    assert_eq!((after.target_ms, after.buffered), (100, 0));
    assert_eq!(
        (after.played, after.concealed, after.late, after.overflow),
        (before.played, before.concealed, before.late, before.overflow)
    );
    assert_eq!(jb.pull(), Pull::Silence);
    jb.push(9_000, pcm(1), later(t0, 500));
    assert_eq!(jb.stats().target_ms, 100, "the first frame of a call has no pause before it");
}

#[test]
fn two_orders_of_arrival_buffer_the_same() {
    let t = Instant::from_millis(0);
    let mut a = JitterBuffer::new();
    let mut b = JitterBuffer::new();
    a.push(0, pcm(0), t);
    a.push(20, pcm(1), t);
    b.push(20, pcm(1), t);
    b.push(0, pcm(0), t);
    assert_eq!(a.frames, b.frames);
    for _ in 0..3 {
        assert_eq!(a.pull(), b.pull());
    }
}

#[test]
fn at_most_sixty_one_holes_in_a_row() {
    let t = Instant::from_millis(0);
    let mut jb = JitterBuffer::new();
    jb.push(0, pcm(0), t);
    jb.push(20, pcm(1), t);
    assert_eq!(jb.pull(), Pull::Play(pcm(0)));
    assert_eq!(jb.pull(), Pull::Play(pcm(1)));
    jb.push(45, pcm(9), t);
    let mut holes = 0;
    while jb.pull() == Pull::Conceal {
        holes += 1;
    }
    assert_eq!(holes, 61);
    assert_eq!(jb.stats().concealed, 61);
    assert_eq!(jb.stats().played, 3);
}
