//! G.711 u-law (PCMU): one 16-bit linear sample to one octet, and back. At
//! 8 kHz a frame of 20 ms is 160 octets.
//!
//! An octet holds, inverted, a sign, one of eight segments and one of sixteen
//! steps within it. The steps of a segment are twice as wide as those of the
//! segment below.

use vstd::prelude::*;

verus! {

/// Added to a magnitude so that every segment starts at a power of two.
pub const BIAS: i32 = 0x84;

/// The largest magnitude that is told apart.
pub const CLIP: i32 = 32635;

/// The segment of a biased magnitude: the lowest one that ends above it.
pub open spec fn segment_of(biased: int) -> int {
    if biased < 0x100 {
        0
    } else if biased < 0x200 {
        1
    } else if biased < 0x400 {
        2
    } else if biased < 0x800 {
        3
    } else if biased < 0x1000 {
        4
    } else if biased < 0x2000 {
        5
    } else if biased < 0x4000 {
        6
    } else {
        7
    }
}

/// Which step of its segment a biased magnitude lies in.
pub open spec fn step_of(segment: int, biased: int) -> int {
    if segment == 0 {
        biased / 8 - 16
    } else if segment == 1 {
        biased / 16 - 16
    } else if segment == 2 {
        biased / 32 - 16
    } else if segment == 3 {
        biased / 64 - 16
    } else if segment == 4 {
        biased / 128 - 16
    } else if segment == 5 {
        biased / 256 - 16
    } else if segment == 6 {
        biased / 512 - 16
    } else {
        biased / 1024 - 16
    }
}

/// The middle of a step of a segment, with the bias.
pub open spec fn middle(segment: int, step: int) -> int {
    if segment == 0 {
        (step + 16) * 8 + 4
    } else if segment == 1 {
        (step + 16) * 16 + 8
    } else if segment == 2 {
        (step + 16) * 32 + 16
    } else if segment == 3 {
        (step + 16) * 64 + 32
    } else if segment == 4 {
        (step + 16) * 128 + 64
    } else if segment == 5 {
        (step + 16) * 256 + 128
    } else if segment == 6 {
        (step + 16) * 512 + 256
    } else {
        (step + 16) * 1024 + 512
    }
}

/// The magnitude of a sample, clipped and biased.
pub open spec fn biased(sample: int) -> int {
    let m = if sample < 0 {
        -sample
    } else {
        sample
    };
    BIAS + if m > CLIP {
        CLIP as int
    } else {
        m
    }
}

/// The octet of a sample.
pub open spec fn ulaw_of(sample: int) -> u8 {
    let m = biased(sample);
    let segment = segment_of(m);
    (255 - ((if sample < 0 {
        128int
    } else {
        0
    }) + segment * 16 + step_of(segment, m))) as u8
}

/// The sample of an octet: the middle of its step, without the bias.
pub open spec fn pcm_of(ulaw: u8) -> int {
    let u = 255 - ulaw;
    let m = middle(u / 16 % 8, u % 16) - BIAS;
    if u >= 128 {
        -m
    } else {
        m
    }
}

/// The octets of a block of samples.
pub open spec fn ulaw_block(pcm: Seq<i16>) -> Seq<u8> {
    pcm.map_values(|s: i16| ulaw_of(s as int))
}

/// The samples of a block of octets.
pub open spec fn pcm_block(ulaw: Seq<u8>) -> Seq<i16> {
    ulaw.map_values(|b: u8| pcm_of(b) as i16)
}

/// The width of the steps of a segment.
fn step_width(segment: i32) -> (r: i32)
    requires
        0 <= segment <= 7,
    ensures
        segment == 0 ==> r == 8,
        segment == 1 ==> r == 16,
        segment == 2 ==> r == 32,
        segment == 3 ==> r == 64,
        segment == 4 ==> r == 128,
        segment == 5 ==> r == 256,
        segment == 6 ==> r == 512,
        segment == 7 ==> r == 1024,
{
    match segment {
        0 => 8,
        1 => 16,
        2 => 32,
        3 => 64,
        4 => 128,
        5 => 256,
        6 => 512,
        _ => 1024,
    }
}

/// The u-law octet of a linear 16-bit sample.
pub fn encode(sample: i16) -> (r: u8)
    ensures
        r == ulaw_of(sample as int),
{
    let mut m = sample as i32;
    let mut sign: i32 = 0;
    if m < 0 {
        m = -m;
        sign = 128;
    }
    if m > CLIP {
        m = CLIP;
    }
    m = m + BIAS;
    let mut segment: i32 = 0;
    while segment < 7 && m >= 32 * step_width(segment)
        invariant
            BIAS <= m <= CLIP + BIAS,
            0 <= segment <= segment_of(m as int) <= 7,
        ensures
            segment == segment_of(m as int),
        decreases 7 - segment,
    {
        segment = segment + 1;
    }
    let step = m / step_width(segment) - 16;
    assert(step == step_of(segment as int, m as int));
    assert(0 <= step < 16);
    (255 - (sign + segment * 16 + step)) as u8
}

/// The linear 16-bit sample of a u-law octet.
pub fn decode(ulaw: u8) -> (r: i16)
    ensures
        r == pcm_of(ulaw),
{
    let u = 255 - ulaw as i32;
    let segment = u / 16 % 8;
    let step = u % 16;
    let width = step_width(segment);
    assert(0 <= (step + 16) * width <= 31 * 1024) by (nonlinear_arith)
        requires
            0 <= step < 16,
            8 <= width <= 1024,
    ;
    let value: i32 = (step + 16) * width + width / 2 - BIAS;
    assert(value == middle(segment as int, step as int) - BIAS);
    if u >= 128 {
        (-value) as i16
    } else {
        value as i16
    }
}

/// Appends the u-law octets of a block of samples.
pub fn encode_block(pcm: &[i16], out: &mut Vec<u8>)
    ensures
        final(out)@ == old(out)@ + ulaw_block(pcm@),
{
    let ghost had = out@;
    for i in 0..pcm.len()
        invariant
            out@ == had + ulaw_block(pcm@.take(i as int)),
    {
        out.push(encode(pcm[i]));
        assert(ulaw_block(pcm@.take(i + 1)) =~= ulaw_block(pcm@.take(i as int)).push(
            ulaw_of(pcm@[i as int] as int),
        ));
    }
    assert(pcm@.take(pcm@.len() as int) =~= pcm@);
}

/// Appends the samples of a block of u-law octets.
pub fn decode_block(ulaw: &[u8], out: &mut Vec<i16>)
    ensures
        final(out)@ == old(out)@ + pcm_block(ulaw@),
{
    let ghost had = out@;
    for i in 0..ulaw.len()
        invariant
            out@ == had + pcm_block(ulaw@.take(i as int)),
    {
        let s = decode(ulaw[i]);
        out.push(s);
        assert(pcm_block(ulaw@.take(i + 1)) =~= pcm_block(ulaw@.take(i as int)).push(s));
    }
    assert(ulaw@.take(ulaw@.len() as int) =~= ulaw@);
}

/// What an octet stands for lies in the range of a sample.
pub proof fn law_pcm_range(ulaw: u8)
    ensures
        -32124 <= pcm_of(ulaw) <= 32124,
{
}

/// What a sample becomes on its way through u-law, without the sign.
spec fn level(m: int) -> int {
    middle(segment_of(m), step_of(segment_of(m), m)) - BIAS
}

/// Going through u-law keeps the sign, and turns a magnitude into its level.
proof fn lemma_through(sample: i16)
    ensures
        pcm_of(ulaw_of(sample as int)) == if sample < 0 {
            -level(biased(sample as int))
        } else {
            level(biased(sample as int))
        },
{
    let m = biased(sample as int);
    let g = segment_of(m);
    let k = step_of(g, m);
    assert(0 <= k < 16);
    let u = 255 - ulaw_of(sample as int);
    assert(u / 16 % 8 == g && u % 16 == k && (u >= 128) == (sample < 0));
}

/// The level of a magnitude is close to it.
proof fn lemma_level_close(m: int)
    requires
        BIAS <= m <= CLIP + BIAS,
    ensures
        0 <= level(m),
        -((m - BIAS) / 16 + 5) <= level(m) - (m - BIAS) <= (m - BIAS) / 16 + 5,
{
}

/// Levels do not fall as magnitudes grow.
proof fn lemma_level_monotone(a: int, b: int)
    requires
        BIAS <= a <= b <= CLIP + BIAS,
    ensures
        level(a) <= level(b),
{
    let g = segment_of(a);
    let h = segment_of(b);
    assert(g <= h);
    assert(g == h ==> step_of(g, a) <= step_of(g, b));
    assert(0 <= step_of(g, a) < 16);
    assert(0 <= step_of(h, b) < 16);
}

/// Going through u-law changes a sample by at most an eighth of its size and
/// five more, over the whole range.
pub proof fn law_roundtrip_is_close(sample: i16)
    ensures
        ({
            let err = pcm_of(ulaw_of(sample as int)) - sample;
            let size = if sample < 0 {
                -sample
            } else {
                sample as int
            };
            -(size / 8 + 5) <= err <= size / 8 + 5
        }),
{
    lemma_through(sample);
    lemma_level_close(biased(sample as int));
}

/// Silence stays silence.
pub proof fn law_silence()
    ensures
        pcm_of(ulaw_of(0)) == 0,
{
}

/// Going through u-law keeps the order of samples.
pub proof fn law_monotone(a: i16, b: i16)
    requires
        a <= b,
    ensures
        pcm_of(ulaw_of(a as int)) <= pcm_of(ulaw_of(b as int)),
{
    lemma_through(a);
    lemma_through(b);
    let x = biased(a as int);
    let y = biased(b as int);
    lemma_level_close(x);
    lemma_level_close(y);
    if a < 0 && b < 0 {
        lemma_level_monotone(y, x);
    } else if a >= 0 {
        lemma_level_monotone(x, y);
    }
}

/// Going through u-law treats both signs alike.
pub proof fn law_odd(sample: i16)
    requires
        sample > i16::MIN,
    ensures
        pcm_of(ulaw_of(-sample as int)) == -pcm_of(ulaw_of(sample as int)),
{
    let opposite = (-sample) as i16;
    lemma_through(sample);
    lemma_through(opposite);
    assert(biased(opposite as int) == biased(sample as int));
    if sample == 0 {
        law_silence();
    }
}

/// The middle of a step lies in the step.
proof fn lemma_middle_in_step(g: int, k: int)
    requires
        0 <= g < 8,
        0 <= k < 16,
    ensures
        segment_of(middle(g, k)) == g,
        step_of(g, middle(g, k)) == k,
        BIAS <= middle(g, k) <= CLIP + BIAS,
{
}

/// An octet that is decoded and encoded again is unchanged, but for the
/// negative zero, which becomes the positive one.
pub proof fn law_octets_survive(ulaw: u8)
    ensures
        ulaw_of(pcm_of(ulaw)) == if ulaw == 0x7F {
            0xFFu8
        } else {
            ulaw
        },
{
    let u = 255 - ulaw;
    let g = u / 16 % 8;
    let k = u % 16;
    lemma_middle_in_step(g, k);
    assert(biased(pcm_of(ulaw)) == middle(g, k));
    assert(middle(g, k) == BIAS ==> g == 0 && k == 0);
    assert(u == (if u >= 128 {
        128int
    } else {
        0
    }) + g * 16 + k);
}

/// Two to the power of a small number.
pub open spec fn power_of_two(n: int) -> int
    decreases n,
{
    if n <= 0 {
        1
    } else {
        2 * power_of_two(n - 1)
    }
}

proof fn lemma_powers()
    ensures
        power_of_two(0) == 1 && power_of_two(1) == 2 && power_of_two(2) == 4,
        power_of_two(3) == 8 && power_of_two(4) == 16 && power_of_two(5) == 32,
        power_of_two(6) == 64 && power_of_two(7) == 128 && power_of_two(8) == 256,
        power_of_two(9) == 512 && power_of_two(10) == 1024,
{
    reveal_with_fuel(power_of_two, 11);
}

/// A product with a power of two, for the powers that the segments have.
proof fn lemma_times_power(a: int, n: int)
    requires
        2 <= n <= 10,
    ensures
        n == 2 ==> a * power_of_two(n) == a * 4,
        n == 3 ==> a * power_of_two(n) == a * 8,
        n == 4 ==> a * power_of_two(n) == a * 16,
        n == 5 ==> a * power_of_two(n) == a * 32,
        n == 6 ==> a * power_of_two(n) == a * 64,
        n == 7 ==> a * power_of_two(n) == a * 128,
        n == 8 ==> a * power_of_two(n) == a * 256,
        n == 9 ==> a * power_of_two(n) == a * 512,
        n == 10 ==> a * power_of_two(n) == a * 1024,
{
    lemma_powers();
}

/// The octet of G.711: inverted, its top bit is the sign, the next three bits
/// are the segment `g` and the low four the step `k`; and it stands for
/// `(2k + 33) * 2^(g + 2) - 132`.
pub proof fn law_octet_stands_for(negative: bool, g: int, k: int)
    requires
        0 <= g < 8,
        0 <= k < 16,
    ensures
        ({
            let octet = (255 - ((if negative {
                128int
            } else {
                0
            }) + g * 16 + k)) as u8;
            let size = (2 * k + 33) * power_of_two(g + 2) - 132;
            pcm_of(octet) == if negative {
                -size
            } else {
                size
            }
        }),
{
    lemma_times_power(2 * k + 33, g + 2);
    let u = (if negative {
        128int
    } else {
        0
    }) + g * 16 + k;
    assert(u / 16 % 8 == g && u % 16 == k && (u >= 128) == negative);
}

/// The octet that a sample gets: its sign bit tells whether the sample is
/// negative, and its segment `g` and step `k` are those whose range of biased
/// magnitudes, `(k + 16) * 2^(g + 3)` up to the next step, holds that of the
/// sample, which is cut off at 32635.
pub proof fn law_sample_gets_its_octet(sample: i16)
    ensures
        ({
            let u = 255 - ulaw_of(sample as int);
            let g = u / 16 % 8;
            let k = u % 16;
            let size = if sample < 0 {
                -sample
            } else {
                sample as int
            };
            let m = 132 + if size > 32635 {
                32635
            } else {
                size
            };
            &&& (u >= 128) == (sample < 0)
            &&& (k + 16) * power_of_two(g + 3) <= m < (k + 17) * power_of_two(g + 3)
        }),
{
    let m = biased(sample as int);
    let g = segment_of(m);
    let k = step_of(g, m);
    assert(0 <= k < 16);
    let u = 255 - ulaw_of(sample as int);
    assert(u / 16 % 8 == g && u % 16 == k && (u >= 128) == (sample < 0));
    lemma_times_power(k + 16, g + 3);
    lemma_times_power(k + 17, g + 3);
}

/// A block is coded sample by sample, in order.
pub proof fn law_blocks_go_sample_by_sample(pcm: Seq<i16>, ulaw: Seq<u8>, i: int)
    ensures
        ulaw_block(pcm).len() == pcm.len(),
        0 <= i < pcm.len() ==> ulaw_block(pcm)[i] == ulaw_of(pcm[i] as int),
        pcm_block(ulaw).len() == ulaw.len(),
        0 <= i < ulaw.len() ==> pcm_block(ulaw)[i] == pcm_of(ulaw[i]),
{
    if 0 <= i < ulaw.len() {
        law_pcm_range(ulaw[i]);
    }
}

} // verus!
