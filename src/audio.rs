//! Sample-level audio processing: channel downmixing, linear resampling to
//! the recognizer's rate, and the checks applied to a recorded waveform.
//!
//! Samples are signed 16-bit PCM values, as the waveform file stores them.
use vstd::prelude::*;
use vstd::arithmetic::div_mod::{
    lemma_div_is_ordered, lemma_fundamental_div_mod, lemma_fundamental_div_mod_converse,
};
use crate::error::CoreError;
use crate::text::{decimal, decimal_chars, push_chars};

verus! {

/// Sample rate, in Hz, that the recognizer expects.
pub const MODEL_SAMPLE_RATE: u32 = 16000;

/// Offset that maps a signed 16-bit sample onto `0..=65535`.
const SAMPLE_OFFSET: i32 = 32768;

/// Number of output samples: `ceil(n * dst / src)`.
pub open spec fn out_len(n: nat, src: nat, dst: nat) -> nat {
    ((n * dst + src - 1) / src as int) as nat
}

/// Linear interpolation between `a` and `b` at `num / den`, rounded down.
pub open spec fn interp(a: i16, b: i16, num: int, den: int) -> int {
    (a * (den - num) + b * num) / den
}

/// Output sample `i`: the input read at position `i * src / dst`, between
/// the sample at its integer part and the next one (the last one at the
/// tail).
pub open spec fn resampled_at(x: Seq<i16>, src: nat, dst: nat, i: int) -> i16 {
    let p = i * src;
    let idx = p / dst as int;
    let num = p % dst as int;
    let next = if idx + 1 < x.len() {
        idx + 1
    } else {
        x.len() - 1
    };
    interp(x[idx], x[next], num, dst as int) as i16
}

/// The samples `x`, taken at `src` Hz, resampled to `dst` Hz.
pub open spec fn resampled(x: Seq<i16>, src: nat, dst: nat) -> Seq<i16> {
    if src == dst {
        x
    } else if x.len() == 0 || src == 0 || dst == 0 {
        Seq::empty()
    } else {
        Seq::new(out_len(x.len(), src, dst), |i: int| resampled_at(x, src, dst, i))
    }
}

proof fn lemma_source_index(n: int, src: int, dst: int, i: int)
    requires
        n > 0,
        src > 0,
        dst > 0,
        0 <= i,
        i < (n * dst + src - 1) / src,
    ensures
        0 <= (i * src) / dst < n,
{
    assert(i * src >= 0) by (nonlinear_arith)
        requires
            i >= 0,
            src > 0,
    ;
    lemma_div_is_ordered(0, i * src, dst);
    if (i * src) / dst >= n {
        lemma_fundamental_div_mod(i * src, dst);
        assert(i * src >= n * dst) by (nonlinear_arith)
            requires
                (i * src) / dst >= n,
                i * src == dst * ((i * src) / dst) + (i * src) % dst,
                (i * src) % dst >= 0,
                dst > 0,
        ;
        lemma_div_is_ordered(n * dst + src - 1, i * src + src - 1, src);
        lemma_fundamental_div_mod_converse(i * src + src - 1, src, i, src - 1);
    }
}

proof fn lemma_interp_bounds(a: i16, b: i16, num: int, den: int)
    requires
        0 <= num < den,
    ensures
        (a <= b ==> a <= interp(a, b, num, den) <= b),
        (b <= a ==> b <= interp(a, b, num, den) <= a),
        ((a + SAMPLE_OFFSET) * (den - num) + (b + SAMPLE_OFFSET) * num) / den == interp(
            a,
            b,
            num,
            den,
        ) + SAMPLE_OFFSET,
{
    let x = a * (den - num) + b * num;
    assert(x == a * den + (b - a) * num) by (nonlinear_arith)
        requires
            x == a * (den - num) + b * num,
    ;
    if a <= b {
        assert(a * den <= x <= b * den) by (nonlinear_arith)
            requires
                x == a * den + (b - a) * num,
                0 <= num < den,
                a <= b,
        ;
    } else {
        assert(b * den <= x <= a * den) by (nonlinear_arith)
            requires
                x == a * den + (b - a) * num,
                0 <= num < den,
                b <= a,
        ;
    }
    lemma_fundamental_div_mod_converse(a * den, den, a as int, 0);
    lemma_fundamental_div_mod_converse(b * den, den, b as int, 0);
    if a <= b {
        lemma_div_is_ordered(a * den, x, den);
        lemma_div_is_ordered(x, b * den, den);
    } else {
        lemma_div_is_ordered(b * den, x, den);
        lemma_div_is_ordered(x, a * den, den);
    }
    let u = (a + SAMPLE_OFFSET) * (den - num) + (b + SAMPLE_OFFSET) * num;
    assert(u == x + SAMPLE_OFFSET * den) by (nonlinear_arith)
        requires
            x == a * (den - num) + b * num,
            u == (a + SAMPLE_OFFSET) * (den - num) + (b + SAMPLE_OFFSET) * num,
    ;
    lemma_fundamental_div_mod(x, den);
    assert(u == (x / den + SAMPLE_OFFSET) * den + x % den) by (nonlinear_arith)
        requires
            u == x + SAMPLE_OFFSET * den,
            x == den * (x / den) + x % den,
    ;
    lemma_fundamental_div_mod_converse(u, den, x / den + SAMPLE_OFFSET, x % den);
}

fn copy_samples(v: &Vec<i16>) -> (r: Vec<i16>)
    ensures
        r@ == v@,
{
    let mut r: Vec<i16> = Vec::new();
    let mut i: usize = 0;
    while i < v.len()
        invariant
            i <= v.len(),
            r@ == v@.take(i as int),
        decreases v.len() - i,
    {
        r.push(v[i]);
        i = i + 1;
        assert(r@ =~= v@.take(i as int));
    }
    assert(v@.take(v.len() as int) =~= v@);
    r
}

/// Resamples `input`, taken at `src_hz`, to `dst_hz` by linear
/// interpolation. Equal rates return the input unchanged; an empty input or
/// a zero rate gives nothing.
pub fn resample_linear(input: &Vec<i16>, src_hz: usize, dst_hz: usize) -> (out: Vec<i16>)
    ensures
        out@ == resampled(input@, src_hz as nat, dst_hz as nat),
{
    if src_hz == dst_hz {
        return copy_samples(input);
    }
    if input.len() == 0 || src_hz == 0 || dst_hz == 0 {
        return Vec::new();
    }
    let n = input.len() as u128;
    let src = src_hz as u128;
    let dst = dst_hz as u128;
    assert(n * dst <= 0xffff_ffff_ffff_ffffu128 * 0xffff_ffff_ffff_ffffu128) by (nonlinear_arith)
        requires
            n <= 0xffff_ffff_ffff_ffffu128,
            dst <= 0xffff_ffff_ffff_ffffu128,
    ;
    let total: u128 = (n * dst + (src - 1)) / src;
    let last = input.len() - 1;
    let ghost spec_out = resampled(input@, src_hz as nat, dst_hz as nat);
    let mut out: Vec<i16> = Vec::new();
    let mut i: u128 = 0;
    while i < total
        invariant
            i <= total,
            n == input.len(),
            n > 0,
            src == src_hz,
            dst == dst_hz,
            src > 0,
            dst > 0,
            src != dst,
            src <= 0xffff_ffff_ffff_ffffu128,
            n * dst <= 0xffff_ffff_ffff_ffffu128 * 0xffff_ffff_ffff_ffffu128,
            last == input.len() - 1,
            total == out_len(n as nat, src as nat, dst as nat),
            spec_out == resampled(input@, src_hz as nat, dst_hz as nat),
            spec_out.len() == total,
            out@ == spec_out.take(i as int),
        decreases total - i,
    {
        proof {
            lemma_source_index(n as int, src as int, dst as int, i as int);
            assert(i * src <= total * src) by (nonlinear_arith)
                requires
                    i <= total,
                    src > 0,
            ;
            lemma_fundamental_div_mod((n * dst + (src - 1)) as int, src as int);
            assert(total * src <= n * dst + (src - 1)) by (nonlinear_arith)
                requires
                    total == (n * dst + (src - 1)) / src as int,
                    (n * dst + (src - 1)) == src * ((n * dst + (src - 1)) / src as int) + (n
                        * dst + (src - 1)) % src as int,
                    (n * dst + (src - 1)) % src as int >= 0,
            ;
        }
        let p: u128 = i * src;
        let idx = (p / dst) as usize;
        let num: u128 = p % dst;
        let a = input[idx];
        let next = if idx + 1 < input.len() {
            idx + 1
        } else {
            last
        };
        let b = input[next];
        let ua = (a as i32 + SAMPLE_OFFSET) as u128;
        let ub = (b as i32 + SAMPLE_OFFSET) as u128;
        proof {
            lemma_interp_bounds(a, b, num as int, dst as int);
            assert(ua * (dst - num) <= 65535 * dst) by (nonlinear_arith)
                requires
                    ua <= 65535,
                    num < dst,
            ;
            assert(ub * num <= 65535 * dst) by (nonlinear_arith)
                requires
                    ub <= 65535,
                    num < dst,
            ;
        }
        let v: u128 = (ua * (dst - num) + ub * num) / dst;
        let s = (v as i32 - SAMPLE_OFFSET) as i16;
        out.push(s);
        proof {
            assert(s == resampled_at(input@, src as nat, dst as nat, i as int));
            assert(out@ =~= spec_out.take(i + 1));
        }
        i = i + 1;
    }
    assert(spec_out.take(total as int) =~= spec_out);
    out
}

/// Resampling between equal rates gives back the input.
pub proof fn lemma_resample_identity(x: Seq<i16>, rate: nat)
    ensures
        resampled(x, rate, rate) == x,
{
}

/// A resampled non-empty input has `ceil(len * dst / src)` samples: the least
/// count whose duration at `dst` Hz covers the input's at `src` Hz.
pub proof fn lemma_resample_length(x: Seq<i16>, src: nat, dst: nat)
    requires
        src > 0,
        dst > 0,
        x.len() > 0,
    ensures
        resampled(x, src, dst).len() * src >= x.len() * dst,
        (resampled(x, src, dst).len() - 1) * src < x.len() * dst,
{
    let n = x.len();
    let m = resampled(x, src, dst).len();
    if src == dst {
        assert(n * src >= n * dst);
        assert((n - 1) * src < n * dst) by (nonlinear_arith)
            requires
                src == dst,
                dst > 0,
        ;
    } else {
        let big = n * dst + src - 1;
        lemma_fundamental_div_mod(big, src as int);
        assert(m * src >= n * dst && (m - 1) * src < n * dst) by (nonlinear_arith)
            requires
                m == big / src as int,
                big == src * (big / src as int) + big % src as int,
                0 <= big % (src as int) < src,
                big == n * dst + src - 1,
        ;
    }
}

/// Sum of the samples.
pub open spec fn sum_of(s: Seq<i16>) -> int
    decreases s.len(),
{
    if s.len() == 0 {
        0
    } else {
        sum_of(s.drop_last()) + s.last()
    }
}

/// Division rounding toward zero, as Rust's integer `/` does.
pub open spec fn trunc_div(a: int, d: int) -> int {
    if a >= 0 {
        a / d
    } else {
        -((-a) / d)
    }
}

/// Frame `f` of interleaved samples with `ch` channels.
pub open spec fn frame(x: Seq<i16>, ch: nat, f: int) -> Seq<i16> {
    x.subrange(f * ch, f * ch + ch)
}

/// Interleaved multi-channel samples averaged into one channel; an
/// incomplete trailing frame is dropped. One channel (or none) is kept as
/// it is.
pub open spec fn downmixed(x: Seq<i16>, ch: nat) -> Seq<i16> {
    if ch <= 1 {
        x
    } else {
        Seq::new(x.len() / ch, |f: int| trunc_div(sum_of(frame(x, ch, f)), ch as int) as i16)
    }
}

/// Averages interleaved samples of `channels` channels into one channel.
pub fn downmix(raw: &Vec<i16>, channels: usize) -> (out: Vec<i16>)
    ensures
        out@ == downmixed(raw@, channels as nat),
{
    if channels <= 1 {
        return copy_samples(raw);
    }
    let frames = raw.len() / channels;
    let ghost spec_out = downmixed(raw@, channels as nat);
    let mut out: Vec<i16> = Vec::new();
    let mut f: usize = 0;
    while f < frames
        invariant
            f <= frames,
            channels > 1,
            frames == raw.len() as int / channels as int,
            spec_out == downmixed(raw@, channels as nat),
            spec_out.len() == frames,
            out@ == spec_out.take(f as int),
        decreases frames - f,
    {
        proof {
            let len = raw.len() as int;
            let ch = channels as int;
            lemma_fundamental_div_mod(len, ch);
            let q = len / ch;
            assert((f + 1) * ch <= q * ch) by (nonlinear_arith)
                requires
                    f + 1 <= q,
                    ch > 0,
            ;
            assert(f * ch + ch == (f + 1) * ch) by (nonlinear_arith);
            assert(q * ch == ch * q) by (nonlinear_arith);
        }
        let base = f * channels;
        let ghost fr = frame(raw@, channels as nat, f as int);
        let mut sum: i128 = 0;
        let mut k: usize = 0;
        while k < channels
            invariant
                k <= channels,
                base + channels <= raw.len(),
                fr == raw@.subrange(base as int, base + channels),
                sum == sum_of(fr.take(k as int)),
                -32768 * k <= sum <= 32767 * k,
                channels <= 0xffff_ffff_ffff_ffff,
            decreases channels - k,
        {
            assert(fr.take(k + 1).drop_last() =~= fr.take(k as int));
            sum = sum + raw[base + k] as i128;
            k = k + 1;
        }
        assert(fr.take(channels as int) =~= fr);
        let avg: i16 = if sum >= 0 {
            assert((sum as int) / (channels as int) <= 32767) by {
                lemma_div_is_ordered(sum as int, 32767 * channels, channels as int);
                lemma_fundamental_div_mod_converse(32767 * channels, channels as int, 32767, 0);
            }
            ((sum as u128) / (channels as u128)) as i16
        } else {
            assert((-(sum as int)) / (channels as int) <= 32768) by {
                lemma_div_is_ordered(-(sum as int), 32768 * channels, channels as int);
                lemma_fundamental_div_mod_converse(32768 * channels, channels as int, 32768, 0);
            }
            let q = ((-sum) as u128) / (channels as u128);
            (0 - (q as i32)) as i16
        };
        out.push(avg);
        proof {
            assert(out@ =~= spec_out.take(f + 1));
        }
        f = f + 1;
    }
    assert(spec_out.take(frames as int) =~= spec_out);
    out
}

/// Sample encoding of a waveform file.
#[derive(Clone, Copy, Debug, PartialEq, Eq, Structural)]
pub enum SampleFormat {
    Int,
    Float,
}

/// Header fields of a waveform file.
#[derive(Clone, Copy, Debug, PartialEq, Eq, Structural)]
pub struct WavFormat {
    pub channels: u16,
    pub sample_rate: u32,
    pub bits_per_sample: u16,
    pub sample_format: SampleFormat,
}

/// The waveform holds 16-bit integer samples.
pub open spec fn readable_format(format: WavFormat) -> bool {
    format.bits_per_sample == 16 && format.sample_format == SampleFormat::Int
}

/// The recognizer's input made from the raw samples of a waveform file: one
/// channel, at the recognizer's rate.
pub open spec fn model_input(format: WavFormat, raw: Seq<i16>) -> Seq<i16> {
    resampled(
        downmixed(raw, format.channels as nat),
        format.sample_rate as nat,
        MODEL_SAMPLE_RATE as nat,
    )
}

/// Turns the samples read from a waveform file into the recognizer's input:
/// checks that they are 16-bit integers, averages the channels and resamples
/// to the recognizer's rate.
pub fn samples_for_model(format: &WavFormat, raw: &Vec<i16>) -> (r: Result<Vec<i16>, CoreError>)
    ensures
        r is Err <==> !readable_format(*format),
        r is Err ==> r == Err::<Vec<i16>, CoreError>(CoreError::UnsupportedWavFormat),
        r matches Ok(v) ==> v@ == model_input(*format, raw@),
{
    if format.bits_per_sample != 16 {
        return Err(CoreError::UnsupportedWavFormat);
    }
    match format.sample_format {
        SampleFormat::Int => {},
        SampleFormat::Float => {
            return Err(CoreError::UnsupportedWavFormat);
        },
    }
    let mono = downmix(raw, format.channels as usize);
    if format.sample_rate != MODEL_SAMPLE_RATE {
        Ok(resample_linear(&mono, format.sample_rate as usize, MODEL_SAMPLE_RATE as usize))
    } else {
        Ok(mono)
    }
}

/// The name of the waveform file for a recording started `secs` seconds
/// after the Unix epoch.
pub fn generate_unique_wav_name(secs: u64) -> (r: String)
    ensures
        r@ == "murmure-"@ + decimal(secs as nat) + ".wav"@,
{
    let mut r = String::from_str("murmure-");
    let digits = decimal_chars(secs);
    push_chars(&mut r, &digits);
    r.append(".wav");
    r
}

} // verus!
