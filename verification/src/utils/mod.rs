pub mod lrc;
pub mod text;

use vstd::prelude::*;

use crate::chars::{decimal, digit_char, push_char, push_decimal, push_str};

verus! {

/// `n` with at least two digits, a leading zero added below 10 (what `{n:02}` writes).
pub open spec fn two_digits(n: nat) -> Seq<char> {
    if n < 10 {
        seq!['0'] + decimal(n)
    } else {
        decimal(n)
    }
}

/// `h:mm:ss` for an hour or more, else `m:ss`.
pub open spec fn duration_text(secs: nat) -> Seq<char> {
    let h = secs / 3600;
    let m = (secs % 3600) / 60;
    let s = secs % 60;
    if h > 0 {
        decimal(h) + seq![':'] + two_digits(m) + seq![':'] + two_digits(s)
    } else {
        decimal(m) + seq![':'] + two_digits(s)
    }
}

fn push_two_digits(out: &mut String, n: u64)
    requires
        n < 100,
    ensures
        final(out)@ == old(out)@ + two_digits(n as nat),
{
    if n < 10 {
        push_char(out, '0');
    }
    push_decimal(out, n);
    assert(final(out)@ =~= old(out)@ + two_digits(n as nat));
}

/// Formats a duration of whole seconds as `m:ss`, or `h:mm:ss` from an hour on.
pub fn format_duration(secs: u64) -> (r: String)
    ensures
        r@ == duration_text(secs as nat),
{
    let h = secs / 3600;
    let m = (secs % 3600) / 60;
    let s = secs % 60;
    let mut out = String::new();
    if h > 0 {
        push_decimal(&mut out, h);
        push_char(&mut out, ':');
        push_two_digits(&mut out, m);
        push_char(&mut out, ':');
        push_two_digits(&mut out, s);
    } else {
        push_decimal(&mut out, m);
        push_char(&mut out, ':');
        push_two_digits(&mut out, s);
    }
    assert(out@ =~= duration_text(secs as nat));
    out
}

/// Formats a bit rate in kbit/s as `"<n> kbps"`.
pub fn format_bitrate(bitrate: u32) -> (r: String)
    ensures
        r@ == decimal(bitrate as nat) + " kbps"@,
{
    let mut out = String::new();
    push_decimal(&mut out, bitrate as u64);
    push_str(&mut out, " kbps");
    assert(out@ =~= decimal(bitrate as nat) + " kbps"@);
    out
}

pub open spec fn scale_limit() -> nat {
    1000 * 0x10_0000_0000_0000
}

/// `x` doubled until it reaches `1000 * 2^52`: for `x = hz`, the numerator over 1000 of
/// `hz / 1000` scaled to the 53 significant bits of an `f64`.
pub open spec fn scale_up(x: nat) -> nat
    decreases scale_limit() - x,
{
    if x == 0 || x >= scale_limit() {
        x
    } else if 2 * x >= scale_limit() {
        2 * x
    } else {
        scale_up(2 * x)
    }
}

/// The `f64` nearest to `hz / 1000` lies above it (its 53-bit significand was rounded up).
pub open spec fn quotient_rounds_up(hz: nat) -> bool {
    scale_up(hz) % 1000 > 500
}

/// The `f64` quotient `hz / 1000` is exact (its scaled numerator divides by 1000).
pub open spec fn quotient_exact(hz: nat) -> bool {
    scale_up(hz) % 1000 == 0
}

/// `hz / 1000` rounded to tenths as `{:.1}` rounds the `f64` quotient: to the nearest tenth;
/// where `hz / 1000` lies halfway, in the direction in which the `f64` quotient lies, and
/// where the quotient is exactly halfway, to the even tenth.
pub open spec fn khz_tenths(hz: nat) -> nat {
    let q = hz / 100;
    let r = hz % 100;
    if r < 50 {
        q
    } else if r > 50 {
        q + 1
    } else if quotient_exact(hz) {
        if q % 2 == 0 {
            q
        } else {
            q + 1
        }
    } else if quotient_rounds_up(hz) {
        q + 1
    } else {
        q
    }
}

/// `"<x.y> kHz"` from 1000 Hz on, else `"<n> Hz"`.
pub open spec fn sample_rate_text(hz: nat) -> Seq<char> {
    if hz >= 1000 {
        decimal(khz_tenths(hz) / 10) + seq!['.'] + seq![digit_char(khz_tenths(hz) % 10)]
            + " kHz"@
    } else {
        decimal(hz) + " Hz"@
    }
}

fn scaled(hz: u32) -> (m: u64)
    requires
        hz > 0,
    ensures
        m as nat == scale_up(hz as nat),
{
    let mut m: u64 = hz as u64;
    while m < 1000 * 0x10_0000_0000_0000
        invariant
            0 < m < 2 * scale_limit(),
            scale_up(m as nat) == scale_up(hz as nat),
        decreases 2 * scale_limit() - m,
    {
        m = m * 2;
    }
    m
}

/// Formats a sample rate: `"44.1 kHz"` from 1000 Hz on (one decimal, rounded as `{:.1}`
/// rounds the `f64` quotient `hz / 1000.0`), else `"<n> Hz"`.
pub fn format_sample_rate(hz: u32) -> (r: String)
    ensures
        r@ == sample_rate_text(hz as nat),
{
    let mut out = String::new();
    if hz >= 1000 {
        let q = hz / 100;
        let r = hz % 100;
        let t = if r < 50 {
            q
        } else if r > 50 {
            q + 1
        } else {
            let m = scaled(hz);
            if m % 1000 == 0 {
                if q % 2 == 0 {
                    q
                } else {
                    q + 1
                }
            } else if m % 1000 > 500 {
                q + 1
            } else {
                q
            }
        };
        push_decimal(&mut out, (t / 10) as u64);
        push_char(&mut out, '.');
        push_decimal(&mut out, (t % 10) as u64);
        push_str(&mut out, " kHz");
        assert(decimal((t % 10) as nat) =~= seq![digit_char((t % 10) as nat)]);
        assert(out@ =~= sample_rate_text(hz as nat));
    } else {
        push_decimal(&mut out, hz as u64);
        push_str(&mut out, " Hz");
        assert(out@ =~= sample_rate_text(hz as nat));
    }
    out
}

} // verus!
