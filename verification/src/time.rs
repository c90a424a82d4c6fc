//! Instants and durations as plain numbers, and the compact rendering
//! of a duration.

use vstd::prelude::*;
use crate::chars::{dec_digits, digit_char, chars_to_string, format_u128, digit_to_char};

verus! {

/// A zoned timestamp, held as seconds and nanoseconds since the epoch.
/// The zone only matters when the value is rendered, which the machine's
/// local zone decides.
pub struct TimeValue {
    pub secs: i64,
    pub nanos: u32,
}

/// A span of time: whole seconds and a sub-second remainder.
pub struct DurationValue {
    pub secs: u64,
    pub nanos: u32,
}

impl TimeValue {
    /// Whether the sub-second part is a valid remainder.
    pub open spec fn wf(&self) -> bool {
        self.nanos < 1_000_000_000
    }
}

impl DurationValue {
    /// Whether the sub-second part is a valid remainder.
    pub open spec fn wf(&self) -> bool {
        self.nanos < 1_000_000_000
    }

    /// The duration of a number of microseconds.
    pub fn from_micros(micros: u64) -> (r: DurationValue)
        ensures
            r.secs == micros as int / 1_000_000,
            r.nanos == (micros as int % 1_000_000) * 1000,
            r.wf(),
    {
        DurationValue { secs: micros / 1_000_000, nanos: ((micros % 1_000_000) * 1000) as u32 }
    }

    /// The duration of a number of milliseconds.
    pub fn from_millis(millis: u64) -> (r: DurationValue)
        ensures
            r.secs == millis as int / 1000,
            r.nanos == (millis as int % 1000) * 1_000_000,
            r.wf(),
    {
        DurationValue { secs: millis / 1000, nanos: ((millis % 1000) * 1_000_000) as u32 }
    }
}

/// The six digits of a microsecond remainder, most significant first.
pub open spec fn pad6(m: int) -> Seq<char> {
    seq![
        digit_char(m / 100000 % 10),
        digit_char(m / 10000 % 10),
        digit_char(m / 1000 % 10),
        digit_char(m / 100 % 10),
        digit_char(m / 10 % 10),
        digit_char(m % 10),
    ]
}

/// A number padded to two digits with a leading zero.
pub open spec fn pad2(m: int) -> Seq<char> {
    if 0 <= m < 10 {
        seq!['0', digit_char(m)]
    } else {
        dec_digits(m as nat)
    }
}

/// Drop trailing zero digits.
pub open spec fn trim_zeros(s: Seq<char>) -> Seq<char>
    decreases s.len(),
{
    if s.len() > 0 && s.last() == '0' {
        trim_zeros(s.drop_last())
    } else {
        s
    }
}

/// The compact rendering of a duration: years and days when present,
/// then hours, minutes and seconds, or bare seconds with a trimmed
/// microsecond fraction when the span is under a minute.
pub open spec fn duration_str(secs: int, micros: int) -> Seq<char> {
    let y = secs / 31536000;
    let d = secs / 86400 % 365;
    let h = secs / 3600 % 24;
    let m = secs / 60 % 60;
    let s = secs % 60;
    if y > 0 {
        dec_digits(y as nat) + seq!['y'] + dec_digits(d as nat) + seq!['d'] + dec_digits(h as nat)
            + seq![':'] + pad2(m) + seq![':'] + pad2(s)
    } else if d > 0 {
        dec_digits(d as nat) + seq!['d'] + dec_digits(h as nat) + seq![':'] + pad2(m) + seq![':']
            + pad2(s)
    } else if h > 0 {
        dec_digits(h as nat) + seq![':'] + pad2(m) + seq![':'] + pad2(s)
    } else if m > 0 {
        dec_digits(m as nat) + seq![':'] + pad2(s)
    } else if micros > 0 {
        dec_digits(s as nat) + seq!['.'] + trim_zeros(pad6(micros))
    } else {
        dec_digits(s as nat)
    }
}

/// Append the digits of `n` to `out`.
fn push_dec(out: &mut Vec<char>, n: u64)
    ensures
        final(out)@ == old(out)@ + dec_digits(n as nat),
{
    let digits = format_u128(n as u128);
    let mut i: usize = 0;
    while i < digits.len()
        invariant
            i <= digits@.len(),
            digits@ == dec_digits(n as nat),
            out@ == old(out)@ + digits@.take(i as int),
        decreases digits@.len() - i,
    {
        out.push(digits[i]);
        i = i + 1;
        proof {
            assert(out@ =~= old(out)@ + digits@.take(i as int));
        }
    }
    proof {
        assert(out@ =~= old(out)@ + digits@);
    }
}

/// Append a two-digit zero-padded number to `out`.
fn push_pad2(out: &mut Vec<char>, n: u64)
    ensures
        final(out)@ == old(out)@ + pad2(n as int),
{
    if n < 10 {
        out.push('0');
        out.push(digit_to_char(n as u8));
        proof {
            assert(dec_digits(n as nat) =~= seq![digit_char(n as int)]);
            assert(out@ =~= old(out)@ + pad2(n as int));
        }
    } else {
        push_dec(out, n);
    }
}

/// Render a duration in the compact form.
pub fn duration_format(d: &DurationValue) -> (r: String)
    ensures
        r@ == duration_str(d.secs as int, d.nanos as int / 1000),
{
    let secs = d.secs;
    let micros = d.nanos / 1000;
    let y = secs / 31536000;
    let dd = secs / 86400 % 365;
    let h = secs / 3600 % 24;
    let m = secs / 60 % 60;
    let s = secs % 60;
    let mut out: Vec<char> = Vec::new();
    if y > 0 {
        push_dec(&mut out, y);
        out.push('y');
        push_dec(&mut out, dd);
        out.push('d');
        push_dec(&mut out, h);
        out.push(':');
        push_pad2(&mut out, m);
        out.push(':');
        push_pad2(&mut out, s);
        proof {
            assert(out@ =~= duration_str(d.secs as int, d.nanos as int / 1000));
        }
    } else if dd > 0 {
        push_dec(&mut out, dd);
        out.push('d');
        push_dec(&mut out, h);
        out.push(':');
        push_pad2(&mut out, m);
        out.push(':');
        push_pad2(&mut out, s);
        proof {
            assert(out@ =~= duration_str(d.secs as int, d.nanos as int / 1000));
        }
    } else if h > 0 {
        push_dec(&mut out, h);
        out.push(':');
        push_pad2(&mut out, m);
        out.push(':');
        push_pad2(&mut out, s);
        proof {
            assert(out@ =~= duration_str(d.secs as int, d.nanos as int / 1000));
        }
    } else if m > 0 {
        push_dec(&mut out, m);
        out.push(':');
        push_pad2(&mut out, s);
        proof {
            assert(out@ =~= duration_str(d.secs as int, d.nanos as int / 1000));
        }
    } else if micros > 0 {
        push_dec(&mut out, s);
        out.push('.');
        let frac = trim_zeros_vec(micros);
        let mut i: usize = 0;
        let ghost mid = out@;
        while i < frac.len()
            invariant
                i <= frac@.len(),
                out@ == mid + frac@.take(i as int),
            decreases frac@.len() - i,
        {
            out.push(frac[i]);
            i = i + 1;
            proof {
                assert(out@ =~= mid + frac@.take(i as int));
            }
        }
        proof {
            assert(out@ =~= mid + frac@);
            assert(out@ =~= duration_str(d.secs as int, d.nanos as int / 1000));
        }
    } else {
        push_dec(&mut out, s);
        proof {
            assert(out@ =~= duration_str(d.secs as int, d.nanos as int / 1000));
        }
    }
    chars_to_string(&out)
}

/// The padded microsecond digits with trailing zeros removed.
fn trim_zeros_vec(micros: u32) -> (r: Vec<char>)
    ensures
        r@ == trim_zeros(pad6(micros as int)),
{
    let mut v: Vec<char> = Vec::new();
    v.push(digit_to_char((micros / 100000 % 10) as u8));
    v.push(digit_to_char((micros / 10000 % 10) as u8));
    v.push(digit_to_char((micros / 1000 % 10) as u8));
    v.push(digit_to_char((micros / 100 % 10) as u8));
    v.push(digit_to_char((micros / 10 % 10) as u8));
    v.push(digit_to_char((micros % 10) as u8));
    proof {
        assert(v@ =~= pad6(micros as int));
    }
    let mut n: usize = v.len();
    proof {
        assert(v@.take(n as int) =~= v@);
    }
    while n > 0 && v[n - 1] == '0'
        invariant
            n <= v@.len(),
            v@ == pad6(micros as int),
            trim_zeros(v@.take(n as int)) == trim_zeros(v@),
        decreases n,
    {
        proof {
            assert(v@.take(n as int).last() == v@[n - 1]);
            assert(v@.take(n as int).drop_last() =~= v@.take(n - 1));
        }
        n = n - 1;
    }
    let mut out: Vec<char> = Vec::new();
    let mut i: usize = 0;
    while i < n
        invariant
            i <= n <= v@.len(),
            v@ == pad6(micros as int),
            out@ == v@.take(n as int).take(i as int),
        decreases n - i,
    {
        out.push(v[i]);
        i = i + 1;
        proof {
            assert(out@ =~= v@.take(n as int).take(i as int));
        }
    }
    proof {
        assert(out@ =~= v@.take(n as int));
        if n > 0 {
            assert(v@.take(n as int).last() != '0');
            assert(trim_zeros(v@.take(n as int)) == v@.take(n as int));
        } else {
            assert(v@.take(0) =~= Seq::<char>::empty());
        }
    }
    out
}

} // verus!
