//! Wall-clock stamps for log lines.

use vstd::prelude::*;

use crate::number;
use crate::text;
use crate::text::string_of;

verus! {

/// A local time of day.
#[derive(Clone, Copy, Debug, PartialEq, Eq, Structural)]
pub struct LocalTime {
    pub hour: u32,
    pub minute: u32,
    pub second: u32,
}

/// A stamp: `HH:MM:SS.mmm` in local time, or `epoch.mmm` where the local time is not known.
pub open spec fn stamp_text(local: Option<LocalTime>, secs: nat, millis: nat) -> Seq<char> {
    match local {
        Some(t) => number::padded(t.hour as nat, 2).push(':') + number::padded(t.minute as nat, 2)
            .push(':') + number::padded(t.second as nat, 2).push('.') + number::padded(millis, 3),
        None => number::decimal(secs).push('.') + number::padded(millis, 3),
    }
}

/// A stamp for the moment `secs` seconds and `millis` milliseconds after the epoch, whose local
/// time of day is `local` if it is known.
pub fn stamp(local: Option<LocalTime>, secs: u64, millis: u32) -> (r: String)
    ensures
        r@ == stamp_text(local, secs as nat, millis as nat),
{
    let fraction = number::padded_of(millis as u64, 3);
    let mut out: Vec<char>;
    match local {
        Some(t) => {
            out = number::padded_of(t.hour as u64, 2);
            out.push(':');
            text::extend(&mut out, &number::padded_of(t.minute as u64, 2));
            out.push(':');
            text::extend(&mut out, &number::padded_of(t.second as u64, 2));
            out.push('.');
        },
        None => {
            out = number::decimal_of(secs);
            out.push('.');
        },
    }
    text::extend(&mut out, &fraction);
    assert(out@ =~= stamp_text(local, secs as nat, millis as nat));
    string_of(&out)
}

/// A local stamp has the hour, the minute, the second and the milliseconds at their places, in
/// two, two, two and three digits.
pub proof fn law_local_stamp(t: LocalTime, secs: nat, millis: nat)
    requires
        t.hour < 100,
        t.minute < 100,
        t.second < 100,
        millis < 1000,
    ensures
        ({
            let s = stamp_text(Some(t), secs, millis);
            &&& s.len() == 12
            &&& s[2] == ':' && s[5] == ':' && s[8] == '.'
            &&& number::parse_digits(s.subrange(0, 2)) == Some(t.hour as nat)
            &&& number::parse_digits(s.subrange(3, 5)) == Some(t.minute as nat)
            &&& number::parse_digits(s.subrange(6, 8)) == Some(t.second as nat)
            &&& number::parse_digits(s.subrange(9, 12)) == Some(millis)
        }),
{
    let s = stamp_text(Some(t), secs, millis);
    number::lemma_padded_reads_back(t.hour as nat, 2);
    number::lemma_padded_reads_back(t.minute as nat, 2);
    number::lemma_padded_reads_back(t.second as nat, 2);
    number::lemma_padded_reads_back(millis, 3);
    number::lemma_small_decimal(t.hour as nat);
    number::lemma_small_decimal(t.minute as nat);
    number::lemma_small_decimal(t.second as nat);
    number::lemma_small_decimal(millis);
    assert(s.subrange(0, 2) =~= number::padded(t.hour as nat, 2));
    assert(s.subrange(3, 5) =~= number::padded(t.minute as nat, 2));
    assert(s.subrange(6, 8) =~= number::padded(t.second as nat, 2));
    assert(s.subrange(9, 12) =~= number::padded(millis, 3));
}

/// Without a local time the stamp is the seconds, a point, and the milliseconds in three digits.
pub proof fn law_epoch_stamp(secs: nat, millis: nat)
    requires
        millis < 1000,
    ensures
        ({
            let s = stamp_text(None, secs, millis);
            let n = s.len() - 4;
            &&& n > 0
            &&& s[n] == '.'
            &&& s.take(n) == number::decimal(secs)
            &&& number::parse_digits(s.skip(n + 1)) == Some(millis)
        }),
{
    let s = stamp_text(None, secs, millis);
    number::lemma_padded_reads_back(millis, 3);
    number::lemma_small_decimal(millis);
    number::law_decimal(secs);
    let n = s.len() - 4;
    assert(s.take(n) =~= number::decimal(secs));
    assert(s.skip(n + 1) =~= number::padded(millis, 3));
}

/// Whatever the numbers are, a stamp has them in their order, never cut, with at least two digits
/// for the time of day and three for the milliseconds, and one mark between neighbours.
pub proof fn law_stamps_are_never_cut(t: LocalTime, secs: nat, millis: nat)
    ensures
        ({
            let s = stamp_text(Some(t), secs, millis);
            let a = number::padded(t.hour as nat, 2).len() as int;
            let b = a + 1 + number::padded(t.minute as nat, 2).len();
            let c = b + 1 + number::padded(t.second as nat, 2).len();
            &&& a >= 2 && b >= 5 && c >= 8 && s.len() >= c + 4
            &&& s[a] == ':' && s[b] == ':' && s[c] == '.'
            &&& number::parse_digits(s.take(a)) == Some(t.hour as nat)
            &&& number::parse_digits(s.subrange(a + 1, b)) == Some(t.minute as nat)
            &&& number::parse_digits(s.subrange(b + 1, c)) == Some(t.second as nat)
            &&& number::parse_digits(s.skip(c + 1)) == Some(millis)
        }),
        ({
            let s = stamp_text(None, secs, millis);
            let n = number::decimal(secs).len() as int;
            &&& s.len() >= n + 4
            &&& s.take(n) == number::decimal(secs)
            &&& s[n] == '.'
            &&& number::parse_digits(s.skip(n + 1)) == Some(millis)
        }),
{
    number::lemma_padded_reads_back(t.hour as nat, 2);
    number::lemma_padded_reads_back(t.minute as nat, 2);
    number::lemma_padded_reads_back(t.second as nat, 2);
    number::lemma_padded_reads_back(millis, 3);
    number::law_padded(t.hour as nat, 2, 0);
    number::law_padded(t.minute as nat, 2, 0);
    number::law_padded(t.second as nat, 2, 0);
    number::law_padded(millis, 3, 0);
    let s = stamp_text(Some(t), secs, millis);
    let a = number::padded(t.hour as nat, 2).len() as int;
    let b = a + 1 + number::padded(t.minute as nat, 2).len();
    let c = b + 1 + number::padded(t.second as nat, 2).len();
    assert(s.take(a) =~= number::padded(t.hour as nat, 2));
    assert(s.subrange(a + 1, b) =~= number::padded(t.minute as nat, 2));
    assert(s.subrange(b + 1, c) =~= number::padded(t.second as nat, 2));
    assert(s.skip(c + 1) =~= number::padded(millis, 3));
    let e = stamp_text(None, secs, millis);
    let n = number::decimal(secs).len() as int;
    assert(e.take(n) =~= number::decimal(secs));
    assert(e.skip(n + 1) =~= number::padded(millis, 3));
}

} // verus!
