//! Decimal numbers as text.

use vstd::prelude::*;

use crate::text;
use crate::text::{chars_of, Class};
use crate::unicode;

verus! {

/// Every character is a digit.
pub open spec fn all_digits(s: Seq<char>) -> bool {
    forall|i: int| 0 <= i < s.len() ==> unicode::ascii_digit(#[trigger] s[i])
}

/// The number that the digits of `s` write.
pub open spec fn value(s: Seq<char>) -> nat
    decreases s.len(),
{
    if s.len() == 0 {
        0
    } else {
        value(s.drop_last()) * 10 + (s.last() as nat - '0' as nat) as nat
    }
}

/// One or more digits, read as a number.
pub open spec fn parse_digits(s: Seq<char>) -> Option<nat> {
    if s.len() > 0 && all_digits(s) {
        Some(value(s))
    } else {
        None
    }
}

/// An optional plus sign and digits, read as a number.
pub open spec fn parse_unsigned(s: Seq<char>) -> Option<nat> {
    if s.len() > 0 && s[0] == '+' {
        parse_digits(s.drop_first())
    } else {
        parse_digits(s)
    }
}

/// An optional sign and digits, read as a number.
pub open spec fn parse_signed(s: Seq<char>) -> Option<int> {
    if s.len() > 0 && s[0] == '-' {
        match parse_digits(s.drop_first()) {
            Some(n) => Some(-(n as int)),
            None => None,
        }
    } else {
        match parse_unsigned(s) {
            Some(n) => Some(n as int),
            None => None,
        }
    }
}

/// The number that `s` writes, white space around it aside, unless it is over `max`.
pub open spec fn number_up_to(s: Seq<char>, max: nat) -> Option<nat> {
    match parse_unsigned(text::trim(s)) {
        Some(n) if n <= max => Some(n),
        _ => None,
    }
}

/// The digit that writes `n`.
pub open spec fn digit(n: nat) -> char
    recommends
        n < 10,
{
    ('0' as nat + n) as char
}

/// `n` in decimal.
pub open spec fn decimal(n: nat) -> Seq<char>
    decreases n,
{
    if n < 10 {
        seq![digit(n)]
    } else {
        decimal(n / 10).push(digit(n % 10))
    }
}

/// `n` in decimal, with zeros in front up to `width` characters.
pub open spec fn padded(n: nat, width: nat) -> Seq<char> {
    let d = decimal(n);
    if d.len() < width {
        Seq::new((width - d.len()) as nat, |i: int| '0') + d
    } else {
        d
    }
}

/// The number that the digits of `s` from `from` on write, if they are digits and it fits.
fn digits_from(s: &Vec<char>, from: usize) -> (r: Option<u64>)
    requires
        from <= s.len(),
    ensures
        r == match parse_digits(s@.skip(from as int)) {
            Some(n) if n <= u64::MAX => Some(n as u64),
            _ => None::<u64>,
        },
{
    let ghost d = s@.skip(from as int);
    if from == s.len() {
        return None;
    }
    let mut acc: u64 = 0;
    let mut over: bool = false;
    let mut i: usize = from;
    assert(d.take(0) =~= Seq::empty());
    while i < s.len()
        invariant
            from <= i <= s.len(),
            d == s@.skip(from as int),
            forall|k: int| 0 <= k < i - from ==> unicode::ascii_digit(#[trigger] d[k]),
            over ==> value(d.take(i - from)) > u64::MAX,
            !over ==> value(d.take(i - from)) == acc,
        decreases s.len() - i,
    {
        let c = s[i];
        assert(d[i - from] == c);
        if c < '0' || '9' < c {
            assert(!unicode::ascii_digit(d[i - from]));
            return None;
        }
        assert(d.take(i + 1 - from).drop_last() =~= d.take(i - from));
        assert(d.take(i + 1 - from).last() == c);
        let n: u64 = (c as u64) - ('0' as u64);
        if !over {
            if acc > (u64::MAX - n) / 10 {
                over = true;
            } else {
                acc = acc * 10 + n;
            }
        }
        i = i + 1;
    }
    assert(d.take(s.len() - from) =~= d);
    if over {
        None
    } else {
        Some(acc)
    }
}

fn unsigned(s: &Vec<char>) -> (r: Option<u64>)
    ensures
        r == match parse_unsigned(s@) {
            Some(n) if n <= u64::MAX => Some(n as u64),
            _ => None::<u64>,
        },
{
    assert(s@.skip(0) =~= s@);
    if s.len() > 0 && s[0] == '+' {
        assert(s@.skip(1) =~= s@.drop_first());
        digits_from(s, 1)
    } else {
        digits_from(s, 0)
    }
}

/// Reads a number, white space around it aside.
pub fn parse_u64(s: &str) -> (r: Option<u64>)
    ensures
        r == match number_up_to(s@, u64::MAX as nat) {
            Some(n) => Some(n as u64),
            None => None,
        },
{
    unsigned(&text::trimmed(&chars_of(s), Class::Whitespace))
}

/// Reads a number, white space around it aside.
pub fn parse_u32(s: &str) -> (r: Option<u32>)
    ensures
        r == match number_up_to(s@, u32::MAX as nat) {
            Some(n) => Some(n as u32),
            None => None,
        },
{
    match unsigned(&text::trimmed(&chars_of(s), Class::Whitespace)) {
        Some(n) => if n <= u32::MAX as u64 {
            Some(n as u32)
        } else {
            None
        },
        None => None,
    }
}

/// Reads a number with or without a sign, white space around it aside.
pub fn parse_i32(s: &str) -> (r: Option<i32>)
    ensures
        r == match parse_signed(text::trim(s@)) {
            Some(n) if i32::MIN <= n <= i32::MAX => Some(n as i32),
            _ => None::<i32>,
        },
{
    let s = text::trimmed(&chars_of(s), Class::Whitespace);
    if s.len() > 0 && s[0] == '-' {
        assert(s@.skip(1) =~= s@.drop_first());
        match digits_from(&s, 1) {
            Some(n) => if n <= 0x8000_0000 {
                Some((0 - (n as i64)) as i32)
            } else {
                None
            },
            None => None,
        }
    } else {
        match unsigned(&s) {
            Some(n) => if n <= i32::MAX as u64 {
                Some(n as i32)
            } else {
                None
            },
            None => None,
        }
    }
}

/// `n` in decimal.
pub fn decimal_of(n: u64) -> (r: Vec<char>)
    ensures
        r@ == decimal(n as nat),
        r@.len() > 0,
    decreases n,
{
    if n < 10 {
        let mut out: Vec<char> = Vec::new();
        out.push((('0' as u8) + (n as u8)) as char);
        out
    } else {
        let mut out = decimal_of(n / 10);
        out.push((('0' as u8) + ((n % 10) as u8)) as char);
        out
    }
}

/// `n` in decimal, with zeros in front up to `width` characters.
pub fn padded_of(n: u64, width: usize) -> (r: Vec<char>)
    ensures
        r@ == padded(n as nat, width as nat),
{
    let d = decimal_of(n);
    let mut out: Vec<char> = Vec::new();
    if d.len() < width {
        let zeros: usize = width - d.len();
        for i in 0..zeros
            invariant
                out@ == Seq::new(i as nat, |k: int| '0'),
        {
            out.push('0');
            assert(out@ =~= Seq::new((i + 1) as nat, |k: int| '0'));
        }
        assert(out@ =~= Seq::new((width - decimal(n as nat).len()) as nat, |i: int| '0'));
    }
    text::extend(&mut out, &d);
    assert(out@ =~= padded(n as nat, width as nat));
    out
}

/// Reading a number that was written gives it back.
pub proof fn law_decimal_reads_back(n: nat)
    ensures
        parse_unsigned(decimal(n)) == Some(n),
{
    lemma_decimal(n);
    assert(unicode::ascii_digit(decimal(n)[0]));
}

proof fn lemma_decimal(n: nat)
    ensures
        decimal(n).len() > 0,
        all_digits(decimal(n)),
        value(decimal(n)) == n,
    decreases n,
{
    if n < 10 {
        assert(decimal(n).drop_last() =~= Seq::empty());
        assert(value(Seq::empty()) == 0);
    } else {
        lemma_decimal(n / 10);
        assert(decimal(n).drop_last() =~= decimal(n / 10));
    }
}

/// A further digit makes a number ten times as large and adds itself.
pub proof fn law_value(s: Seq<char>, c: char)
    requires
        '0' <= c <= '9',
    ensures
        value(Seq::empty()) == 0,
        value(s.push(c)) == 10 * value(s) + (c as int - '0' as int),
{
    assert(s.push(c).drop_last() =~= s);
}

/// Digits alone, one or more, are a number; a plus sign in front may stand, and a minus sign
/// where the number is signed.
pub proof fn law_numbers(s: Seq<char>)
    requires
        s.len() > 0,
        forall|i: int| 0 <= i < s.len() ==> '0' <= #[trigger] s[i] <= '9',
    ensures
        parse_digits(s) == Some(value(s)),
        parse_unsigned(s) == Some(value(s)),
        parse_unsigned(seq!['+'] + s) == Some(value(s)),
        parse_signed(s) == Some(value(s) as int),
        parse_signed(seq!['+'] + s) == Some(value(s) as int),
        parse_signed(seq!['-'] + s) == Some(0 - value(s)),
{
    assert('0' <= s[0] <= '9');
    assert(all_digits(s)) by {
        assert forall|i: int| 0 <= i < s.len() implies unicode::ascii_digit(#[trigger] s[i]) by {
            assert('0' <= s[i] <= '9');
        }
    }
    assert((seq!['+'] + s).drop_first() =~= s);
    assert((seq!['-'] + s).drop_first() =~= s);
}

/// Nothing else is a number: where one is read there is a digit at the end, every character is a
/// digit but for a sign at the front, and a minus sign is only for signed numbers.
pub proof fn law_only_numbers(s: Seq<char>, i: int)
    requires
        0 <= i < s.len(),
    ensures
        parse_unsigned(s) is Some ==> '0' <= s.last() <= '9' && (i > 0 || s[i] != '+' ==> '0'
            <= s[i] <= '9'),
        parse_signed(s) is Some ==> '0' <= s.last() <= '9' && (i > 0 || s[i] != '+' && s[i] != '-'
            ==> '0' <= s[i] <= '9'),
        parse_unsigned(Seq::empty()) is None,
        parse_signed(Seq::empty()) is None,
{
    let rest = s.drop_first();
    if all_digits(rest) && rest.len() > 0 {
        assert(unicode::ascii_digit(rest[rest.len() - 1]));
        if i > 0 {
            assert(unicode::ascii_digit(rest[i - 1]));
        }
    }
    if all_digits(s) {
        assert(unicode::ascii_digit(s[s.len() - 1]));
        assert(unicode::ascii_digit(s[i]));
    }
}

/// A number that was written, with white space around it, is read as itself if it is within the
/// limit, and refused if it is over it.
pub proof fn law_limits(p: Seq<char>, n: nat, q: Seq<char>, max: nat)
    requires
        forall|i: int| 0 <= i < p.len() ==> unicode::whitespace(#[trigger] p[i]),
        forall|i: int| 0 <= i < q.len() ==> unicode::whitespace(#[trigger] q[i]),
    ensures
        n <= max ==> number_up_to(p + decimal(n) + q, max) == Some(n),
        n > max ==> number_up_to(p + decimal(n) + q, max) is None,
{
    lemma_decimal(n);
    law_decimal_reads_back(n);
    let d = decimal(n);
    assert(unicode::ascii_digit(d[0]));
    assert(unicode::ascii_digit(d[d.len() - 1]));
    text::law_trim(p, d, q);
}

/// A setting is a number within the limit exactly if, trimmed, it is a number and within the
/// limit.
pub proof fn law_number_up_to(s: Seq<char>, max: nat)
    ensures
        number_up_to(s, max) matches Some(n) ==> n <= max && parse_unsigned(text::trim(s)) == Some(
            n,
        ),
        number_up_to(s, max) is None ==> (parse_unsigned(text::trim(s)) matches Some(n) ==> n
            > max),
{
}

/// In decimal a number has only digits, none of them a zero in front of others, and they write
/// the number.
pub proof fn law_decimal(n: nat)
    ensures
        decimal(n).len() > 0,
        forall|i: int| 0 <= i < decimal(n).len() ==> '0' <= #[trigger] decimal(n)[i] <= '9',
        value(decimal(n)) == n,
        decimal(n).len() > 1 ==> decimal(n)[0] != '0',
        decimal(n).len() == 1 <==> n < 10,
    decreases n,
{
    lemma_decimal(n);
    assert forall|i: int| 0 <= i < decimal(n).len() implies '0' <= #[trigger] decimal(n)[i]
        <= '9' by {
        assert(unicode::ascii_digit(decimal(n)[i]));
    }
    if n >= 10 {
        law_decimal(n / 10);
        assert(decimal(n)[0] == decimal(n / 10)[0]);
    }
}

/// Padding puts zeros in front of the number until it is wide enough, and never cuts it.
pub proof fn law_padded(n: nat, width: nat, i: int)
    ensures
        padded(n, width).len() == if decimal(n).len() < width {
            width
        } else {
            decimal(n).len()
        },
        padded(n, width).skip(padded(n, width).len() - decimal(n).len()) == decimal(n),
        0 <= i < padded(n, width).len() - decimal(n).len() ==> padded(n, width)[i] == '0',
{
    assert(padded(n, width).skip(padded(n, width).len() - decimal(n).len()) =~= decimal(n));
}

/// Zeros in front do not change a number.
pub proof fn lemma_padded_reads_back(n: nat, width: nat)
    ensures
        parse_digits(padded(n, width)) == Some(n),
{
    let d = decimal(n);
    lemma_decimal(n);
    if d.len() < width {
        lemma_zeros((width - d.len()) as nat, d);
        let z = Seq::new((width - d.len()) as nat, |i: int| '0');
        assert(all_digits(z + d)) by {
            assert forall|i: int| 0 <= i < (z + d).len() implies unicode::ascii_digit(
                #[trigger] (z + d)[i],
            ) by {
                if i < z.len() {
                    assert((z + d)[i] == '0');
                } else {
                    assert((z + d)[i] == d[i - z.len()]);
                }
            }
        }
    }
}

proof fn lemma_zeros(k: nat, d: Seq<char>)
    ensures
        value(Seq::new(k, |i: int| '0') + d) == value(d),
    decreases d.len(), k,
{
    let z = Seq::new(k, |i: int| '0');
    if d.len() > 0 {
        lemma_zeros(k, d.drop_last());
        assert((z + d).drop_last() =~= z + d.drop_last());
    } else if k > 0 {
        let less = Seq::new((k - 1) as nat, |i: int| '0');
        lemma_zeros((k - 1) as nat, d);
        assert((z + d).drop_last() =~= less + d);
        assert((z + d).last() == '0');
    } else {
        assert(z + d =~= d);
    }
}

/// Small numbers have few digits.
pub proof fn lemma_small_decimal(n: nat)
    requires
        n < 1000,
    ensures
        decimal(n).len() <= 3,
        n < 100 ==> decimal(n).len() <= 2,
{
    reveal_with_fuel(decimal, 3);
}

} // verus!
