//! Reading numbers from text, and writing them.

use vstd::prelude::*;
use vstd::string::*;

verus! {

/// What a decimal digit stands for.
pub open spec fn digit(c: char) -> Option<nat> {
    if '0' <= c <= '9' {
        Some((c as int - '0' as int) as nat)
    } else {
        None
    }
}

/// What a run of decimal digits stands for, if it is one.
pub open spec fn digits(s: Seq<char>) -> Option<nat>
    decreases s.len(),
{
    if s.len() == 0 {
        Some(0)
    } else {
        match (digits(s.drop_last()), digit(s.last())) {
            (Some(high), Some(low)) => Some(high * 10 + low),
            _ => None,
        }
    }
}

/// The digits of a number, after a leading `+` if there is one.
pub open spec fn unsigned(s: Seq<char>) -> Seq<char> {
    if s.len() > 0 && s[0] == '+' {
        s.skip(1)
    } else {
        s
    }
}

/// The whole number that `s` writes in decimal, if it is one and no more than `max`.
pub open spec fn whole_number(s: Seq<char>, max: u64) -> Option<u64> {
    if unsigned(s).len() == 0 {
        None
    } else {
        match digits(unsigned(s)) {
            Some(value) if value <= max => Some(value as u64),
            _ => None,
        }
    }
}

/// Read a whole number no more than `max`.
pub fn parse_whole_number(s: &str, max: u64) -> (r: Option<u64>)
    ensures
        r == whole_number(s@, max),
{
    let n: usize = s.unicode_len();
    let first: usize = if n > 0 && s.get_char(0) == '+' {
        1
    } else {
        0
    };
    let ghost body = unsigned(s@);
    assert(body =~= s@.skip(first as int));
    if first == n {
        return None;
    }
    let mut value: u64 = 0;
    let mut at: usize = first;
    assert(body.take(0).len() == 0);
    while at < n
        invariant
            first <= at <= n,
            n == s@.len(),
            body == unsigned(s@),
            body == s@.skip(first as int),
            digits(body.take(at - first)) == Some(value as nat),
            value <= max,
        decreases n - at,
    {
        let c: char = s.get_char(at);
        let ghost longer = body.take(at - first + 1);
        proof {
            assert(longer.drop_last() =~= body.take(at - first));
            assert(longer.last() == c);
        }
        if !('0' <= c && c <= '9') {
            proof {
                lemma_digits_of_more(body, at - first + 1);
            }
            return None;
        }
        let low: u32 = (c as u32) - ('0' as u32);
        let wide: u128 = (value as u128) * 10 + (low as u128);
        if wide > max as u128 {
            proof {
                lemma_digits_of_more(body, at - first + 1);
            }
            return None;
        }
        value = wide as u64;
        at += 1;
    }
    assert(body.take(n - first) =~= body);
    Some(value)
}

/// A prefix that is no number leaves none, and a longer number is no smaller.
proof fn lemma_digits_of_more(s: Seq<char>, n: int)
    requires
        0 <= n <= s.len(),
    ensures
        digits(s.take(n)) is None ==> digits(s) is None,
        digits(s) is Some ==> digits(s)->Some_0 >= digits(s.take(n))->Some_0,
    decreases s.len() - n,
{
    if n < s.len() {
        lemma_digits_of_more(s, n + 1);
        assert(s.take(n + 1).drop_last() =~= s.take(n));
    } else {
        assert(s.take(n) =~= s);
    }
}

/// The character for a decimal digit.
pub open spec fn digit_char(d: nat) -> char {
    ((d % 10) as int + '0' as int) as char
}

/// `n` in decimal, without leading zeros.
pub open spec fn decimal(n: nat) -> Seq<char>
    decreases n,
{
    if n < 10 {
        seq![digit_char(n)]
    } else {
        decimal(n / 10).push(digit_char(n % 10))
    }
}

/// `n` tenths, to one decimal place.
pub open spec fn tenths(n: nat) -> Seq<char> {
    decimal(n / 10) + "."@ + decimal(n % 10)
}

/// `n` hundredths, to two decimal places.
pub open spec fn hundredths(n: nat) -> Seq<char> {
    decimal(n / 100) + "."@ + decimal(n / 10 % 10) + decimal(n % 10)
}

/// `n` thousandths, to three decimal places.
pub open spec fn thousandths(n: nat) -> Seq<char> {
    decimal(n / 1000) + "."@ + decimal(n / 100 % 10) + decimal(n / 10 % 10) + decimal(n % 10)
}

/// Append `s` to `out`.
pub fn put(out: &mut String, s: &str)
    ensures
        final(out)@ == old(out)@ + s@,
{
    out.append(s);
}

/// Append `n` to `out` in decimal.
pub fn put_number(out: &mut String, n: u64)
    ensures
        final(out)@ == old(out)@ + decimal(n as nat),
{
    put_long_number(out, n as u128);
}

/// Append `n`, which may be longer, to `out` in decimal.
pub fn put_long_number(out: &mut String, n: u128)
    ensures
        final(out)@ == old(out)@ + decimal(n as nat),
    decreases n,
{
    let ghost before = out@;
    if n < 10 {
        put_digit(out, n as u64);
        assert(out@ =~= before + decimal(n as nat));
    } else {
        put_long_number(out, n / 10);
        put_digit(out, (n % 10) as u64);
        assert(decimal(n as nat) == decimal((n / 10) as nat).push(digit_char((n % 10) as nat)));
        assert(out@ =~= before + decimal(n as nat));
    }
}

/// Append one digit.
fn put_digit(out: &mut String, d: u64)
    requires
        d < 10,
    ensures
        final(out)@ == old(out)@.push(digit_char(d as nat)),
{
    let ghost before = out@;
    let s: &str = if d == 0 {
        "0"
    } else if d == 1 {
        "1"
    } else if d == 2 {
        "2"
    } else if d == 3 {
        "3"
    } else if d == 4 {
        "4"
    } else if d == 5 {
        "5"
    } else if d == 6 {
        "6"
    } else if d == 7 {
        "7"
    } else if d == 8 {
        "8"
    } else {
        "9"
    };
    proof {
        reveal_strlit("0");
        reveal_strlit("1");
        reveal_strlit("2");
        reveal_strlit("3");
        reveal_strlit("4");
        reveal_strlit("5");
        reveal_strlit("6");
        reveal_strlit("7");
        reveal_strlit("8");
        reveal_strlit("9");
        assert(s@ =~= seq![digit_char(d as nat)]);
    }
    put(out, s);
    assert(out@ =~= before.push(digit_char(d as nat)));
}

/// Append `n` tenths to `out`, to one decimal place.
pub fn put_tenths(out: &mut String, n: u128)
    ensures
        final(out)@ == old(out)@ + tenths(n as nat),
{
    let ghost before = out@;
    put_long_number(out, n / 10);
    put(out, ".");
    put_long_number(out, n % 10);
    assert(out@ =~= before + tenths(n as nat));
}

/// Append `n` hundredths to `out`, to two decimal places.
pub fn put_hundredths(out: &mut String, n: u128)
    ensures
        final(out)@ == old(out)@ + hundredths(n as nat),
{
    let ghost before = out@;
    put_long_number(out, n / 100);
    put(out, ".");
    put_long_number(out, n / 10 % 10);
    put_long_number(out, n % 10);
    assert(out@ =~= before + hundredths(n as nat));
}

/// Append `n` thousandths to `out`, to three decimal places.
pub fn put_thousandths(out: &mut String, n: u128)
    ensures
        final(out)@ == old(out)@ + thousandths(n as nat),
{
    let ghost before = out@;
    put_long_number(out, n / 1000);
    put(out, ".");
    put_long_number(out, n / 100 % 10);
    put_long_number(out, n / 10 % 10);
    put_long_number(out, n % 10);
    assert(out@ =~= before + thousandths(n as nat));
}

/// A number written and read back is the same number.
pub proof fn law_numbers_read_back(n: u64, max: u64)
    requires
        n <= max,
    ensures
        whole_number(decimal(n as nat), max) == Some(n),
{
    lemma_decimal_digits(n as nat);
}

/// What the digits of a number are.
pub proof fn lemma_decimal_digits(n: nat)
    ensures
        decimal(n).len() >= 1,
        decimal(n)[0] != '+',
        digits(decimal(n)) == Some(n),
    decreases n,
{
    let last = digit_char(n % 10);
    assert(digit(last) == Some((n % 10) as nat));
    if n < 10 {
        let s = decimal(n);
        assert(s.drop_last() =~= Seq::<char>::empty());
        assert(digits(s.drop_last()) == Some(0nat));
    } else {
        lemma_decimal_digits(n / 10);
        assert(decimal(n).drop_last() =~= decimal(n / 10));
    }
}

/// A digit written behind a number makes it ten times as large, and the digit more.
proof fn lemma_one_more_digit(s: Seq<char>, d: nat)
    requires
        digits(s) is Some,
        d < 10,
    ensures
        digits(s.push(digit_char(d))) == Some((digits(s)->Some_0 * 10 + d) as nat),
        decimal(d) == seq![digit_char(d)],
{
    assert(s.push(digit_char(d)).drop_last() =~= s);
    assert(digit(digit_char(d)) == Some(d));
}

/// A number with decimal places is its digits with a point set in front of the last of
/// them: one for tenths, two for hundredths, three for thousandths.
pub proof fn law_decimal_places_read_back(n: nat)
    ensures
        ({
            let (a, b, c) = (tenths(n), hundredths(n), thousandths(n));
            &&& a.len() >= 3 && a[a.len() - 2] == '.'
            &&& digits(a.take(a.len() - 2) + a.skip(a.len() - 1)) == Some(n)
            &&& b.len() >= 4 && b[b.len() - 3] == '.'
            &&& digits(b.take(b.len() - 3) + b.skip(b.len() - 2)) == Some(n)
            &&& c.len() >= 5 && c[c.len() - 4] == '.'
            &&& digits(c.take(c.len() - 4) + c.skip(c.len() - 3)) == Some(n)
        }),
{
    reveal_strlit(".");
    let (t, h, m) = ((n % 10) as nat, (n / 10 % 10) as nat, (n / 100 % 10) as nat);
    let (x, y, z) = (digit_char(t), digit_char(h), digit_char(m));
    lemma_decimal_digits(n / 10);
    lemma_decimal_digits(n / 100);
    lemma_decimal_digits(n / 1000);
    lemma_one_more_digit(decimal(n / 10), t);
    lemma_one_more_digit(decimal(n / 100), h);
    lemma_one_more_digit(decimal(n / 100).push(y), t);
    lemma_one_more_digit(decimal(n / 1000), m);
    lemma_one_more_digit(decimal(n / 1000).push(z), h);
    lemma_one_more_digit(decimal(n / 1000).push(z).push(y), t);
    let (a, b, c) = (tenths(n), hundredths(n), thousandths(n));
    assert(a.take(a.len() - 2) + a.skip(a.len() - 1) =~= decimal(n / 10).push(x));
    assert(b.take(b.len() - 3) + b.skip(b.len() - 2) =~= decimal(n / 100).push(y).push(x));
    assert(c.take(c.len() - 4) + c.skip(c.len() - 3) =~= decimal(n / 1000).push(z).push(y).push(x));
}

} // verus!
