//! Decimal numbers in text: how an integer is written and which texts are read as one.
use crate::text::chars_of;
use vstd::prelude::*;

verus! {

/// Whether `c` is one of `0` to `9`.
pub open spec fn is_digit(c: char) -> bool {
    '0' <= c <= '9'
}

/// The number that a digit stands for.
pub open spec fn digit_value(c: char) -> nat {
    if is_digit(c) {
        (c as int - '0' as int) as nat
    } else {
        0
    }
}

/// Whether every character of `s` is a digit.
pub open spec fn all_digits(s: Seq<char>) -> bool {
    forall|i: int| 0 <= i < s.len() ==> is_digit(#[trigger] s[i])
}

/// The number that a text of digits stands for.
pub open spec fn value(s: Seq<char>) -> nat
    decreases s.len(),
{
    if s.len() == 0 {
        0
    } else {
        value(s.drop_last()) * 10 + digit_value(s.last())
    }
}

/// The digit that stands for `d`, a number below ten.
pub open spec fn digit_of(d: nat) -> char {
    ('0' as int + d) as char
}

/// `n` written in decimal, without leading zeros.
pub open spec fn decimal(n: nat) -> Seq<char>
    decreases n,
{
    if n < 10 {
        seq![digit_of(n)]
    } else {
        decimal(n / 10).push(digit_of(n % 10))
    }
}

/// `n` written in decimal, with a leading `-` if it is negative.
pub open spec fn int_text(n: int) -> Seq<char> {
    if n < 0 {
        seq!['-'] + decimal((-n) as nat)
    } else {
        decimal(n as nat)
    }
}

/// The number that a non-empty text of digits stands for, if it is at most `max`.
pub open spec fn bounded_value(s: Seq<char>, max: nat) -> Option<nat> {
    if s.len() > 0 && all_digits(s) && value(s) <= max {
        Some(value(s))
    } else {
        None
    }
}

/// `s` without a leading `+`.
pub open spec fn without_plus(s: Seq<char>) -> Seq<char> {
    if s.len() > 0 && s[0] == '+' {
        s.drop_first()
    } else {
        s
    }
}

/// The number that `s` is read as by an unsigned type whose largest value is `max`: digits, after
/// an optional `+`.
pub open spec fn read_unsigned(s: Seq<char>, max: nat) -> Option<nat> {
    bounded_value(without_plus(s), max)
}

/// The number that `s` is read as by an `i32`: digits, after an optional `+` or `-`.
pub open spec fn read_i32(s: Seq<char>) -> Option<int> {
    if s.len() > 0 && s[0] == '-' {
        match bounded_value(s.drop_first(), 0x8000_0000) {
            Some(n) => Some(-n),
            None => None,
        }
    } else {
        match read_unsigned(s, 0x7fff_ffff) {
            Some(n) => Some(n as int),
            None => None,
        }
    }
}

proof fn lemma_value_of_prefix(s: Seq<char>, k: int)
    requires
        0 <= k <= s.len(),
    ensures
        value(s.take(k)) <= value(s),
    decreases s.len() - k,
{
    if k < s.len() {
        lemma_value_of_prefix(s, k + 1);
        assert(s.take(k + 1).drop_last() =~= s.take(k));
    } else {
        assert(s.take(k) =~= s);
    }
}

/// A number written in decimal is a non-empty text of digits that stands for that number.
pub proof fn lemma_decimal_is_read_back(n: nat)
    ensures
        decimal(n).len() > 0,
        all_digits(decimal(n)),
        value(decimal(n)) == n,
    decreases n,
{
    if n < 10 {
        assert(decimal(n).drop_last() =~= Seq::<char>::empty());
        assert(value(decimal(n).drop_last()) == 0);
    } else {
        lemma_decimal_is_read_back(n / 10);
        assert(decimal(n).drop_last() =~= decimal(n / 10));
    }
}

/// A number that fits an unsigned type is read back from its decimal text.
pub proof fn lemma_unsigned_round_trip(n: nat, max: nat)
    requires
        n <= max,
    ensures
        read_unsigned(decimal(n), max) == Some(n),
{
    lemma_decimal_is_read_back(n);
    assert(is_digit(decimal(n)[0]));
}

/// An `i32` is read back from its decimal text.
pub proof fn lemma_i32_round_trip(n: i32)
    ensures
        read_i32(int_text(n as int)) == Some(n as int),
{
    if n < 0 {
        lemma_decimal_is_read_back((-n) as nat);
        assert(int_text(n as int).drop_first() =~= decimal((-n) as nat));
    } else {
        lemma_unsigned_round_trip(n as nat, 0x7fff_ffff);
        lemma_decimal_is_read_back(n as nat);
        assert(is_digit(decimal(n as nat)[0]));
    }
}

/// The number that `v`, from index `from` on, stands for if it is a non-empty text of digits and
/// the number is at most `max`.
fn digits_value(v: &Vec<char>, from: usize, max: u64) -> (r: Option<u64>)
    requires
        from <= v.len(),
    ensures
        match r {
            Some(n) => bounded_value(v@.skip(from as int), max as nat) == Some(n as nat),
            None => bounded_value(v@.skip(from as int), max as nat) is None,
        },
{
    let ghost s = v@.skip(from as int);
    if from == v.len() {
        return None;
    }
    let mut n: u64 = 0;
    let mut i: usize = from;
    while i < v.len()
        invariant
            from <= i <= v.len(),
            s == v@.skip(from as int),
            all_digits(s.take(i - from)),
            value(s.take(i - from)) == n,
            n <= max,
        decreases v.len() - i,
    {
        let c = v[i];
        assert(s[i - from] == c);
        if !(c >= '0' && c <= '9') {
            return None;
        }
        let d: u64 = (c as u32 - '0' as u32) as u64;
        proof {
            lemma_value_of_prefix(s, i - from + 1);
            assert(s.take(i - from + 1).drop_last() =~= s.take(i - from));
        }
        if d > max || n > (max - d) / 10 {
            return None;
        }
        n = n * 10 + d;
        i = i + 1;
    }
    assert(s.take(i - from) =~= s);
    Some(n)
}

/// Reads a `u64`, as `str::parse` does.
pub fn parse_u64(s: &str) -> (r: Option<u64>)
    ensures
        match r {
            Some(n) => read_unsigned(s@, u64::MAX as nat) == Some(n as nat),
            None => read_unsigned(s@, u64::MAX as nat) is None,
        },
{
    let v = chars_of(s);
    assert(v@.skip(0) =~= v@);
    assert(v.len() > 0 ==> v@.skip(1) =~= v@.drop_first());
    let from: usize = if v.len() > 0 && v[0] == '+' { 1 } else { 0 };
    digits_value(&v, from, u64::MAX)
}

/// Reads a `u16`, as `str::parse` does.
pub fn parse_u16(s: &str) -> (r: Option<u16>)
    ensures
        match r {
            Some(n) => read_unsigned(s@, u16::MAX as nat) == Some(n as nat),
            None => read_unsigned(s@, u16::MAX as nat) is None,
        },
{
    let v = chars_of(s);
    assert(v@.skip(0) =~= v@);
    assert(v.len() > 0 ==> v@.skip(1) =~= v@.drop_first());
    let from: usize = if v.len() > 0 && v[0] == '+' { 1 } else { 0 };
    match digits_value(&v, from, 0xffff) {
        Some(n) => Some(n as u16),
        None => None,
    }
}

/// Reads an `i32`, as `str::parse` does.
pub fn parse_i32(s: &str) -> (r: Option<i32>)
    ensures
        match r {
            Some(n) => read_i32(s@) == Some(n as int),
            None => read_i32(s@) is None,
        },
{
    let v = chars_of(s);
    assert(v@.skip(0) =~= v@);
    assert(v.len() > 0 ==> v@.skip(1) =~= v@.drop_first());
    if v.len() > 0 && v[0] == '-' {
        match digits_value(&v, 1, 0x8000_0000) {
            Some(n) => Some((-(n as i64)) as i32),
            None => None,
        }
    } else {
        let from: usize = if v.len() > 0 && v[0] == '+' { 1 } else { 0 };
        match digits_value(&v, from, 0x7fff_ffff) {
            Some(n) => Some(n as i32),
            None => None,
        }
    }
}

/// Whether `s` is made of digits alone.
pub fn is_all_digits(s: &str) -> (r: bool)
    ensures
        r == all_digits(s@),
{
    let v = chars_of(s);
    let mut i: usize = 0;
    while i < v.len()
        invariant
            i <= v.len(),
            v@ == s@,
            forall|j: int| 0 <= j < i ==> is_digit(#[trigger] s@[j]),
        decreases v.len() - i,
    {
        let c = v[i];
        if !(c >= '0' && c <= '9') {
            assert(!is_digit(s@[i as int]));
            return false;
        }
        i = i + 1;
    }
    true
}

/// Appends `n` in decimal.
pub fn push_u64(out: &mut String, n: u64)
    ensures
        final(out)@ == old(out)@ + decimal(n as nat),
    decreases n,
{
    if n >= 10 {
        push_u64(out, n / 10);
    }
    let d: u8 = (n % 10) as u8;
    out.push((48u8 + d) as char);
}

/// Appends `n` in decimal, with a leading `-` if it is negative.
pub fn push_i32(out: &mut String, n: i32)
    ensures
        final(out)@ == old(out)@ + int_text(n as int),
{
    if n < 0 {
        out.push('-');
        push_u64(out, (-(n as i64)) as u64);
    } else {
        push_u64(out, n as u64);
    }
}

/// A number below ten is written as its digit, and each further digit is put behind; a negative
/// number has a `-` in front.
pub proof fn law_decimal(n: nat, d: nat)
    requires
        d < 10,
    ensures
        decimal(d) == seq![('0' as int + d) as char],
        n > 0 ==> decimal(10 * n + d) == decimal(n).push(('0' as int + d) as char),
        n > 0 ==> int_text(-(n as int)) == seq!['-'] + decimal(n),
        int_text(n as int) == decimal(n),
{
    assert((10 * n + d) / 10 == n);
    assert((10 * n + d) % 10 == d);
}

proof fn lemma_value_behind_zeros(zeros: nat, s: Seq<char>)
    ensures
        value(Seq::new(zeros, |i: int| '0') + s) == value(s),
    decreases s.len(), zeros,
{
    let front = Seq::new(zeros, |i: int| '0');
    if s.len() == 0 {
        assert(front + s =~= front);
        if zeros > 0 {
            let fewer = (zeros - 1) as nat;
            assert(front.drop_last() =~= Seq::new(fewer, |i: int| '0'));
            assert(Seq::new(fewer, |i: int| '0') + s =~= Seq::new(fewer, |i: int| '0'));
            lemma_value_behind_zeros(fewer, s);
        }
    } else {
        assert((front + s).drop_last() =~= front + s.drop_last());
        assert((front + s).last() == s.last());
        lemma_value_behind_zeros(zeros, s.drop_last());
    }
}

/// A number is read from its digits, with any leading zeros and with or without a `+`, exactly if
/// it fits.
pub proof fn law_numbers_are_read(zeros: nat, n: nat, max: nat)
    ensures
        ({
            let digits = Seq::new(zeros, |i: int| '0') + decimal(n);
            let read = if n <= max {
                Some(n)
            } else {
                None
            };
            &&& read_unsigned(digits, max) == read
            &&& read_unsigned(seq!['+'] + digits, max) == read
            &&& read_i32(digits) == (if n <= 0x7fff_ffff {
                Some(n as int)
            } else {
                None
            })
            &&& read_i32(seq!['-'] + digits) == (if n <= 0x8000_0000 {
                Some(-(n as int))
            } else {
                None
            })
        }),
{
    let front = Seq::new(zeros, |i: int| '0');
    let digits = front + decimal(n);
    lemma_decimal_is_read_back(n);
    lemma_value_behind_zeros(zeros, decimal(n));
    assert forall|i: int| 0 <= i < digits.len() implies is_digit(#[trigger] digits[i]) by {
        if i >= zeros {
            assert(digits[i] == decimal(n)[i - zeros]);
        }
    }
    assert(is_digit(digits[0]));
    assert((seq!['+'] + digits).drop_first() =~= digits);
    assert((seq!['-'] + digits).drop_first() =~= digits);
}

/// What holds no digit, or anything behind its sign that is no digit, is not read as a number.
pub proof fn law_other_texts_are_no_numbers(s: Seq<char>, i: int, max: nat)
    requires
        s.len() == 0 || (0 <= i < s.len() && !('0' <= s[i] <= '9') && (i > 0 || s.len() == 1 || (
        s[i] != '+' && s[i] != '-'))),
    ensures
        read_unsigned(s, max) is None,
        read_i32(s) is None,
{
    if s.len() > 1 && i > 0 {
        assert(!is_digit(s.drop_first()[i - 1]));
    }
    if s.len() > 0 {
        assert(!is_digit(s[i]));
    }
}

} // verus!
