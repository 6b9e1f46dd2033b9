//! Unsigned numbers as text, in base ten and base sixteen.

use vstd::prelude::*;
use vstd::slice::slice_subrange;

use crate::text::string_of;

verus! {

/// The number that a digit stands for: `0` to `9`, then `a` to `f` in either
/// case.
pub open spec fn digit_value(c: char) -> Option<nat> {
    match c {
        '0' => Some(0),
        '1' => Some(1),
        '2' => Some(2),
        '3' => Some(3),
        '4' => Some(4),
        '5' => Some(5),
        '6' => Some(6),
        '7' => Some(7),
        '8' => Some(8),
        '9' => Some(9),
        'a' | 'A' => Some(10),
        'b' | 'B' => Some(11),
        'c' | 'C' => Some(12),
        'd' | 'D' => Some(13),
        'e' | 'E' => Some(14),
        'f' | 'F' => Some(15),
        _ => None,
    }
}

pub fn value_of_digit(c: char) -> (r: Option<u64>)
    ensures
        match r {
            Some(d) => digit_value(c) == Some(d as nat) && d < 16,
            None => digit_value(c) is None,
        },
{
    match c {
        '0' => Some(0),
        '1' => Some(1),
        '2' => Some(2),
        '3' => Some(3),
        '4' => Some(4),
        '5' => Some(5),
        '6' => Some(6),
        '7' => Some(7),
        '8' => Some(8),
        '9' => Some(9),
        'a' | 'A' => Some(10),
        'b' | 'B' => Some(11),
        'c' | 'C' => Some(12),
        'd' | 'D' => Some(13),
        'e' | 'E' => Some(14),
        'f' | 'F' => Some(15),
        _ => None,
    }
}

/// The digit for a number below sixteen, letters small.
pub open spec fn digit(d: nat) -> char {
    if d == 0 {
        '0'
    } else if d == 1 {
        '1'
    } else if d == 2 {
        '2'
    } else if d == 3 {
        '3'
    } else if d == 4 {
        '4'
    } else if d == 5 {
        '5'
    } else if d == 6 {
        '6'
    } else if d == 7 {
        '7'
    } else if d == 8 {
        '8'
    } else if d == 9 {
        '9'
    } else if d == 10 {
        'a'
    } else if d == 11 {
        'b'
    } else if d == 12 {
        'c'
    } else if d == 13 {
        'd'
    } else if d == 14 {
        'e'
    } else {
        'f'
    }
}

pub fn digit_of(d: u64) -> (c: char)
    requires
        d < 16,
    ensures
        c == digit(d as nat),
{
    match d {
        0 => '0',
        1 => '1',
        2 => '2',
        3 => '3',
        4 => '4',
        5 => '5',
        6 => '6',
        7 => '7',
        8 => '8',
        9 => '9',
        10 => 'a',
        11 => 'b',
        12 => 'c',
        13 => 'd',
        14 => 'e',
        _ => 'f',
    }
}

/// `c` is a digit of the base.
pub open spec fn is_digit(c: char, base: nat) -> bool {
    digit_value(c) is Some && digit_value(c)->0 < base
}

/// Every character is a digit of the base.
pub open spec fn all_digits(s: Seq<char>, base: nat) -> bool {
    forall|i: int| 0 <= i < s.len() ==> is_digit(#[trigger] s[i], base)
}

/// The number that a run of digits stands for.
pub open spec fn value(s: Seq<char>, base: nat) -> nat
    decreases s.len(),
{
    if s.len() == 0 {
        0
    } else {
        value(s.drop_last(), base) * base + digit_value(s.last()).unwrap_or(0)
    }
}

/// What a text of an optional `+` and at least one digit stands for, provided
/// that it does not exceed `max`.
pub open spec fn parse(s: Seq<char>, base: nat, max: nat) -> Option<nat> {
    let t = if s.len() > 0 && s[0] == '+' {
        s.drop_first()
    } else {
        s
    };
    if t.len() > 0 && all_digits(t, base) && value(t, base) <= max {
        Some(value(t, base))
    } else {
        None
    }
}

/// A run of digits is worth at least as much as what it begins with.
proof fn lemma_value_prefix(s: Seq<char>, base: nat, i: int)
    requires
        0 <= i <= s.len(),
        base >= 1,
    ensures
        value(s.take(i), base) <= value(s, base),
    decreases s.len() - i,
{
    if i < s.len() {
        lemma_value_prefix(s, base, i + 1);
        let t = s.take(i + 1);
        assert(t.drop_last() =~= s.take(i));
        let v = value(s.take(i), base);
        assert(v * base >= v) by (nonlinear_arith)
            requires
                base >= 1,
        ;
    } else {
        assert(s.take(i) =~= s);
    }
}

pub fn parse_number(s: &[char], base: u64, max: u64) -> (r: Option<u64>)
    requires
        2 <= base <= 16,
    ensures
        match r {
            Some(n) => parse(s@, base as nat, max as nat) == Some(n as nat) && n <= max,
            None => parse(s@, base as nat, max as nat) is None,
        },
{
    let t = if s.len() > 0 && s[0] == '+' {
        slice_subrange(s, 1, s.len())
    } else {
        s
    };
    proof {
        if s@.len() > 0 && s@[0] == '+' {
            assert(t@ =~= s@.drop_first());
        }
    }
    if t.len() == 0 {
        return None;
    }
    let mut n: u64 = 0;
    let mut i: usize = 0;
    while i < t.len()
        invariant
            2 <= base <= 16,
            i <= t@.len(),
            forall|j: int| 0 <= j < i ==> is_digit(#[trigger] t@[j], base as nat),
            n == value(t@.take(i as int), base as nat),
            n <= max,
            t@.len() > 0,
            t@ == (if s@.len() > 0 && s@[0] == '+' {
                s@.drop_first()
            } else {
                s@
            }),
        decreases t@.len() - i,
    {
        let d: u64 = match value_of_digit(t[i]) {
            Some(d) => d,
            None => {
                proof {
                    assert(!is_digit(t@[i as int], base as nat));
                }
                return None;
            },
        };
        if d >= base {
            proof {
                assert(!is_digit(t@[i as int], base as nat));
            }
            return None;
        }
        proof {
            let head = t@.take(i + 1);
            assert(head.drop_last() =~= t@.take(i as int));
            assert(head.last() == t@[i as int]);
            assert(value(head, base as nat) == n as nat * base as nat + d as nat);
            lemma_value_prefix(t@, base as nat, i + 1);
            assert(n as nat * base as nat <= 0xffff_ffff_ffff_ffff * 16) by (nonlinear_arith)
                requires
                    n <= 0xffff_ffff_ffff_ffff,
                    base <= 16,
            ;
        }
        let m: u128 = (n as u128) * (base as u128) + (d as u128);
        if m > max as u128 {
            return None;
        }
        n = m as u64;
        i += 1;
    }
    proof {
        assert(t@.take(i as int) =~= t@);
    }
    Some(n)
}

/// A number in base ten, without leading zeros.
pub open spec fn decimal(n: nat) -> Seq<char>
    decreases n,
{
    if n < 10 {
        seq![digit(n)]
    } else {
        decimal(n / 10).push(digit(n % 10))
    }
}

pub fn decimal_chars(n: u64) -> (r: Vec<char>)
    ensures
        r@ == decimal(n as nat),
    decreases n,
{
    if n < 10 {
        let mut r: Vec<char> = Vec::new();
        r.push(digit_of(n));
        proof {
            assert(r@ =~= decimal(n as nat));
        }
        r
    } else {
        let mut r = decimal_chars(n / 10);
        r.push(digit_of(n % 10));
        r
    }
}

pub fn decimal_text(n: u64) -> (r: String)
    ensures
        r@ == decimal(n as nat),
{
    string_of(&decimal_chars(n))
}

proof fn lemma_digit(d: nat)
    requires
        d < 16,
    ensures
        digit_value(digit(d)) == Some(d),
{
}

/// A number written in base ten reads back as itself, and its text is made of
/// digits without a leading zero.
pub proof fn lemma_decimal_reads_back(n: nat)
    ensures
        decimal(n).len() > 0,
        all_digits(decimal(n), 10),
        value(decimal(n), 10) == n,
        decimal(n)[0] == '0' ==> n == 0,
        n < 10 ==> decimal(n).len() == 1,
        10 <= n < 100 ==> decimal(n).len() == 2,
        100 <= n < 1000 ==> decimal(n).len() == 3,
        n >= 1000 ==> decimal(n).len() > 3,
    decreases n,
{
    if n < 10 {
        lemma_digit(n);
        let s = decimal(n);
        assert(s.drop_last() =~= Seq::<char>::empty());
        assert(value(s.drop_last(), 10) == 0);
    } else {
        lemma_decimal_reads_back(n / 10);
        lemma_digit(n % 10);
        let s = decimal(n);
        assert(s.drop_last() =~= decimal(n / 10));
        assert(s[0] == decimal(n / 10)[0]);
    }
}

/// A run of decimal digits without a leading zero is the text of its number.
pub proof fn lemma_digits_are_decimal(s: Seq<char>)
    requires
        s.len() > 0,
        all_digits(s, 10),
        s.len() > 1 ==> s[0] != '0',
    ensures
        decimal(value(s, 10)) == s,
    decreases s.len(),
{
    let front = s.drop_last();
    assert(is_digit(s.last(), 10));
    let d = digit_value(s.last())->0;
    assert(digit(d) == s.last());
    if s.len() == 1 {
        assert(value(front, 10) == 0);
        assert(decimal(d) =~= s);
    } else {
        assert(all_digits(front, 10)) by {
            assert forall|i: int| 0 <= i < front.len() implies is_digit(#[trigger] front[i], 10) by {
                assert(is_digit(s[i], 10));
            }
        }
        assert(front[0] == s[0]);
        lemma_digits_are_decimal(front);
        let v = value(front, 10);
        lemma_nonzero(front);
        assert((v * 10 + d) / 10 == v);
        assert((v * 10 + d) % 10 == d);
        assert(decimal(value(s, 10)) =~= s);
    }
}

/// A run of digits that does not begin with a zero is not worth zero.
proof fn lemma_nonzero(s: Seq<char>)
    requires
        s.len() > 0,
        all_digits(s, 10),
        s[0] != '0',
    ensures
        value(s, 10) > 0,
    decreases s.len(),
{
    assert(is_digit(s[0], 10));
    let front = s.drop_last();
    if s.len() > 1 {
        assert(all_digits(front, 10)) by {
            assert forall|i: int| 0 <= i < front.len() implies is_digit(#[trigger] front[i], 10) by {
                assert(is_digit(s[i], 10));
            }
        }
        assert(front[0] == s[0]);
        lemma_nonzero(front);
    } else {
        assert(s.last() == s[0]);
    }
}

/// Digits stand for their distance from `0`, letters from `a` to `f` for ten more
/// than their distance from `a`, large or small, and nothing else is a digit.
pub proof fn lemma_digit_values(c: char)
    ensures
        '0' <= c <= '9' ==> digit_value(c) == Some((c as int - '0' as int) as nat),
        'a' <= c <= 'f' ==> digit_value(c) == Some((c as int - 'a' as int + 10) as nat),
        'A' <= c <= 'F' ==> digit_value(c) == Some((c as int - 'A' as int + 10) as nat),
        digit_value(c) is Some ==> '0' <= c <= '9' || 'a' <= c <= 'f' || 'A' <= c <= 'F',
        is_digit(c, 10) <==> '0' <= c <= '9',
        is_digit(c, 16) <==> '0' <= c <= '9' || 'a' <= c <= 'f' || 'A' <= c <= 'F',
{
}

/// The digit for a number is the one that stands for it, and no large letter.
pub proof fn lemma_digits(d: nat)
    requires
        d < 16,
    ensures
        digit_value(digit(d)) == Some(d),
        d < 10 ==> digit(d) as int == '0' as int + d,
        d >= 10 ==> digit(d) as int == 'a' as int + d - 10,
{
}

/// A run of digits is worth base times what the digits in front of the last are
/// worth, and the last digit.
pub proof fn lemma_value(s: Seq<char>, c: char, base: nat)
    ensures
        value(seq![], base) == 0,
        digit_value(c) matches Some(d) ==> value(s.push(c), base) == value(s, base) * base + d,
{
    assert(s.push(c).drop_last() =~= s);
}

/// A text is read as a number exactly if it is a run of digits, with or without
/// a plus in front, that is worth no more than the greatest number allowed.
pub proof fn lemma_parse(s: Seq<char>, base: nat, max: nat)
    ensures
        s.len() > 0 && (forall|i: int| 0 <= i < s.len() ==> is_digit(#[trigger] s[i], base))
            && value(s, base) <= max ==> parse(s, base, max) == Some(value(s, base)) && parse(
            seq!['+'] + s,
            base,
            max,
        ) == Some(value(s, base)),
        value(s, base) > max ==> parse(seq!['+'] + s, base, max) is None,
        value(s, base) > max && s[0] != '+' ==> parse(s, base, max) is None,
        parse(s, base, max) matches Some(n) ==> n <= max && exists|t: Seq<char>|
            (s == t || s == #[trigger] (seq!['+'] + t)) && t.len() > 0 && value(t, base) == n
                && forall|i: int| 0 <= i < t.len() ==> is_digit(#[trigger] t[i], base),
{
    let signed = seq!['+'] + s;
    assert(signed.drop_first() =~= s);
    if s.len() > 0 && is_digit(s[0], base) {
        assert(s[0] != '+');
    }
    if parse(s, base, max) is Some {
        if s[0] == '+' {
            assert(seq!['+'] + s.drop_first() =~= s);
        } else {
            assert(value(s, base) == parse(s, base, max)->0);
        }
    }
}

} // verus!
