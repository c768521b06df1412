use crate::text::chars_of;
use vstd::prelude::*;

verus! {

/// The ten decimal digits, each at its own value.
pub open spec fn digits() -> Seq<char> {
    seq!['0', '1', '2', '3', '4', '5', '6', '7', '8', '9']
}

/// Whether `c` is one of the ten decimal digits.
pub open spec fn is_digit(c: char) -> bool {
    '0' as u32 <= c as u32 <= '9' as u32
}

/// The value of a decimal digit.
pub open spec fn digit_value(c: char) -> nat {
    (c as u32 - '0' as u32) as nat
}

/// Whether `s` holds decimal digits only.
pub open spec fn all_digits(s: Seq<char>) -> bool {
    forall|i: int| 0 <= i < s.len() ==> is_digit(#[trigger] s[i])
}

/// The number that a run of decimal digits denotes; leading zeros count for
/// nothing.
pub open spec fn digits_value(s: Seq<char>) -> nat
    decreases s.len(),
{
    if s.len() == 0 {
        0
    } else {
        digits_value(s.drop_last()) * 10 + digit_value(s.last())
    }
}

/// The shortest run of decimal digits that denotes `n`.
pub open spec fn decimal_nat(n: nat) -> Seq<char>
    decreases n,
{
    if n < 10 {
        seq![digits()[n as int]]
    } else {
        decimal_nat(n / 10).push(digits()[(n % 10) as int])
    }
}

/// The decimal text of an integer: a minus sign where it is negative, then
/// its magnitude without leading zeros.
pub open spec fn decimal(i: int) -> Seq<char> {
    if i < 0 {
        seq!['-'] + decimal_nat((-i) as nat)
    } else {
        decimal_nat(i as nat)
    }
}

/// The integer that a text denotes in base ten: an optional minus sign, then
/// one digit or more, and nothing else; `None` for any other text and for a
/// number outside the 64-bit signed range.
pub open spec fn integer_of(text: Seq<char>) -> Option<int> {
    if text.len() > 0 && text[0] == '-' {
        let run = text.skip(1);
        if run.len() > 0 && all_digits(run) && digits_value(run) <= 0x8000_0000_0000_0000 {
            Some(-(digits_value(run) as int))
        } else {
            None
        }
    } else if text.len() > 0 && all_digits(text) && digits_value(text) <= 0x7fff_ffff_ffff_ffff {
        Some(digits_value(text) as int)
    } else {
        None
    }
}

/// Each of the ten digits is a digit, with its place among them as value.
pub proof fn lemma_digit(d: int)
    requires
        0 <= d < 10,
    ensures
        is_digit(digits()[d]),
        digit_value(digits()[d]) == d,
        digits()[d] != '-',
{
    if d == 0 {
    } else if d == 1 {
    } else if d == 2 {
    } else if d == 3 {
    } else if d == 4 {
    } else if d == 5 {
    } else if d == 6 {
    } else if d == 7 {
    } else if d == 8 {
    } else {
    }
}

/// The decimal digits of a number are digits, at least one, and denote the
/// number.
pub proof fn lemma_decimal_nat(n: nat)
    ensures
        decimal_nat(n).len() > 0,
        all_digits(decimal_nat(n)),
        digits_value(decimal_nat(n)) == n,
    decreases n,
{
    let text = decimal_nat(n);
    if n < 10 {
        lemma_digit(n as int);
        assert(text.drop_last() =~= Seq::<char>::empty());
        assert(digits_value(text.drop_last()) == 0);
    } else {
        lemma_decimal_nat(n / 10);
        lemma_digit((n % 10) as int);
        let front = decimal_nat(n / 10);
        assert(text.drop_last() =~= front);
        assert forall|i: int| 0 <= i < text.len() implies is_digit(#[trigger] text[i]) by {
            if i < front.len() {
                assert(text[i] == front[i]);
            }
        }
    }
}

/// What `decimal` writes for an integer of 64 bits, `integer_of` reads as
/// that integer.
pub proof fn lemma_integer_of_decimal(i: int)
    requires
        -0x8000_0000_0000_0000 <= i <= 0x7fff_ffff_ffff_ffff,
    ensures
        integer_of(decimal(i)) == Some(i),
{
    if i < 0 {
        let run = decimal_nat((-i) as nat);
        lemma_decimal_nat((-i) as nat);
        assert(decimal(i).skip(1) =~= run);
    } else {
        let text = decimal_nat(i as nat);
        lemma_decimal_nat(i as nat);
        assert(is_digit(text[0]));
    }
}

/// A longer run of digits denotes no less than the run it starts with.
pub proof fn lemma_digits_value_grows(s: Seq<char>, k: int)
    requires
        0 <= k <= s.len(),
    ensures
        digits_value(s.take(k)) <= digits_value(s),
    decreases s.len(),
{
    if k == s.len() {
        assert(s.take(k) == s);
    } else {
        assert(s.drop_last().take(k) == s.take(k));
        lemma_digits_value_grows(s.drop_last(), k);
    }
}

/// The value of the digits in `chars` from `from` on, where they are all
/// digits and the value is at most `limit`.
fn read_digits(chars: &Vec<char>, from: usize, limit: u64) -> (r: Option<u64>)
    requires
        from <= chars.len(),
    ensures
        match r {
            Some(v) => all_digits(chars@.skip(from as int)) && v == digits_value(
                chars@.skip(from as int),
            ) && v <= limit,
            None => !all_digits(chars@.skip(from as int)) || digits_value(
                chars@.skip(from as int),
            ) > limit,
        },
{
    let ghost run = chars@.skip(from as int);
    let mut acc: u64 = 0;
    let mut i: usize = from;
    while i < chars.len()
        invariant
            from <= i <= chars.len(),
            run == chars@.skip(from as int),
            all_digits(run.take(i - from)),
            acc == digits_value(run.take(i - from)),
            acc <= limit,
        decreases chars.len() - i,
    {
        let c = chars[i];
        proof {
            assert(run[i - from] == c);
            assert(run.take(i - from + 1).drop_last() == run.take(i - from));
            assert(run.take(i - from + 1).last() == c);
        }
        if !('0' as u32 <= c as u32 && c as u32 <= '9' as u32) {
            assert(!is_digit(run[i - from]));
            return None;
        }
        let d: u64 = (c as u32 - '0' as u32) as u64;
        if limit < d || acc > (limit - d) / 10 {
            proof {
                lemma_digits_value_grows(run, i - from + 1);
            }
            return None;
        }
        acc = acc * 10 + d;
        i += 1;
        proof {
            assert forall|j: int| 0 <= j < run.take(i - from).len() implies is_digit(
                #[trigger] run.take(i - from)[j],
            ) by {
                if j < i - from - 1 {
                    assert(run.take(i - from - 1)[j] == run.take(i - from)[j]);
                }
            }
        }
    }
    proof {
        assert(run.take(i - from) == run);
    }
    Some(acc)
}

/// Reads a base-ten integer: an optional minus sign, then digits only.
pub fn parse_integer(text: &str) -> (r: Option<i64>)
    ensures
        match r {
            Some(i) => integer_of(text@) == Some(i as int),
            None => integer_of(text@) is None,
        },
{
    let chars = chars_of(text);
    if chars.len() == 0 {
        return None;
    }
    if chars[0] == '-' {
        if chars.len() == 1 {
            return None;
        }
        match read_digits(&chars, 1, 0x8000_0000_0000_0000) {
            Some(v) => {
                if v == 0x8000_0000_0000_0000 {
                    Some(i64::MIN)
                } else {
                    Some(-(v as i64))
                }
            },
            None => None,
        }
    } else {
        assert(chars@.skip(0) == chars@);
        match read_digits(&chars, 0, 0x7fff_ffff_ffff_ffff) {
            Some(v) => Some(v as i64),
            None => None,
        }
    }
}

/// The text of one decimal digit.
fn digit_str(d: u8) -> (s: &'static str)
    requires
        d < 10,
    ensures
        s@ == seq![digits()[d as int]],
{
    proof {
        reveal_strlit("0");
        reveal_strlit("1");
        reveal_strlit("2");
        reveal_strlit("3");
        reveal_strlit("4");
        reveal_strlit("5");
        reveal_strlit("6");
        reveal_strlit("7");
        reveal_strlit("8");
        reveal_strlit("9");
    }
    let s = match d {
        0 => "0",
        1 => "1",
        2 => "2",
        3 => "3",
        4 => "4",
        5 => "5",
        6 => "6",
        7 => "7",
        8 => "8",
        _ => "9",
    };
    assert(s@ =~= seq![digits()[d as int]]);
    s
}

/// The digits that `rev` holds from its last element back to its first.
pub open spec fn digits_back(rev: Seq<u8>) -> Seq<char> {
    Seq::new(rev.len(), |k: int| digits()[rev[rev.len() - 1 - k] as int])
}

/// Writes an integer in base ten.
pub fn integer_text(i: i64) -> (s: String)
    ensures
        s@ == decimal(i as int),
{
    let magnitude: u64 = if i < 0 {
        (-(i + 1)) as u64 + 1
    } else {
        i as u64
    };
    let mut rev: Vec<u8> = Vec::new();
    rev.push((magnitude % 10) as u8);
    let mut n: u64 = magnitude / 10;
    assert(digits_back(rev@) =~= seq![digits()[(magnitude % 10) as int]]);
    while n > 0
        invariant
            forall|k: int| 0 <= k < rev@.len() ==> rev@[k] < 10,
            rev@.len() >= 1,
            decimal_nat(magnitude as nat) == if n == 0 {
                digits_back(rev@)
            } else {
                decimal_nat(n as nat) + digits_back(rev@)
            },
        decreases n,
    {
        let ghost before = rev@;
        rev.push((n % 10) as u8);
        proof {
            let digit = digits()[(n % 10) as int];
            assert(digits_back(rev@) =~= seq![digit] + digits_back(before));
            if n >= 10 {
                assert(decimal_nat(n as nat) == decimal_nat((n / 10) as nat).push(digit));
                assert(decimal_nat((n / 10) as nat).push(digit) + digits_back(before)
                    =~= decimal_nat((n / 10) as nat) + digits_back(rev@));
            } else {
                assert(decimal_nat(n as nat) + digits_back(before) =~= digits_back(rev@));
            }
        }
        n = n / 10;
    }
    let mut s = if i < 0 {
        String::from_str("-")
    } else {
        String::from_str("")
    };
    proof {
        reveal_strlit("-");
        reveal_strlit("");
    }
    let ghost sign = s@;
    assert(sign =~= if i < 0 { seq!['-'] } else { Seq::empty() });
    let mut k: usize = rev.len();
    while k > 0
        invariant
            0 <= k <= rev@.len(),
            forall|j: int| 0 <= j < rev@.len() ==> rev@[j] < 10,
            s@ == sign + digits_back(rev@).take(rev@.len() - k),
        decreases k,
    {
        k -= 1;
        let ghost before = s@;
        s.append(digit_str(rev[k]));
        assert(s@ =~= sign + digits_back(rev@).take(rev@.len() - k));
    }
    assert(digits_back(rev@).take(rev@.len() as int) == digits_back(rev@));
    assert(s@ =~= decimal(i as int));
    s
}

} // verus!
