//! Decimal formatting of integers, as Rust's `{}` and `{:0w}` print them.

use vstd::prelude::*;
use crate::text::push_char;

verus! {

/// The ASCII digit for `d` (0..=9).
pub open spec fn digit_char(d: int) -> char {
    (48 + d) as char
}

/// Decimal digits of `n`, most significant first, without leading zeros ("0" for zero).
pub open spec fn digits_of(n: nat) -> Seq<char>
    decreases n,
{
    if n < 10 {
        seq![digit_char(n as int)]
    } else {
        digits_of(n / 10).push(digit_char((n % 10) as int))
    }
}

/// `n` as `{}` prints it: an optional minus sign, then its digits.
pub open spec fn int_text(n: int) -> Seq<char> {
    if n < 0 {
        seq!['-'] + digits_of((-n) as nat)
    } else {
        digits_of(n as nat)
    }
}

/// `s` left-padded with '0' up to width `w`.
pub open spec fn zero_pad(s: Seq<char>, w: int) -> Seq<char> {
    if s.len() >= w {
        s
    } else {
        Seq::new((w - s.len()) as nat, |i: int| '0') + s
    }
}

/// `n` as `{:0w}` prints it: the sign counts toward the width, zeros go after it.
pub open spec fn int_text_padded(n: int, w: int) -> Seq<char> {
    if n < 0 {
        seq!['-'] + zero_pad(digits_of((-n) as nat), w - 1)
    } else {
        zero_pad(digits_of(n as nat), w)
    }
}

pub proof fn lemma_digits_len(n: nat)
    ensures
        digits_of(n).len() >= 1,
        n < 10 ==> digits_of(n).len() == 1,
        10 <= n < 100 ==> digits_of(n).len() == 2,
    decreases n,
{
    if n >= 10 {
        lemma_digits_len(n / 10);
    }
}

fn digit(d: u64) -> (c: char)
    requires
        d < 10,
    ensures
        c == digit_char(d as int),
{
    let b: u8 = 48u8 + d as u8;
    b as char
}

/// Appends the decimal digits of `n`.
pub fn push_digits(s: &mut String, n: u64)
    ensures
        final(s)@ == old(s)@ + digits_of(n as nat),
    decreases n,
{
    if n >= 10 {
        push_digits(s, n / 10);
    }
    push_char(s, digit(n % 10));
    proof {
        assert(old(s)@ + digits_of(n as nat) =~= old(s)@ + (if n >= 10 {
            digits_of((n / 10) as nat)
        } else {
            Seq::<char>::empty()
        }).push(digit_char((n % 10) as int)));
    }
}

/// Appends `n` as `{}` prints it.
pub fn push_int(s: &mut String, n: i64)
    ensures
        final(s)@ == old(s)@ + int_text(n as int),
{
    if n < 0 {
        push_char(s, '-');
        let m: u64 = if n == i64::MIN { 9223372036854775808u64 } else { (-n) as u64 };
        push_digits(s, m);
        assert(old(s)@ + int_text(n as int) =~= old(s)@.push('-') + digits_of(m as nat));
    } else {
        push_digits(s, n as u64);
    }
}

/// Appends `n` as `{:0w}` prints it.
pub fn push_int_padded(s: &mut String, n: i64, w: usize)
    ensures
        final(s)@ == old(s)@ + int_text_padded(n as int, w as int),
{
    let neg = n < 0;
    let m: u64 = if n == i64::MIN {
        9223372036854775808u64
    } else if neg {
        (-n) as u64
    } else {
        n as u64
    };
    let mut digits = String::new();
    push_digits(&mut digits, m);
    let len = digits.unicode_len();
    let target: usize = if neg {
        if w == 0 { 0 } else { w - 1 }
    } else {
        w
    };
    if neg {
        push_char(s, '-');
    }
    let ghost before = s@;
    let mut i = len;
    while i < target
        invariant
            len <= i <= target || (target < len && i == len),
            len == digits@.len(),
            s@ == before + Seq::new((i - len) as nat, |k: int| '0'),
        decreases target - i,
    {
        push_char(s, '0');
        i = i + 1;
        assert(s@ =~= before + Seq::new((i - len) as nat, |k: int| '0'));
    }
    s.append(digits.as_str());
    proof {
        let z = Seq::new((i - len) as nat, |k: int| '0');
        assert(zero_pad(digits_of(m as nat), target as int) =~= z + digits_of(m as nat));
        if neg {
            assert(old(s)@ + int_text_padded(n as int, w as int) =~= old(s)@.push('-') + z + digits_of(m as nat));
        } else {
            assert(old(s)@ + int_text_padded(n as int, w as int) =~= old(s)@ + z + digits_of(m as nat));
        }
    }
}

} // verus!
