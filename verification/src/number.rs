//! Numbers in text: reading them in a given base, and writing them in base
//! ten and base sixteen.

use vstd::prelude::*;
use vstd::string::*;

verus! {

/// What the digit `c` is worth in base `radix`, if it is a digit of that base:
/// `0` to `9`, then the letters, in either case, from ten on.
pub open spec fn digit_value(c: char, radix: nat) -> Option<nat> {
    let worth: nat = if '0' <= c <= '9' {
        (c as u32 - '0' as u32) as nat
    } else if 'a' <= c <= 'z' {
        (c as u32 - 'a' as u32 + 10) as nat
    } else if 'A' <= c <= 'Z' {
        (c as u32 - 'A' as u32 + 10) as nat
    } else {
        radix
    };
    if worth < radix {
        Some(worth)
    } else {
        None
    }
}

/// The number that the digits `s` write in base `radix`, if all of them are
/// digits of that base. No digits write zero.
pub open spec fn digits_value(s: Seq<char>, radix: nat) -> Option<nat>
    decreases s.len(),
{
    if s.len() == 0 {
        Some(0)
    } else {
        match (digits_value(s.drop_last(), radix), digit_value(s.last(), radix)) {
            (Some(high), Some(low)) => Some(high * radix + low),
            _ => None,
        }
    }
}

/// The number that `s` writes in base `radix`: an optional `+`, then at least
/// one digit, and nothing else.
pub open spec fn parse_unsigned(s: Seq<char>, radix: nat) -> Option<nat> {
    let digits = if s.len() > 0 && s[0] == '+' {
        s.drop_first()
    } else {
        s
    };
    if digits.len() == 0 {
        None
    } else {
        digits_value(digits, radix)
    }
}

/// Where digits write a number, each run of leading digits writes one too, and
/// never a larger one.
pub proof fn lemma_digits_prefix(s: Seq<char>, radix: nat, k: int)
    requires
        0 <= k <= s.len(),
        radix >= 1,
        digits_value(s, radix) is Some,
    ensures
        digits_value(s.take(k), radix) is Some,
        digits_value(s.take(k), radix)->Some_0 <= digits_value(s, radix)->Some_0,
    decreases s.len(),
{
    if k == s.len() {
        assert(s.take(k) =~= s);
    } else {
        let t = s.drop_last();
        lemma_digits_prefix(t, radix, k);
        assert(t.take(k) =~= s.take(k));
        let high = digits_value(t, radix)->Some_0;
        assert(high * radix >= high) by (nonlinear_arith)
            requires
                radix >= 1,
                high >= 0,
        ;
    }
}

/// What the digit `c` is worth in base `radix`, if it is a digit of that base.
pub(crate) fn digit_of(c: char, radix: u64) -> (worth: Option<u64>)
    requires
        radix <= 36,
    ensures
        worth == match digit_value(c, radix as nat) {
            Some(d) => Some(d as u64),
            None => None,
        },
{
    let u: u32 = c as u32;
    let d: u64 = if '0' <= c && c <= '9' {
        (u - '0' as u32) as u64
    } else if 'a' <= c && c <= 'z' {
        (u - 'a' as u32 + 10) as u64
    } else if 'A' <= c && c <= 'Z' {
        (u - 'A' as u32 + 10) as u64
    } else {
        radix
    };
    if d < radix {
        Some(d)
    } else {
        None
    }
}

/// The number that `chars[lo..hi]` writes in base `radix`, if it writes one
/// and the number fits in 64 bits.
pub(crate) fn parse_u64(chars: &Vec<char>, lo: usize, hi: usize, radix: u64) -> (value: Option<u64>)
    requires
        lo <= hi <= chars.len(),
        2 <= radix <= 36,
    ensures
        value == match parse_unsigned(chars@.subrange(lo as int, hi as int), radix as nat) {
            Some(n) => if n <= u64::MAX {
                Some(n as u64)
            } else {
                None
            },
            None => None,
        },
{
    let ghost whole = chars@.subrange(lo as int, hi as int);
    let start: usize = if lo < hi && chars[lo] == '+' {
        lo + 1
    } else {
        lo
    };
    let ghost digits = chars@.subrange(start as int, hi as int);
    assert(digits =~= if whole.len() > 0 && whole[0] == '+' {
        whole.drop_first()
    } else {
        whole
    });
    if start == hi {
        return None;
    }
    let mut acc: u64 = 0;
    let mut i: usize = start;
    assert(digits.take(0) =~= Seq::<char>::empty());
    while i < hi
        invariant
            lo <= start <= i <= hi <= chars.len(),
            2 <= radix <= 36,
            digits == chars@.subrange(start as int, hi as int),
            parse_unsigned(chars@.subrange(lo as int, hi as int), radix as nat) == digits_value(
                digits,
                radix as nat,
            ),
            digits_value(digits.take(i - start), radix as nat) == Some(acc as nat),
        decreases hi - i,
    {
        let ghost before = digits.take(i - start);
        let ghost after = digits.take(i - start + 1);
        assert(after.drop_last() =~= before);
        assert(after.last() == chars@[i as int]);
        let step = match digit_of(chars[i], radix) {
            Some(d) => match acc.checked_mul(radix) {
                Some(shifted) => shifted.checked_add(d),
                None => None,
            },
            None => None,
        };
        match step {
            Some(next) => {
                acc = next;
            },
            None => {
                proof {
                    if digits_value(digits, radix as nat) is Some {
                        lemma_digits_prefix(digits, radix as nat, i - start + 1);
                        let d = digit_value(chars@[i as int], radix as nat)->Some_0;
                        assert(acc * radix + d >= acc * radix) by (nonlinear_arith)
                            requires
                                d >= 0,
                        ;
                    }
                }
                return None;
            },
        }
        i = i + 1;
    }
    assert(digits.take(hi - start) =~= digits);
    Some(acc)
}

/// The character that writes the digit `d`: `0` to `9`, then the small
/// letters from `a` on, as far as base sixteen needs them.
pub open spec fn digit_char(d: nat) -> char {
    if d == 0 {
        '0'
    } else if d == 1 {
        '1'
    } else if d == 2 {
        '2'
    } else if d == 3 {
        '3'
    } else if d == 4 {
        '4'
    } else if d == 5 {
        '5'
    } else if d == 6 {
        '6'
    } else if d == 7 {
        '7'
    } else if d == 8 {
        '8'
    } else if d == 9 {
        '9'
    } else if d == 10 {
        'a'
    } else if d == 11 {
        'b'
    } else if d == 12 {
        'c'
    } else if d == 13 {
        'd'
    } else if d == 14 {
        'e'
    } else {
        'f'
    }
}

/// `n` written in base ten, without leading zeros.
pub open spec fn decimal(n: nat) -> Seq<char>
    decreases n,
{
    if n < 10 {
        seq![digit_char(n)]
    } else {
        decimal(n / 10).push(digit_char(n % 10))
    }
}

/// Reading back what `decimal` wrote gives the number again.
pub proof fn lemma_decimal_round_trip(n: nat)
    ensures
        parse_unsigned(decimal(n), 10) == Some(n),
    decreases n,
{
    lemma_decimal_digits(n);
}

/// `decimal(n)` is made of digits that write `n`, and does not begin with `+`.
pub proof fn lemma_decimal_digits(n: nat)
    ensures
        decimal(n).len() > 0,
        decimal(n)[0] != '+',
        digits_value(decimal(n), 10) == Some(n),
    decreases n,
{
    if n < 10 {
        let s = decimal(n);
        assert(s.drop_last() =~= Seq::<char>::empty());
        assert(digits_value(s.drop_last(), 10) == Some(0nat));
        assert(digit_value(s.last(), 10) == Some(n));
    } else {
        lemma_decimal_digits(n / 10);
        let s = decimal(n);
        assert(s.drop_last() =~= decimal(n / 10));
        assert(s[0] == decimal(n / 10)[0]);
        assert(digit_value(s.last(), 10) == Some(n % 10));
    }
}

/// `n` written in base sixteen, in small letters and without leading zeros.
pub open spec fn hex(n: nat) -> Seq<char>
    decreases n,
{
    if n < 16 {
        seq![digit_char(n)]
    } else {
        hex(n / 16).push(digit_char(n % 16))
    }
}

/// Whether `c` is a digit as `hex` writes them.
pub open spec fn is_hex_digit(c: char) -> bool {
    '0' <= c <= '9' || 'a' <= c <= 'f'
}

/// `hex(n)` is made of digits of base sixteen, and they write `n`.
pub proof fn lemma_hex_digits(n: nat)
    ensures
        hex(n).len() > 0,
        forall|i: int| 0 <= i < hex(n).len() ==> is_hex_digit(#[trigger] hex(n)[i]),
        digits_value(hex(n), 16) == Some(n),
    decreases n,
{
    let s = hex(n);
    if n < 16 {
        assert(s.drop_last() =~= Seq::<char>::empty());
        assert(digits_value(s.drop_last(), 16) == Some(0nat));
        assert(digit_value(s.last(), 16) == Some(n));
    } else {
        lemma_hex_digits(n / 16);
        assert(s.drop_last() =~= hex(n / 16));
        assert(digit_value(s.last(), 16) == Some(n % 16));
        assert forall|i: int| 0 <= i < s.len() implies is_hex_digit(#[trigger] s[i]) by {
            if i < s.len() - 1 {
                assert(s[i] == hex(n / 16)[i]);
            }
        }
    }
}

/// Reading back what `hex` wrote gives the number again.
pub proof fn lemma_hex_round_trip(n: nat)
    ensures
        parse_unsigned(hex(n), 16) == Some(n),
{
    lemma_hex_digits(n);
    assert(is_hex_digit(hex(n)[0]));
}

/// The digit `d` of base ten as a text of one character.
pub(crate) fn digit_text(d: usize) -> (text: &'static str)
    requires
        d < 10,
    ensures
        text@ == seq![digit_char(d as nat)],
{
    proof {
        reveal_strlit("0");
        reveal_strlit("1");
        reveal_strlit("2");
        reveal_strlit("3");
        reveal_strlit("4");
        reveal_strlit("5");
        reveal_strlit("6");
        reveal_strlit("7");
        reveal_strlit("8");
        reveal_strlit("9");
    }
    let text = if d == 0 {
        "0"
    } else if d == 1 {
        "1"
    } else if d == 2 {
        "2"
    } else if d == 3 {
        "3"
    } else if d == 4 {
        "4"
    } else if d == 5 {
        "5"
    } else if d == 6 {
        "6"
    } else if d == 7 {
        "7"
    } else if d == 8 {
        "8"
    } else {
        "9"
    };
    assert(text@ =~= seq![digit_char(d as nat)]);
    text
}

/// Appends `n`, written in base ten, to `out`.
pub fn push_decimal(out: &mut String, n: usize)
    ensures
        final(out)@ == old(out)@ + decimal(n as nat),
    decreases n,
{
    if n >= 10 {
        push_decimal(out, n / 10);
    }
    out.append(digit_text(n % 10));
    assert(out@ =~= old(out)@ + decimal(n as nat));
}

} // verus!
