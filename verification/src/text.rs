//! Textual forms used in names: decimal and fixed-width hexadecimal numbers.
use vstd::prelude::*;
use vstd::arithmetic::power::pow;

verus! {

/// `String::push`: appends the character `c` to the end of `s`.
#[verifier::external_body]
pub(crate) fn push_char(s: &mut String, c: char)
    ensures
        final(s)@ == old(s)@.push(c),
{
    s.push(c);
}

/// The lowercase hexadecimal digit for `d < 16`.
pub open spec fn hex_char(d: nat) -> char {
    if d == 0 {
        '0'
    } else if d == 1 {
        '1'
    } else if d == 2 {
        '2'
    } else if d == 3 {
        '3'
    } else if d == 4 {
        '4'
    } else if d == 5 {
        '5'
    } else if d == 6 {
        '6'
    } else if d == 7 {
        '7'
    } else if d == 8 {
        '8'
    } else if d == 9 {
        '9'
    } else if d == 10 {
        'a'
    } else if d == 11 {
        'b'
    } else if d == 12 {
        'c'
    } else if d == 13 {
        'd'
    } else if d == 14 {
        'e'
    } else {
        'f'
    }
}

/// The value of a hexadecimal digit (either case), or -1 for any other character.
pub open spec fn hex_value(c: char) -> int {
    if '0' <= c && c <= '9' {
        c as int - '0' as int
    } else if 'a' <= c && c <= 'f' {
        c as int - 'a' as int + 10
    } else if 'A' <= c && c <= 'F' {
        c as int - 'A' as int + 10
    } else {
        -1
    }
}

/// The `n` lowest hexadecimal digits of `v`, most significant first.
pub open spec fn hex_digits(v: nat, n: nat) -> Seq<char>
    decreases n,
{
    if n == 0 {
        Seq::empty()
    } else {
        hex_digits(v / 16, (n - 1) as nat).push(hex_char(v % 16))
    }
}

/// The decimal digits of `v`, most significant first, without leading zeros.
pub open spec fn dec_digits(v: nat) -> Seq<char>
    decreases v,
{
    if v < 10 {
        seq![hex_char(v)]
    } else {
        dec_digits(v / 10).push(hex_char(v % 10))
    }
}

/// Every character of `s` is a hexadecimal digit.
pub open spec fn all_hex(s: Seq<char>) -> bool {
    forall|i: int| 0 <= i < s.len() ==> hex_value(#[trigger] s[i]) >= 0
}

/// The number that the hexadecimal digits `s` spell, most significant first.
pub open spec fn hex_number(s: Seq<char>) -> int
    decreases s.len(),
{
    if s.len() == 0 {
        0
    } else {
        16 * hex_number(s.drop_last()) + hex_value(s.last())
    }
}

/// The digit of `d < 16`.
pub fn hex_char_of(d: u8) -> (c: char)
    requires
        d < 16,
    ensures
        c == hex_char(d as nat),
{
    match d {
        0 => '0',
        1 => '1',
        2 => '2',
        3 => '3',
        4 => '4',
        5 => '5',
        6 => '6',
        7 => '7',
        8 => '8',
        9 => '9',
        10 => 'a',
        11 => 'b',
        12 => 'c',
        13 => 'd',
        14 => 'e',
        _ => 'f',
    }
}

/// The value of a hexadecimal digit, or `None` for any other character.
pub fn hex_value_of(c: char) -> (r: Option<u8>)
    ensures
        match r {
            Some(d) => hex_value(c) == d as int && d < 16,
            None => hex_value(c) == -1,
        },
{
    if '0' <= c && c <= '9' {
        Some((c as u32 - '0' as u32) as u8)
    } else if 'a' <= c && c <= 'f' {
        Some((c as u32 - 'a' as u32 + 10) as u8)
    } else if 'A' <= c && c <= 'F' {
        Some((c as u32 - 'A' as u32 + 10) as u8)
    } else {
        None
    }
}

/// Append the `n` lowest hexadecimal digits of `v` to `s`, most significant first.
pub fn push_hex_digits(s: &mut String, v: u128, n: u32)
    ensures
        final(s)@ == old(s)@ + hex_digits(v as nat, n as nat),
    decreases n,
{
    if n > 0 {
        push_hex_digits(s, v / 16, n - 1);
        push_char(s, hex_char_of((v % 16) as u8));
        proof {
            assert(hex_digits(v as nat, n as nat) == hex_digits((v / 16) as nat, (n - 1) as nat).push(
                hex_char((v % 16) as nat),
            ));
        }
    } else {
        proof {
            assert(old(s)@ + hex_digits(v as nat, 0) =~= old(s)@);
        }
    }
}

/// Append the decimal digits of `v` to `s`.
pub fn push_dec_digits(s: &mut String, v: u64)
    ensures
        final(s)@ == old(s)@ + dec_digits(v as nat),
    decreases v,
{
    if v >= 10 {
        push_dec_digits(s, v / 10);
        push_char(s, hex_char_of((v % 10) as u8));
        proof {
            assert(dec_digits(v as nat) == dec_digits((v / 10) as nat).push(hex_char((v % 10) as nat)));
        }
    } else {
        push_char(s, hex_char_of(v as u8));
        proof {
            assert(dec_digits(v as nat) == seq![hex_char(v as nat)]);
        }
    }
}

/// The digits of `hex_digits` are hexadecimal digits and spell the number back, modulo `16^n`.
pub proof fn lemma_hex_digits_value(v: nat, n: nat)
    ensures
        hex_digits(v, n).len() == n,
        all_hex(hex_digits(v, n)),
        hex_number(hex_digits(v, n)) == v % (pow(16, n) as nat),
    decreases n,
{
    vstd::arithmetic::power::lemma_pow_positive(16, n);
    if n == 0 {
        assert(pow(16, 0) == 1) by {
            vstd::arithmetic::power::lemma_pow0(16);
        }
    } else {
        let m = (n - 1) as nat;
        lemma_hex_digits_value(v / 16, m);
        let s = hex_digits(v, n);
        assert(s.drop_last() =~= hex_digits(v / 16, m));
        assert(hex_value(hex_char(v % 16)) == v % 16);
        vstd::arithmetic::power::lemma_pow_positive(16, m);
        vstd::arithmetic::power::lemma_pow_adds(16, 1, m);
        vstd::arithmetic::power::lemma_pow1(16);
        vstd::arithmetic::div_mod::lemma_mod_breakdown(v as int, 16, pow(16, m));
        assert forall|i: int| 0 <= i < s.len() implies hex_value(#[trigger] s[i]) >= 0 by {
            if i < s.len() - 1 {
                assert(s[i] == hex_digits(v / 16, m)[i]);
            }
        }
    }
}

/// A longer string of digits spells a number at least as large.
pub proof fn lemma_hex_number_prefix(s: Seq<char>, k: int)
    requires
        all_hex(s),
        0 <= k <= s.len(),
    ensures
        0 <= hex_number(s.subrange(0, k)) <= hex_number(s),
    decreases s.len() - k,
{
    assert forall|i: int| 0 <= i < k implies hex_value(#[trigger] s.subrange(0, k)[i]) >= 0 by {
        assert(s.subrange(0, k)[i] == s[i]);
    }
    lemma_hex_number_nonneg(s.subrange(0, k));
    if k == s.len() {
        assert(s.subrange(0, k) =~= s);
    }
    if k < s.len() {
        lemma_hex_number_prefix(s, k + 1);
        let p = s.subrange(0, k + 1);
        assert(p.drop_last() =~= s.subrange(0, k));
        assert(p.last() == s[k]);
        assert(hex_value(p.last()) >= 0);
    }
}

/// Digits spell a nonnegative number.
pub proof fn lemma_hex_number_nonneg(s: Seq<char>)
    requires
        all_hex(s),
    ensures
        hex_number(s) >= 0,
    decreases s.len(),
{
    if s.len() > 0 {
        assert(hex_value(s.last()) >= 0);
        lemma_hex_number_nonneg(s.drop_last());
    }
}

} // verus!
