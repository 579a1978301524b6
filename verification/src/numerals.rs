//! Base-ten numerals over character sequences: the value of a digit string,
//! the canonical (no leading zero) numeral of a number, and executable
//! parsing and printing of 16-bit values.

use vstd::prelude::*;
use vstd::string::StrSliceExecFns;
use vstd::string::StringExecFns;

verus! {

/// The ten decimal digit characters.
pub open spec fn is_digit(c: char) -> bool {
    c == '0' || c == '1' || c == '2' || c == '3' || c == '4' || c == '5' || c == '6' || c == '7'
        || c == '8' || c == '9'
}

/// The numeric value of a digit character (unspecified digits read as nine).
pub open spec fn digit_val(c: char) -> nat {
    if c == '0' {
        0
    } else if c == '1' {
        1
    } else if c == '2' {
        2
    } else if c == '3' {
        3
    } else if c == '4' {
        4
    } else if c == '5' {
        5
    } else if c == '6' {
        6
    } else if c == '7' {
        7
    } else if c == '8' {
        8
    } else {
        9
    }
}

/// The digit character of a value below ten.
pub open spec fn digit_char(d: nat) -> char {
    if d == 0 {
        '0'
    } else if d == 1 {
        '1'
    } else if d == 2 {
        '2'
    } else if d == 3 {
        '3'
    } else if d == 4 {
        '4'
    } else if d == 5 {
        '5'
    } else if d == 6 {
        '6'
    } else if d == 7 {
        '7'
    } else if d == 8 {
        '8'
    } else {
        '9'
    }
}

pub open spec fn all_digits(s: Seq<char>) -> bool {
    forall|i: int| 0 <= i < s.len() ==> is_digit(s[i])
}

/// The value of a digit string read in base ten.
pub open spec fn seq_val(s: Seq<char>) -> nat
    decreases s.len(),
{
    if s.len() == 0 {
        0
    } else {
        seq_val(s.drop_last()) * 10 + digit_val(s.last())
    }
}

/// The canonical decimal numeral of `n`: no leading zeros, and `0` for zero.
pub open spec fn num_chars(n: nat) -> Seq<char>
    decreases n,
{
    if n < 10 {
        seq![digit_char(n)]
    } else {
        num_chars(n / 10) + seq![digit_char(n % 10)]
    }
}

/// A numeral accepted as a 16-bit value: nonempty, digits only, value at
/// most `u16::MAX`. Leading zeros are accepted.
pub open spec fn parse_u16_spec(s: Seq<char>) -> Option<u16> {
    if s.len() > 0 && all_digits(s) && seq_val(s) <= u16::MAX {
        Some(seq_val(s) as u16)
    } else {
        None
    }
}

pub proof fn lemma_seq_val_append(s: Seq<char>, c: char)
    ensures
        seq_val(s + seq![c]) == seq_val(s) * 10 + digit_val(c),
{
    assert((s + seq![c]).drop_last() =~= s);
    assert((s + seq![c]).last() == c);
}

/// Extending a digit string on the right never decreases its value.
pub proof fn lemma_seq_val_take_monotone(s: Seq<char>, i: int)
    requires
        0 <= i <= s.len(),
    ensures
        seq_val(s.take(i)) <= seq_val(s),
    decreases s.len() - i,
{
    if i < s.len() {
        assert(s.take(i + 1) =~= s.take(i) + seq![s[i]]);
        lemma_seq_val_append(s.take(i), s[i]);
        lemma_seq_val_take_monotone(s, i + 1);
    } else {
        assert(s.take(i) =~= s);
    }
}

/// Canonical numerals consist of digits.
pub proof fn lemma_num_chars_digits(n: nat)
    ensures
        num_chars(n).len() >= 1,
        all_digits(num_chars(n)),
    decreases n,
{
    if n >= 10 {
        lemma_num_chars_digits(n / 10);
        assert forall|i: int| 0 <= i < num_chars(n).len() implies is_digit(num_chars(n)[i]) by {
            if i < num_chars(n / 10).len() {
                assert(num_chars(n)[i] == num_chars(n / 10)[i]);
            } else {
                assert(num_chars(n)[i] == digit_char(n % 10));
            }
        }
    }
}

/// The canonical numeral of `n` reads back as `n`.
pub proof fn lemma_num_chars_val(n: nat)
    ensures
        seq_val(num_chars(n)) == n,
    decreases n,
{
    if n < 10 {
        assert(seq![digit_char(n)].drop_last() =~= Seq::<char>::empty());
        assert(seq_val(Seq::<char>::empty()) == 0);
        assert(seq![digit_char(n)].last() == digit_char(n));
        assert(digit_val(digit_char(n)) == n);
    } else {
        lemma_num_chars_val(n / 10);
        lemma_seq_val_append(num_chars(n / 10), digit_char(n % 10));
        vstd::arithmetic::div_mod::lemma_fundamental_div_mod(n as int, 10);
    }
}

/// Among digit strings of a given value the canonical numeral is shortest,
/// and it is the only one of its own length.
pub proof fn lemma_num_chars_min(s: Seq<char>)
    requires
        s.len() >= 1,
        all_digits(s),
    ensures
        num_chars(seq_val(s)).len() <= s.len(),
        num_chars(seq_val(s)) == s <==> num_chars(seq_val(s)).len() == s.len(),
    decreases s.len(),
{
    let c = s.last();
    let dc = digit_val(c);
    assert(is_digit(c));
    if s.len() == 1 {
        assert(s.drop_last() =~= Seq::<char>::empty());
        assert(seq_val(Seq::<char>::empty()) == 0);
        assert(seq_val(s) == dc);
        assert(num_chars(dc) == seq![digit_char(dc)]);
        assert(digit_char(dc) == c);
        assert(num_chars(seq_val(s)) =~= s);
    } else {
        let s0 = s.drop_last();
        let v0 = seq_val(s0);
        let v = seq_val(s);
        assert(v == v0 * 10 + dc);
        assert(forall|i: int| 0 <= i < s0.len() ==> s0[i] == s[i]);
        lemma_num_chars_min(s0);
        if v < 10 {
            // only possible when every leading digit is zero
            assert(v0 == 0) by {
                if v0 >= 1 {
                    assert(v0 * 10 >= 10);
                }
            }
            assert(num_chars(v).len() == 1);
            assert(num_chars(v).len() < s.len());
            assert(num_chars(v) != s);
        } else {
            vstd::arithmetic::div_mod::lemma_fundamental_div_mod_converse(
                v as int,
                10,
                v0 as int,
                dc as int,
            );
            assert(v / 10 == v0 && v % 10 == dc);
            assert(num_chars(v) == num_chars(v0) + seq![digit_char(dc)]);
            assert(digit_char(dc) == c);
            assert(num_chars(v).len() == num_chars(v0).len() + 1);
            if num_chars(v).len() == s.len() {
                assert(num_chars(v0).len() == s0.len());
                assert(num_chars(v0) == s0);
                assert(num_chars(v) =~= s);
            } else {
                assert(num_chars(v) != s);
            }
        }
    }
}

/// Parses a base-ten numeral as a 16-bit unsigned integer, rejecting
/// anything but digits and any value above `u16::MAX`.
pub fn parse_u16(s: &str) -> (r: Option<u16>)
    ensures
        r == parse_u16_spec(s@),
{
    let n = s.unicode_len();
    if n == 0 {
        return None;
    }
    let mut acc: u32 = 0;
    let mut i: usize = 0;
    while i < n
        invariant
            0 <= i <= n,
            n == s@.len(),
            all_digits(s@.take(i as int)),
            acc == seq_val(s@.take(i as int)),
            acc <= 65535,
        decreases n - i,
    {
        let c = s.get_char(i);
        let d: u32 = match c {
            '0' => 0,
            '1' => 1,
            '2' => 2,
            '3' => 3,
            '4' => 4,
            '5' => 5,
            '6' => 6,
            '7' => 7,
            '8' => 8,
            '9' => 9,
            _ => {
                assert(!is_digit(s@[i as int]));
                return None;
            },
        };
        proof {
            assert(s@.take(i as int + 1) =~= s@.take(i as int) + seq![s@[i as int]]);
            lemma_seq_val_append(s@.take(i as int), s@[i as int]);
            assert(d == digit_val(s@[i as int]));
        }
        acc = acc * 10 + d;
        if acc > 65535 {
            proof {
                lemma_seq_val_take_monotone(s@, i as int + 1);
            }
            return None;
        }
        i = i + 1;
    }
    proof {
        assert(s@.take(n as int) =~= s@);
    }
    Some(acc as u16)
}

/// The one-character string of a digit value.
fn digit_str(d: u16) -> (r: &'static str)
    requires
        d < 10,
    ensures
        r@ == seq![digit_char(d as nat)],
{
    let r: &'static str = match d {
        0 => "0",
        1 => "1",
        2 => "2",
        3 => "3",
        4 => "4",
        5 => "5",
        6 => "6",
        7 => "7",
        8 => "8",
        _ => "9",
    };
    proof {
        reveal_strlit("0");
        reveal_strlit("1");
        reveal_strlit("2");
        reveal_strlit("3");
        reveal_strlit("4");
        reveal_strlit("5");
        reveal_strlit("6");
        reveal_strlit("7");
        reveal_strlit("8");
        reveal_strlit("9");
        assert(r@ =~= seq![digit_char(d as nat)]);
    }
    r
}

/// Appends the canonical decimal numeral of `n`.
pub fn push_u16_chars(out: &mut String, n: u16)
    ensures
        final(out)@ == old(out)@ + num_chars(n as nat),
    decreases n,
{
    if n < 10 {
        out.append(digit_str(n));
    } else {
        push_u16_chars(out, n / 10);
        out.append(digit_str(n % 10));
        proof {
            assert(old(out)@ + num_chars((n / 10) as nat) + seq![digit_char((n % 10) as nat)]
                =~= old(out)@ + num_chars(n as nat));
        }
    }
}

} // verus!
