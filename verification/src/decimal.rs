//! Decimal rendering of machine integers, used by the disassembler and
//! by the printed form of runtime values.

use vstd::prelude::*;

verus! {

/// An ASCII decimal digit.
pub open spec fn is_digit_char(c: char) -> bool {
    ('0' as u32) <= (c as u32) && (c as u32) <= ('9' as u32)
}

/// The numeric value of a decimal digit character.
pub open spec fn digit_of(c: char) -> nat {
    ((c as u32) - ('0' as u32)) as nat
}

/// The character for a single decimal digit.
pub open spec fn digit_char(d: nat) -> char {
    if d == 0 {
        '0'
    } else if d == 1 {
        '1'
    } else if d == 2 {
        '2'
    } else if d == 3 {
        '3'
    } else if d == 4 {
        '4'
    } else if d == 5 {
        '5'
    } else if d == 6 {
        '6'
    } else if d == 7 {
        '7'
    } else if d == 8 {
        '8'
    } else {
        '9'
    }
}

/// The decimal spelling of a natural number, most significant digit first,
/// with no leading zeros (`0` spells as `"0"`).
pub open spec fn dec_digits(n: nat) -> Seq<char>
    decreases n,
{
    if n < 10 {
        seq![digit_char(n)]
    } else {
        dec_digits(n / 10) + seq![digit_char(n % 10)]
    }
}

/// The decimal spelling of a number left-padded with zeros to at least
/// four characters, as the disassembler prints instruction offsets.
pub open spec fn dec_digits_pad4(n: nat) -> Seq<char> {
    if n < 10 {
        seq!['0', '0', '0'] + dec_digits(n)
    } else if n < 100 {
        seq!['0', '0'] + dec_digits(n)
    } else if n < 1000 {
        seq!['0'] + dec_digits(n)
    } else {
        dec_digits(n)
    }
}

fn digit_str(d: u64) -> (r: &'static str)
    requires
        d < 10,
    ensures
        r@ == seq![digit_char(d as nat)],
{
    proof {
        reveal_strlit("0");
        reveal_strlit("1");
        reveal_strlit("2");
        reveal_strlit("3");
        reveal_strlit("4");
        reveal_strlit("5");
        reveal_strlit("6");
        reveal_strlit("7");
        reveal_strlit("8");
        reveal_strlit("9");
    }
    let r = if d == 0 {
        "0"
    } else if d == 1 {
        "1"
    } else if d == 2 {
        "2"
    } else if d == 3 {
        "3"
    } else if d == 4 {
        "4"
    } else if d == 5 {
        "5"
    } else if d == 6 {
        "6"
    } else if d == 7 {
        "7"
    } else if d == 8 {
        "8"
    } else {
        "9"
    };
    proof {
        assert(r@ =~= seq![digit_char(d as nat)]);
    }
    r
}

/// Renders a number in decimal, most significant digit first.
pub fn dec_string(n: u64) -> (r: String)
    ensures
        r@ == dec_digits(n as nat),
    decreases n,
{
    if n < 10 {
        String::from_str(digit_str(n))
    } else {
        let mut s = dec_string(n / 10);
        s.append(digit_str(n % 10));
        s
    }
}

/// Renders a number in decimal, left-padded with zeros to four characters.
pub fn dec_string_pad4(n: u64) -> (r: String)
    ensures
        r@ == dec_digits_pad4(n as nat),
{
    proof {
        reveal_strlit("000");
        reveal_strlit("00");
        reveal_strlit("0");
        reveal_strlit("");
    }
    let mut s = String::from_str(
        if n < 10 {
            "000"
        } else if n < 100 {
            "00"
        } else if n < 1000 {
            "0"
        } else {
            ""
        },
    );
    let d = dec_string(n);
    s.append(d.as_str());
    proof {
        assert(s@ =~= dec_digits_pad4(n as nat));
    }
    s
}

/// The decimal spelling of a signed 64-bit value: the magnitude's digits,
/// preceded by `-` when the value is negative.
pub open spec fn dec_digits_i64(n: int) -> Seq<char> {
    if n < 0 {
        seq!['-'] + dec_digits((-n) as nat)
    } else {
        dec_digits(n as nat)
    }
}

/// Renders a signed 64-bit value in decimal.
pub fn dec_string_i64(n: i64) -> (r: String)
    ensures
        r@ == dec_digits_i64(n as int),
{
    proof {
        reveal_strlit("-");
        reveal_strlit("");
    }
    if n < 0 {
        // The magnitude of i64::MIN does not fit in an i64, so step
        // through `n + 1` before negating.
        let m: u64 = ((-(n + 1)) as u64) + 1;
        let mut s = String::from_str("-");
        let d = dec_string(m);
        s.append(d.as_str());
        proof {
            assert(s@ =~= dec_digits_i64(n as int));
        }
        s
    } else {
        dec_string(n as u64)
    }
}

/// The decimal spelling of a number is a non-empty digit string, and it
/// spells the number back.
pub proof fn lemma_dec_digits_val(n: nat)
    ensures
        dec_digits(n).len() >= 1,
        all_digits(dec_digits(n)),
        spec_digits_val(dec_digits(n)) == n,
    decreases n,
{
    if n < 10 {
        assert(is_digit_char(digit_char(n)));
        assert(seq![digit_char(n)].drop_last() =~= Seq::<char>::empty());
        assert(seq![digit_char(n)].last() == digit_char(n));
        assert(digit_of(digit_char(n)) == n);
        assert(spec_digits_val(seq![digit_char(n)]) == spec_digits_val(Seq::<char>::empty())
            * 10 + digit_of(digit_char(n)));
        assert(all_digits(dec_digits(n)));
    } else {
        lemma_dec_digits_val(n / 10);
        let pre = dec_digits(n / 10);
        let d = digit_char(n % 10);
        let whole = pre + seq![d];
        assert(dec_digits(n) == whole);
        assert(whole.drop_last() =~= pre);
        assert(whole.last() == d);
        assert(digit_of(d) == n % 10);
        assert forall|i: int| 0 <= i < whole.len() implies is_digit_char(
            #[trigger] whole[i],
        ) by {
            if i < pre.len() {
                assert(whole[i] == pre[i]);
            } else {
                assert(whole[i] == d);
            }
        }
        assert(spec_digits_val(whole) == spec_digits_val(pre) * 10 + (n % 10));
        assert(n / 10 * 10 + n % 10 == n) by {
            vstd::arithmetic::div_mod::lemma_fundamental_div_mod(n as int, 10);
        };
    }
}

/// Every character of the text is a decimal digit.
pub open spec fn all_digits(s: Seq<char>) -> bool {
    forall|i: int| 0 <= i < s.len() ==> is_digit_char(#[trigger] s[i])
}

/// The number a digit string spells in decimal.
pub open spec fn spec_digits_val(s: Seq<char>) -> nat
    decreases s.len(),
{
    if s.len() == 0 {
        0
    } else {
        spec_digits_val(s.drop_last()) * 10 + digit_of(s.last())
    }
}

/// A digit string spells at least what any of its prefixes spells.
proof fn lemma_digits_val_prefix(s: Seq<char>, j: int)
    requires
        0 <= j <= s.len(),
    ensures
        spec_digits_val(s) >= spec_digits_val(s.take(j)),
    decreases s.len() - j,
{
    if j == s.len() {
        assert(s.take(j) =~= s);
    } else {
        lemma_digits_val_prefix(s, j + 1);
        assert(s.take(j + 1).drop_last() =~= s.take(j));
    }
}

/// Parses a decimal digit string as an unsigned 64-bit number.  Returns
/// `None` when the text is empty, holds a non-digit, or spells a value
/// over `u64::MAX`.
pub fn parse_u64(s: &String) -> (r: Option<u64>)
    ensures
        match r {
            Some(v) => s@.len() > 0 && all_digits(s@) && v == spec_digits_val(s@),
            None => s@.len() == 0 || !all_digits(s@) || spec_digits_val(s@) > u64::MAX,
        },
{
    let text = s.as_str();
    let len = text.unicode_len();
    if len == 0 {
        return None;
    }
    let mut val: u64 = 0;
    let mut i: usize = 0;
    while i < len
        invariant
            i <= len,
            len == s@.len(),
            text@ == s@,
            val == spec_digits_val(s@.take(i as int)),
            forall|j: int| 0 <= j < i ==> is_digit_char(#[trigger] s@[j]),
        decreases len - i,
    {
        let c = text.get_char(i);
        let cv = c as u32;
        if cv < ('0' as u32) || cv > ('9' as u32) {
            return None;
        }
        let d: u64 = (cv - ('0' as u32)) as u64;
        if val > (u64::MAX - d) / 10 {
            proof {
                assert(s@.take(i + 1 as int).drop_last() =~= s@.take(i as int));
                assert(spec_digits_val(s@.take(i + 1 as int)) > u64::MAX) by {
                    vstd::arithmetic::div_mod::lemma_fundamental_div_mod(
                        (u64::MAX - d) as int,
                        10,
                    );
                };
                lemma_digits_val_prefix(s@, i + 1);
            }
            return None;
        }
        proof {
            assert(val * 10 + d <= u64::MAX) by {
                vstd::arithmetic::div_mod::lemma_fundamental_div_mod((u64::MAX - d) as int, 10);
            };
            assert(s@.take(i + 1 as int).drop_last() =~= s@.take(i as int));
        }
        val = val * 10 + d;
        i = i + 1;
    }
    proof {
        assert(s@.take(len as int) =~= s@);
    }
    Some(val)
}

} // verus!
