//! Decimal rendering and parsing of 64-bit identifiers, with a proved
//! round trip: every rendered number parses back to itself.

use vstd::prelude::*;
use vstd::arithmetic::div_mod::lemma_fundamental_div_mod;

verus! {

/// The character for one decimal digit value.
pub open spec fn digit_char(d: int) -> char {
    ((48 + d) as u8) as char
}

/// The decimal rendering of `n`, most significant digit first, no sign,
/// no leading zeros (except for `n == 0` itself).
pub open spec fn dec_of(n: nat) -> Seq<char>
    decreases n,
{
    if n < 10 {
        seq![digit_char(n as int)]
    } else {
        dec_of(n / 10) + seq![digit_char((n % 10) as int)]
    }
}

/// Whether every character of `s` is a decimal digit (and there is one).
pub open spec fn all_digits(s: Seq<char>) -> bool {
    s.len() > 0 && forall|i: int| 0 <= i < s.len() ==> '0' <= #[trigger] s[i] <= '9'
}

/// The value of a digit string, most significant digit first.
pub open spec fn digits_val(s: Seq<char>) -> int
    decreases s.len(),
{
    if s.len() == 0 {
        0
    } else {
        digits_val(s.drop_last()) * 10 + (s.last() as int - '0' as int)
    }
}

/// What a line parses to: a 64-bit number, or nothing.
pub open spec fn parse_dec(s: Seq<char>) -> Option<u64> {
    if all_digits(s) && 0 <= digits_val(s) <= u64::MAX {
        Some(digits_val(s) as u64)
    } else {
        None
    }
}

proof fn lemma_dec_of_digits(n: nat)
    ensures
        all_digits(dec_of(n)),
        digits_val(dec_of(n)) == n,
    decreases n,
{
    if n < 10 {
        assert(dec_of(n).drop_last() =~= Seq::<char>::empty());
        assert(digit_char(n as int) as int == 48 + n);
        assert(digits_val(dec_of(n)) == digits_val(Seq::<char>::empty()) * 10 + (digit_char(
            n as int,
        ) as int - 48));
    } else {
        lemma_dec_of_digits(n / 10);
        lemma_fundamental_div_mod(n as int, 10);
        assert(dec_of(n).drop_last() =~= dec_of(n / 10));
        assert(dec_of(n).last() == digit_char((n % 10) as int));
    }
}

/// Every rendered 64-bit number parses back to itself.
pub proof fn lemma_dec_round_trip(n: u64)
    ensures
        parse_dec(dec_of(n as nat)) == Some(n),
{
    lemma_dec_of_digits(n as nat);
}

/// Relies on `String::push`: appends one character.
pub assume_specification[ String::push ](s: &mut String, c: char)
    ensures
        final(s)@ == old(s)@.push(c),
;

/// Render `n` in decimal.
pub fn u64_to_dec(n: u64) -> (r: String)
    ensures
        r@ == dec_of(n as nat),
    decreases n,
{
    let d: u8 = (n % 10) as u8;
    let c: char = (48u8 + d) as char;
    if n < 10 {
        let mut s = String::new();
        s.push(c);
        proof {
            assert(s@ =~= dec_of(n as nat));
        }
        s
    } else {
        let mut s = u64_to_dec(n / 10);
        s.push(c);
        proof {
            assert(s@ =~= dec_of(n as nat));
        }
        s
    }
}

/// Parse a decimal digit string as a 64-bit number; `None` on any
/// non-digit character, on the empty string, and on overflow.
pub fn parse_u64_dec(s: &str) -> (r: Option<u64>)
    ensures
        r == parse_dec(s@),
{
    let len = s.unicode_len();
    if len == 0 {
        return None;
    }
    let mut val: u64 = 0;
    let mut i: usize = 0;
    while i < len
        invariant
            i <= len,
            len == s@.len(),
            len > 0,
            forall|j: int| 0 <= j < i ==> '0' <= #[trigger] s@[j] <= '9',
            val == digits_val(s@.subrange(0, i as int)),
        decreases len - i,
    {
        let c = s.get_char(i);
        let cu: u32 = c as u32;
        if cu < '0' as u32 || cu > '9' as u32 {
            proof {
                assert(!('0' <= s@[i as int] <= '9'));
                assert(!all_digits(s@));
            }
            return None;
        }
        let d: u64 = (cu - '0' as u32) as u64;
        proof {
            assert(s@.subrange(0, i + 1).drop_last() =~= s@.subrange(0, i as int));
            assert(s@.subrange(0, i + 1).last() == s@[i as int]);
            assert(digits_val(s@.subrange(0, i + 1)) == val * 10 + d);
        }
        let shifted = match val.checked_mul(10) {
            Some(v) => v,
            None => {
                proof {
                    if all_digits(s@) {
                        lemma_digits_val_monotone(s@, i + 1);
                    }
                }
                return None;
            },
        };
        let next = match shifted.checked_add(d) {
            Some(v) => v,
            None => {
                proof {
                    if all_digits(s@) {
                        lemma_digits_val_monotone(s@, i + 1);
                    }
                }
                return None;
            },
        };
        val = next;
        i += 1;
    }
    proof {
        assert(s@.subrange(0, len as int) =~= s@);
    }
    Some(val)
}

/// On a digit string, the value of a prefix never exceeds the value of the
/// whole: extending the overflow detected on a prefix to the whole line.
proof fn lemma_digits_val_monotone(s: Seq<char>, i: int)
    requires
        0 <= i <= s.len(),
        0 <= digits_val(s.subrange(0, i)),
        forall|j: int| i <= j < s.len() ==> '0' <= #[trigger] s[j] <= '9',
    ensures
        digits_val(s.subrange(0, i)) <= digits_val(s),
    decreases s.len() - i,
{
    if i == s.len() {
        assert(s.subrange(0, i) =~= s);
    } else {
        assert(s.subrange(0, i + 1).drop_last() =~= s.subrange(0, i));
        assert(digits_val(s.subrange(0, i + 1)) == digits_val(s.subrange(0, i)) * 10 + (
        s.subrange(0, i + 1).last() as int - '0' as int));
        assert(digits_val(s.subrange(0, i)) <= digits_val(s.subrange(0, i)) * 10) by (nonlinear_arith)
            requires 0 <= digits_val(s.subrange(0, i)),
        ;
        lemma_digits_val_monotone(s, i + 1);
    }
}

} // verus!
