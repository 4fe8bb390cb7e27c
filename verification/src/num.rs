//! Decimal text for the integer fields: canonical formatting, and the lenient
//! integer-or-zero parsing the decoder applies to every numeric field.

use vstd::arithmetic::div_mod::lemma_fundamental_div_mod;
use vstd::prelude::*;
use vstd::string::StrSliceExecFns;

use crate::text::ascii_bytes;
use crate::text::is_white;

verus! {

/// The character for one decimal digit value.
pub open spec fn digit_char(d: int) -> char {
    if d == 0 {
        '0'
    } else if d == 1 {
        '1'
    } else if d == 2 {
        '2'
    } else if d == 3 {
        '3'
    } else if d == 4 {
        '4'
    } else if d == 5 {
        '5'
    } else if d == 6 {
        '6'
    } else if d == 7 {
        '7'
    } else if d == 8 {
        '8'
    } else {
        '9'
    }
}

pub open spec fn is_digit_char(c: char) -> bool {
    '0' <= c && c <= '9'
}

/// The numeric value of a decimal digit character.
pub open spec fn digit_val(c: char) -> int {
    c as u32 - 48
}

/// The decimal digits of a natural number, most significant first, with no
/// leading zeros.
pub open spec fn dec_digits(n: nat) -> Seq<char>
    decreases n,
{
    if n < 10 {
        seq![digit_char(n as int)]
    } else {
        dec_digits(n / 10).push(digit_char((n % 10) as int))
    }
}

/// The canonical decimal text of an integer: a minus sign only when negative,
/// digits with no leading zeros.
pub open spec fn spec_int_text(n: int) -> Seq<char> {
    if n < 0 {
        seq!['-'] + dec_digits((-n) as nat)
    } else {
        dec_digits(n as nat)
    }
}

pub open spec fn all_digits(s: Seq<char>) -> bool {
    forall|i: int| 0 <= i < s.len() ==> is_digit_char(#[trigger] s[i])
}

/// The value of a digit string, read in base ten.
pub open spec fn digits_val(s: Seq<char>) -> int
    decreases s.len(),
{
    if s.len() == 0 {
        0
    } else {
        digits_val(s.drop_last()) * 10 + digit_val(s.last())
    }
}

/// The digit part of integer text: everything after one optional leading sign.
pub open spec fn int_text_digits(s: Seq<char>) -> Seq<char> {
    if s.len() > 0 && (s[0] == '+' || s[0] == '-') {
        s.subrange(1, s.len() as int)
    } else {
        s
    }
}

pub open spec fn int_text_negative(s: Seq<char>) -> bool {
    s.len() > 0 && s[0] == '-'
}

/// Whether the text matches Rust's integer grammar: an optional sign followed
/// by one or more decimal digits.
pub open spec fn is_int_text(s: Seq<char>) -> bool {
    int_text_digits(s).len() > 0 && all_digits(int_text_digits(s))
}

pub open spec fn int_text_val(s: Seq<char>) -> int {
    if int_text_negative(s) {
        -digits_val(int_text_digits(s))
    } else {
        digits_val(int_text_digits(s))
    }
}

/// An integer field that can round-trip: within the `i32` range, printing
/// in at most the 10 bytes of a fixed field.
pub open spec fn int_field_ok(x: int) -> bool {
    -0x8000_0000 <= x <= 0x7fff_ffff && spec_int_text(x).len() <= 10
}

/// The integer-or-zero reading of a text field: text outside Rust's `i32`
/// grammar, or out of the `i32` range, collapses to zero.
pub open spec fn spec_parse_i32_or_zero(s: Seq<char>) -> int {
    if is_int_text(s) && -0x8000_0000 <= int_text_val(s) <= 0x7fff_ffff {
        int_text_val(s)
    } else {
        0
    }
}

/// Digit characters and digit values invert each other.
pub proof fn lemma_digit_char_val(d: int)
    requires
        0 <= d < 10,
    ensures
        digit_val(digit_char(d)) == d,
        is_digit_char(digit_char(d)),
{
}

pub proof fn lemma_dec_digits_are_digits(n: nat)
    ensures
        dec_digits(n).len() >= 1,
        all_digits(dec_digits(n)),
    decreases n,
{
    if n >= 10 {
        lemma_dec_digits_are_digits(n / 10);
    }
}

/// The canonical digits of a number read back as a value give the number.
pub proof fn lemma_digits_val_dec_digits(n: nat)
    ensures
        digits_val(dec_digits(n)) == n,
    decreases n,
{
    if n < 10 {
        let s = dec_digits(n);
        assert(s == seq![digit_char(n as int)]);
        assert(s.len() == 1);
        assert(s.drop_last() =~= Seq::<char>::empty());
        assert(s.last() == digit_char(n as int));
        assert(digits_val(Seq::<char>::empty()) == 0);
        assert(digits_val(s) == digits_val(s.drop_last()) * 10 + digit_val(s.last()));
        lemma_digit_char_val(n as int);
        assert(digits_val(s) == n);
    } else {
        lemma_digits_val_dec_digits(n / 10);
        let s = dec_digits(n / 10).push(digit_char((n % 10) as int));
        assert(s.drop_last() =~= dec_digits(n / 10));
        lemma_digit_char_val((n % 10) as int);
        lemma_fundamental_div_mod(n as int, 10);
    }
}

pub proof fn lemma_digits_val_nonneg(s: Seq<char>)
    requires
        all_digits(s),
    ensures
        digits_val(s) >= 0,
    decreases s.len(),
{
    if s.len() > 0 {
        assert(all_digits(s.drop_last()));
        lemma_digits_val_nonneg(s.drop_last());
    }
}

/// Parsing the canonical decimal text of an `i32` value gives the value back.
pub proof fn lemma_parse_int_text(n: int)
    requires
        -0x8000_0000 <= n <= 0x7fff_ffff,
    ensures
        spec_parse_i32_or_zero(spec_int_text(n)) == n,
{
    if n < 0 {
        let s = seq!['-'] + dec_digits((-n) as nat);
        assert(s[0] == '-');
        assert(int_text_digits(s) =~= dec_digits((-n) as nat));
        lemma_dec_digits_are_digits((-n) as nat);
        lemma_digits_val_dec_digits((-n) as nat);
    } else {
        let s = dec_digits(n as nat);
        lemma_dec_digits_are_digits(n as nat);
        assert(is_digit_char(s[0]));
        assert(int_text_digits(s) =~= s);
        lemma_digits_val_dec_digits(n as nat);
    }
}

/// Canonical integer text is ASCII and ends in a digit, so it survives the
/// field primitive's trailing-space trim unchanged.
pub proof fn lemma_int_text_plain(n: int)
    ensures
        spec_int_text(n).len() >= 1,
        !is_white(spec_int_text(n).last()),
        forall|i: int|
            0 <= i < spec_int_text(n).len() ==> '\0' <= #[trigger] spec_int_text(n)[i]
                <= '\u{7f}',
{
    let s = spec_int_text(n);
    if n < 0 {
        lemma_dec_digits_are_digits((-n) as nat);
        let d = dec_digits((-n) as nat);
        assert(s.last() == d.last());
        assert(is_digit_char(d.last()));
        assert forall|i: int| 0 <= i < s.len() implies '\0' <= #[trigger] s[i] <= '\u{7f}' by {
            if i >= 1 {
                assert(s[i] == d[i - 1]);
                assert(is_digit_char(d[i - 1]));
            }
        }
    } else {
        lemma_dec_digits_are_digits(n as nat);
        assert(is_digit_char(s.last()));
        assert forall|i: int| 0 <= i < s.len() implies '\0' <= #[trigger] s[i] <= '\u{7f}' by {
            assert(is_digit_char(s[i]));
        }
    }
}

/// The canonical decimal bytes of a natural number.
pub fn format_u64(n: u64) -> (v: Vec<u8>)
    ensures
        v@ == ascii_bytes(dec_digits(n as nat)),
{
    let mut rev: Vec<u8> = Vec::new();
    let mut m: u64 = n;
    loop
        invariant_except_break
            ascii_bytes(dec_digits(n as nat)) =~= ascii_bytes(dec_digits(m as nat))
                + rev@.reverse(),
        ensures
            ascii_bytes(dec_digits(n as nat)) =~= rev@.reverse(),
        decreases m,
    {
        let d: u8 = (m % 10) as u8;
        let ghost old_m = m as nat;
        let ghost old_rev = rev@;
        rev.push(48 + d);
        m = m / 10;
        proof {
            assert((old_rev.push((48 + d) as u8)).reverse() =~= seq![(48 + d) as u8]
                + old_rev.reverse());
            if old_m >= 10 {
                assert(dec_digits(old_m) == dec_digits(old_m / 10).push(
                    digit_char((old_m % 10) as int),
                ));
                assert(digit_char((old_m % 10) as int) as u8 == 48 + d);
                assert(ascii_bytes(dec_digits(old_m)) =~= ascii_bytes(dec_digits(old_m / 10))
                    + seq![(48 + d) as u8]);
                assert(ascii_bytes(dec_digits(n as nat)) =~= ascii_bytes(dec_digits(m as nat))
                    + rev@.reverse());
            } else {
                assert(dec_digits(old_m) == seq![digit_char(old_m as int)]);
                assert(digit_char(old_m as int) as u8 == 48 + d);
                assert(ascii_bytes(dec_digits(old_m)) =~= seq![(48 + d) as u8]);
                assert(ascii_bytes(dec_digits(n as nat)) =~= rev@.reverse());
            }
        }
        if m == 0 {
            break ;
        }
    }
    let mut v: Vec<u8> = Vec::new();
    let mut i: usize = rev.len();
    while i > 0
        invariant
            i <= rev@.len(),
            v@ =~= rev@.skip(i as int).reverse(),
        decreases i,
    {
        i = i - 1;
        let b: u8 = rev[i];
        v.push(b);
        proof {
            assert(rev@.skip(i as int) =~= seq![rev@[i as int]] + rev@.skip(i as int + 1));
            assert(rev@.skip(i as int).reverse() =~= rev@.skip(i as int + 1).reverse().push(
                rev@[i as int],
            ));
        }
    }
    proof {
        assert(rev@.skip(0) =~= rev@);
    }
    v
}

/// The canonical decimal bytes of an `i32`, sign included.
pub fn format_i32(n: i32) -> (v: Vec<u8>)
    ensures
        v@ == ascii_bytes(spec_int_text(n as int)),
{
    if n < 0 {
        let m: u64 = (-(n as i64)) as u64;
        let digits: Vec<u8> = format_u64(m);
        let mut v: Vec<u8> = Vec::new();
        v.push(45);
        let mut j: usize = 0;
        while j < digits.len()
            invariant
                j <= digits@.len(),
                v@ =~= seq![45u8] + digits@.take(j as int),
            decreases digits@.len() - j,
        {
            let b: u8 = digits[j];
            v.push(b);
            j = j + 1;
            proof {
                assert(digits@.take(j as int) =~= digits@.take(j - 1).push(digits@[j - 1]));
            }
        }
        proof {
            assert(digits@.take(digits@.len() as int) =~= digits@);
            assert(spec_int_text(n as int) == seq!['-'] + dec_digits((-(n as int)) as nat));
            assert(ascii_bytes(seq!['-'] + dec_digits(m as nat)) =~= seq![45u8] + ascii_bytes(
                dec_digits(m as nat),
            ));
        }
        v
    } else {
        let v: Vec<u8> = format_u64(n as u64);
        v
    }
}

/// The integer-or-zero reading of a text field, as the decoder applies it:
/// Rust's `i32` parse, with any failure absorbed as zero.
pub fn parse_i32_or_zero(s: &str) -> (n: i32)
    ensures
        n as int == spec_parse_i32_or_zero(s@),
{
    let len: usize = s.unicode_len();
    let mut start: usize = 0;
    let mut neg: bool = false;
    if len > 0 {
        let c0: char = s.get_char(0);
        if c0 == '-' {
            neg = true;
            start = 1;
        } else if c0 == '+' {
            start = 1;
        }
    }
    let ghost digits = int_text_digits(s@);
    proof {
        assert(digits =~= s@.subrange(start as int, len as int));
        assert(neg == int_text_negative(s@));
    }
    if start >= len {
        // no digits at all: unparseable, so zero
        return 0;
    }
    let mut acc: u64 = 0;
    let mut over: bool = false;
    let mut i: usize = start;
    while i < len
        invariant
            start <= i <= len,
            len == s@.len(),
            start == if int_text_negative(s@) || (s@.len() > 0 && s@[0] == '+') {
                1int
            } else {
                0int
            },
            digits =~= s@.subrange(start as int, len as int),
            forall|j: int| start <= j < i ==> is_digit_char(#[trigger] s@[j]),
            !over ==> acc as int == digits_val(s@.subrange(start as int, i as int)) && acc
                <= 0x8000_0000,
            over ==> digits_val(s@.subrange(start as int, i as int)) > 0x8000_0000,
        decreases len - i,
    {
        let c: char = s.get_char(i);
        if c < '0' || c > '9' {
            // a non-digit anywhere makes the whole field unparseable
            proof {
                assert(digits[i - start] == s@[i as int]);
                assert(!all_digits(digits));
            }
            return 0;
        }
        let d: u64 = (c as u32 - 48) as u64;
        let ghost pre = s@.subrange(start as int, i as int);
        let ghost ext = s@.subrange(start as int, i as int + 1);
        proof {
            assert(ext.drop_last() =~= pre);
            assert(ext.last() == s@[i as int]);
            assert(digits_val(ext) == digits_val(pre) * 10 + digit_val(s@[i as int]));
            assert(digit_val(s@[i as int]) == d);
        }
        if !over {
            let next: u64 = acc * 10 + d;
            if next > 0x8000_0000 {
                over = true;
            } else {
                acc = next;
            }
        } else {
            proof {
                lemma_digits_val_nonneg(pre);
            }
        }
        i = i + 1;
    }
    proof {
        assert(s@.subrange(start as int, len as int) =~= digits);
        assert(all_digits(digits));
        assert(is_int_text(s@));
        assert(int_text_val(s@) == if neg {
            -digits_val(digits)
        } else {
            digits_val(digits)
        });
    }
    if over {
        return 0;
    }
    if neg {
        if acc > 0x8000_0000 {
            0
        } else {
            (-(acc as i64)) as i32
        }
    } else {
        if acc > 0x7fff_ffff {
            0
        } else {
            acc as i32
        }
    }
}

} // verus!
