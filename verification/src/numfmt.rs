//! Decimal rendering and parsing of the integer-valued metadata entries.

use vstd::prelude::*;

verus! {

use crate::alpm::is_digit;

/// The decimal digit character for a value below ten.
pub open spec fn digit_char(d: int) -> char {
    if d == 0 {
        '0'
    } else if d == 1 {
        '1'
    } else if d == 2 {
        '2'
    } else if d == 3 {
        '3'
    } else if d == 4 {
        '4'
    } else if d == 5 {
        '5'
    } else if d == 6 {
        '6'
    } else if d == 7 {
        '7'
    } else if d == 8 {
        '8'
    } else {
        '9'
    }
}

/// The canonical decimal rendering of a non-negative integer.
pub open spec fn dec_digits(n: nat) -> Seq<char>
    decreases n,
{
    if n < 10 {
        seq![digit_char(n as int)]
    } else {
        dec_digits(n / 10) + seq![digit_char((n % 10) as int)]
    }
}

/// The decimal rendering of a signed integer: a `-` before the magnitude.
pub open spec fn dec_digits_signed(n: int) -> Seq<char> {
    if n < 0 {
        seq!['-'] + dec_digits((-n) as nat)
    } else {
        dec_digits(n as nat)
    }
}

/// A non-empty, all-digit string.
pub open spec fn is_dec_string(s: Seq<char>) -> bool {
    s.len() > 0 && forall|i: int| 0 <= i < s.len() ==> is_digit(s[i])
}

/// The value of an all-digit string.
pub open spec fn dec_val(s: Seq<char>) -> nat
    decreases s.len(),
{
    if s.len() == 0 {
        0
    } else {
        (dec_val(s.take(s.len() - 1)) * 10 + (s[s.len() - 1] as u32 - 48)) as nat
    }
}

/// A decimal string with an optional leading minus sign.
pub open spec fn is_dec_string_signed(s: Seq<char>) -> bool {
    if s.len() > 0 && s[0] == '-' {
        is_dec_string(s.skip(1))
    } else {
        is_dec_string(s)
    }
}

/// The value of a decimal string with an optional leading minus sign.
pub open spec fn dec_val_signed(s: Seq<char>) -> int {
    if s.len() > 0 && s[0] == '-' {
        -(dec_val(s.skip(1)) as int)
    } else {
        dec_val(s) as int
    }
}

/// The canonical rendering is an all-digit string that evaluates back to
/// the value it was rendered from.
pub proof fn lemma_dec_digits_val(n: nat)
    ensures
        is_dec_string(dec_digits(n)),
        dec_val(dec_digits(n)) == n,
    decreases n,
{
    if n < 10 {
        let s = dec_digits(n);
        assert(s =~= seq![digit_char(n as int)]);
        assert(s.take(0) =~= Seq::<char>::empty());
        assert(dec_val(s.take(0)) == 0);
        assert(s[0] == digit_char(n as int));
        assert(digit_char(n as int) as u32 - 48 == n);
        assert(dec_val(s) == n);
    } else {
        lemma_dec_digits_val(n / 10);
        let pre = dec_digits(n / 10);
        let whole = dec_digits(n);
        assert(whole == pre + seq![digit_char((n % 10) as int)]);
        assert(whole.take(whole.len() - 1) =~= pre);
        assert(dec_val(whole) == dec_val(pre) * 10 + (whole[whole.len() - 1] as u32 - 48));
        assert(whole[whole.len() - 1] == digit_char((n % 10) as int));
        assert((digit_char((n % 10) as int) as u32 - 48) == n % 10);
        assert(dec_val(whole) == (n / 10) * 10 + n % 10);
        assert((n / 10) * 10 + n % 10 == n) by (nonlinear_arith);
    }
}

/// The signed rendering evaluates back to the value it was rendered from.
pub proof fn lemma_dec_digits_signed_val(n: int)
    ensures
        is_dec_string_signed(dec_digits_signed(n)),
        dec_val_signed(dec_digits_signed(n)) == n,
{
    if n < 0 {
        lemma_dec_digits_val((-n) as nat);
        let s = dec_digits_signed(n);
        assert(s.skip(1) =~= dec_digits((-n) as nat));
    } else {
        lemma_dec_digits_val(n as nat);
        let s = dec_digits_signed(n);
        assert(is_dec_string(s));
        assert(s[0] != '-') by {
            assert(is_digit(s[0]));
        }
    }
}

fn append_digit(out: &mut String, d: u64)
    requires
        d < 10,
    ensures
        final(out)@ == old(out)@ + seq![digit_char(d as int)],
{
    let lit: &str = match d {
        0 => "0",
        1 => "1",
        2 => "2",
        3 => "3",
        4 => "4",
        5 => "5",
        6 => "6",
        7 => "7",
        8 => "8",
        _ => "9",
    };
    proof {
        reveal_strlit("0");
        reveal_strlit("1");
        reveal_strlit("2");
        reveal_strlit("3");
        reveal_strlit("4");
        reveal_strlit("5");
        reveal_strlit("6");
        reveal_strlit("7");
        reveal_strlit("8");
        reveal_strlit("9");
        assert(lit@ =~= seq![digit_char(d as int)]);
    }
    out.append(lit);
}

fn append_dec_u64(out: &mut String, n: u64)
    ensures
        final(out)@ == old(out)@ + dec_digits(n as nat),
    decreases n,
{
    if n < 10 {
        append_digit(out, n);
    } else {
        append_dec_u64(out, n / 10);
        append_digit(out, n % 10);
        assert(old(out)@ + dec_digits((n / 10) as nat) + seq![digit_char((n % 10) as int)]
            =~= old(out)@ + dec_digits(n as nat));
    }
}

/// The decimal rendering of an unsigned size value.
pub fn u64_to_dec(n: u64) -> (r: String)
    ensures
        r@ == dec_digits(n as nat),
{
    let mut out = String::new();
    append_dec_u64(&mut out, n);
    assert(out@ =~= dec_digits(n as nat));
    out
}

/// The decimal rendering of a signed timestamp value.
pub fn i64_to_dec(n: i64) -> (r: String)
    ensures
        r@ == dec_digits_signed(n as int),
{
    if n >= 0 {
        u64_to_dec(n as u64)
    } else {
        let mag: u64 = if n == i64::MIN {
            9223372036854775808u64
        } else {
            (-n) as u64
        };
        let mut out = String::from_str("-");
        proof {
            reveal_strlit("-");
            assert(out@ =~= seq!['-']);
        }
        append_dec_u64(&mut out, mag);
        assert(out@ =~= dec_digits_signed(n as int));
        out
    }
}

/// Every digit string extends the value of each of its prefixes.
proof fn lemma_dec_val_prefix_le(s: Seq<char>, i: int)
    requires
        0 <= i <= s.len(),
        forall|k: int| 0 <= k < s.len() ==> is_digit(s[k]),
    ensures
        dec_val(s.take(i)) <= dec_val(s),
    decreases s.len() - i,
{
    if i < s.len() {
        lemma_dec_val_prefix_le(s, i + 1);
        let p = s.take(i + 1);
        assert(p.take(p.len() - 1) =~= s.take(i));
        assert(dec_val(p) == dec_val(s.take(i)) * 10 + (p[p.len() - 1] as u32 - 48));
        assert(is_digit(s[i]));
        assert(dec_val(s.take(i)) <= dec_val(s.take(i)) * 10) by (nonlinear_arith);
    } else {
        assert(s.take(i) =~= s);
    }
}

/// Parse an all-digit string as an unsigned value, rejecting anything
/// else and any value that does not fit.
pub fn parse_u64(s: &str) -> (r: Option<u64>)
    ensures
        r is Some <==> (is_dec_string(s@) && dec_val(s@) <= u64::MAX),
        r is Some ==> r->0 == dec_val(s@),
{
    let n = s.unicode_len();
    if n == 0 {
        return None;
    }
    let mut acc: u64 = 0;
    let mut i: usize = 0;
    while i < n
        invariant
            n == s@.len(),
            0 < n,
            i <= n,
            acc == dec_val(s@.take(i as int)),
            forall|k: int| 0 <= k < i ==> is_digit(s@[k]),
        decreases n - i,
    {
        let c = s.get_char(i);
        let u = c as u32;
        if !(48 <= u && u <= 57) {
            return None;
        }
        let d: u64 = (u - 48) as u64;
        let step = match acc.checked_mul(10) {
            Some(x) => x.checked_add(d),
            None => None,
        };
        assert(s@.take(i + 1).take(i as int) =~= s@.take(i as int));
        assert(dec_val(s@.take(i + 1)) == dec_val(s@.take(i as int)) * 10 + d);
        match step {
            Some(v) => {
                acc = v;
            },
            None => {
                proof {
                    if is_dec_string(s@) {
                        lemma_dec_val_prefix_le(s@, i + 1);
                        assert(s@.take(s@.len() as int) =~= s@);
                    }
                }
                return None;
            },
        }
        i += 1;
    }
    assert(s@.take(n as int) =~= s@);
    Some(acc)
}

/// Parse a decimal string with an optional leading minus sign as a
/// signed value, rejecting anything else and any value out of range.
pub fn parse_i64(s: &str) -> (r: Option<i64>)
    ensures
        r is Some <==> (is_dec_string_signed(s@) && i64::MIN <= dec_val_signed(s@)
            <= i64::MAX),
        r is Some ==> r->0 == dec_val_signed(s@),
{
    let n = s.unicode_len();
    if n > 0 && s.get_char(0) == '-' {
        let rest = s.substring_char(1, n);
        assert(rest@ =~= s@.skip(1));
        match parse_u64(rest) {
            Some(mag) => {
                if mag <= 9223372036854775807u64 {
                    Some(-(mag as i64))
                } else if mag == 9223372036854775808u64 {
                    Some(i64::MIN)
                } else {
                    None
                }
            },
            None => {
                proof {
                    if is_dec_string(s@.skip(1)) {
                        if dec_val(s@.skip(1)) > u64::MAX {
                            assert(dec_val_signed(s@) < i64::MIN);
                        }
                    }
                }
                None
            },
        }
    } else {
        match parse_u64(s) {
            Some(v) => {
                if v <= 9223372036854775807u64 {
                    Some(v as i64)
                } else {
                    None
                }
            },
            None => None,
        }
    }
}

} // verus!
