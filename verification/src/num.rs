//! Numeric tokens of the sampler text.
//!
//! The sampler reports rates, percentages and power as decimal numbers such
//! as `2400`, `45.50` or `-3.2`. The verified model keeps every such value as
//! an integer count of thousandths, so `45.50` becomes `45500`. A token is an
//! optional minus sign, then digits with at most one decimal point; at least
//! one digit is required, at most nine integer digits are accepted, and
//! fractional digits beyond the third are ignored. Anything else is
//! malformed and yields the zero default.

use vstd::prelude::*;

use crate::text::first_byte_idx;
use crate::text::is_digit;
use crate::text::lemma_first_byte_idx;

verus! {

/// Value of one ASCII digit.
pub open spec fn digit_val(b: u8) -> int {
    b - 48
}

/// Value of a string of ASCII digits read in base ten.
pub open spec fn digits_val(s: Seq<u8>) -> int
    decreases s.len(),
{
    if s.len() == 0 {
        0
    } else {
        digits_val(s.drop_last()) * 10 + digit_val(s.last())
    }
}

/// Every byte of `s` is an ASCII digit.
pub open spec fn all_digits(s: Seq<u8>) -> bool {
    forall|i: int| 0 <= i < s.len() ==> is_digit(#[trigger] s[i])
}

/// Ten to the `n`.
pub open spec fn pow10(n: nat) -> int
    decreases n,
{
    if n == 0 {
        1
    } else {
        10 * pow10((n - 1) as nat)
    }
}

pub proof fn lemma_pow10_mono(a: nat, b: nat)
    requires
        a <= b,
    ensures
        1 <= pow10(a) <= pow10(b),
    decreases b,
{
    if b > 0 {
        if a == b {
            lemma_pow10_mono((b - 1) as nat, (b - 1) as nat);
        } else {
            lemma_pow10_mono(a, (b - 1) as nat);
        }
    }
}

/// The concrete powers of ten the parsers need.
pub proof fn lemma_pow10_values()
    ensures
        pow10(0) == 1,
        pow10(1) == 10,
        pow10(2) == 100,
        pow10(3) == 1000,
        pow10(9) == 1_000_000_000,
        pow10(19) == 10_000_000_000_000_000_000,
{
    assert(pow10(0) == 1);
    assert(pow10(1) == 10);
    assert(pow10(2) == 100);
    assert(pow10(3) == 1000);
    assert(pow10(4) == 10_000);
    assert(pow10(5) == 100_000);
    assert(pow10(6) == 1_000_000);
    assert(pow10(7) == 10_000_000);
    assert(pow10(8) == 100_000_000);
    assert(pow10(9) == 1_000_000_000);
    assert(pow10(10) == 10_000_000_000);
    assert(pow10(11) == 100_000_000_000);
    assert(pow10(12) == 1_000_000_000_000);
    assert(pow10(13) == 10_000_000_000_000);
    assert(pow10(14) == 100_000_000_000_000);
    assert(pow10(15) == 1_000_000_000_000_000);
    assert(pow10(16) == 10_000_000_000_000_000);
    assert(pow10(17) == 100_000_000_000_000_000);
    assert(pow10(18) == 1_000_000_000_000_000_000);
    assert(pow10(19) == 10_000_000_000_000_000_000);
}

/// A digit string's value is bounded by ten to its length.
pub proof fn lemma_digits_val_bound(s: Seq<u8>)
    requires
        all_digits(s),
    ensures
        0 <= digits_val(s) < pow10(s.len() as nat),
    decreases s.len(),
{
    if s.len() > 0 {
        let t = s.drop_last();
        assert forall|i: int| 0 <= i < t.len() implies is_digit(#[trigger] t[i]) by {
            assert(t[i] == s[i]);
        }
        lemma_digits_val_bound(t);
        assert(is_digit(s[s.len() - 1]));
        assert(pow10(s.len() as nat) == 10 * pow10((s.len() - 1) as nat));
    }
}

// ---------------------------------------------------------------------------
// Fixed-point decimal tokens
// ---------------------------------------------------------------------------

/// The integer-digit part of a token: what stands before the first decimal
/// point, after an optional minus sign.
pub open spec fn fixed3_int_part(s: Seq<u8>) -> Seq<u8> {
    let body = if s.len() > 0 && s[0] == 45 {
        s.skip(1)
    } else {
        s
    };
    let d = first_byte_idx(body, 46);
    if d < body.len() {
        body.subrange(0, d)
    } else {
        body
    }
}

/// The fractional-digit part of a token: what follows the first decimal
/// point; empty when there is none.
pub open spec fn fixed3_frac_part(s: Seq<u8>) -> Seq<u8> {
    let body = if s.len() > 0 && s[0] == 45 {
        s.skip(1)
    } else {
        s
    };
    let d = first_byte_idx(body, 46);
    if d < body.len() {
        body.subrange(d + 1, body.len() as int)
    } else {
        Seq::<u8>::empty()
    }
}

/// Whether `s` is a well-formed decimal token.
pub open spec fn fixed3_ok(s: Seq<u8>) -> bool {
    let ip = fixed3_int_part(s);
    let fp = fixed3_frac_part(s);
    &&& s.len() > 0
    &&& ip.len() + fp.len() > 0
    &&& ip.len() <= 9
    &&& all_digits(ip)
    &&& all_digits(fp)
}

/// The first three fractional digits, scaled to thousandths.
pub open spec fn frac3(fp: Seq<u8>) -> int {
    if fp.len() >= 3 {
        digits_val(fp.subrange(0, 3))
    } else if fp.len() == 2 {
        digits_val(fp) * 10
    } else if fp.len() == 1 {
        digits_val(fp) * 100
    } else {
        0
    }
}

/// Value of a well-formed token in thousandths.
pub open spec fn fixed3_val(s: Seq<u8>) -> int {
    let mag = digits_val(fixed3_int_part(s)) * 1000 + frac3(fixed3_frac_part(s));
    if s.len() > 0 && s[0] == 45 {
        -mag
    } else {
        mag
    }
}

/// Value of a token in thousandths, with the zero default for malformed
/// tokens. Every parsed field of the sampler text bottoms out here.
pub open spec fn fixed3_or_zero(s: Seq<u8>) -> int {
    if fixed3_ok(s) {
        fixed3_val(s)
    } else {
        0
    }
}

/// Parsed token values fit comfortably in 64 bits.
pub proof fn lemma_fixed3_bound(s: Seq<u8>)
    ensures
        -1_000_000_000_000 < fixed3_or_zero(s) < 1_000_000_000_000,
{
    if fixed3_ok(s) {
        let ip = fixed3_int_part(s);
        let fp = fixed3_frac_part(s);
        lemma_digits_val_bound(ip);
        lemma_pow10_values();
        lemma_pow10_mono(ip.len() as nat, 9);
        if fp.len() >= 3 {
            let f3 = fp.subrange(0, 3);
            assert forall|i: int| 0 <= i < f3.len() implies is_digit(#[trigger] f3[i]) by {
                assert(f3[i] == fp[i]);
            }
            lemma_digits_val_bound(f3);
        } else {
            lemma_digits_val_bound(fp);
            lemma_pow10_mono(fp.len() as nat, 3);
        }
    }
}

/// Parses a decimal token into thousandths; malformed tokens yield 0.
pub fn parse_fixed3(s: &[u8]) -> (r: i64)
    ensures
        r as int == fixed3_or_zero(s@),
        -1_000_000_000_000 < r < 1_000_000_000_000,
{
    proof {
        lemma_fixed3_bound(s@);
        lemma_pow10_values();
    }
    let n = s.len();
    let (neg, start): (bool, usize) = if n > 0 && s[0] == 45 {
        (true, 1)
    } else {
        (false, 0)
    };
    let ghost body = if neg {
        s@.skip(1)
    } else {
        s@
    };
    proof {
        assert(body =~= s@.subrange(start as int, n as int));
    }
    if start == n {
        // Empty token, or a bare minus sign.
        return 0;
    }
    let bodyslice = vstd::slice::slice_subrange(s, start, n);
    let d = crate::text::find_byte(bodyslice, 46);
    proof {
        lemma_first_byte_idx(body, 46);
    }
    let ghost ip = fixed3_int_part(s@);
    let ghost fp = fixed3_frac_part(s@);
    let blen = n - start;
    // Bounds of the integer part within `s`.
    let ip_end = if d < blen {
        start + d
    } else {
        n
    };
    proof {
        assert(ip =~= s@.subrange(start as int, ip_end as int));
    }
    if ip_end - start > 9 {
        return 0;
    }
    if d >= blen && blen == 0 {
        return 0;
    }
    if d < blen && blen == 1 {
        // The token is just a decimal point.
        assert(ip.len() + fp.len() == 0);
        return 0;
    }
    // Validate and read the integer digits.
    let mut i: usize = start;
    let mut ipval: u64 = 0;
    while i < ip_end
        invariant
            start <= i <= ip_end <= n,
            n == s@.len(),
            ip_end - start <= 9,
            ip == fixed3_int_part(s@),
            ip =~= s@.subrange(start as int, ip_end as int),
            forall|k: int| 0 <= k < i - start ==> is_digit(#[trigger] ip[k]),
            ipval == digits_val(ip.subrange(0, i - start)),
            0 <= ipval < pow10((i - start) as nat),
            pow10(9) == 1_000_000_000,
        decreases ip_end - i,
    {
        let b = s[i];
        if b < 48 || b > 57 {
            proof {
                assert(ip[i - start] == s@[i as int]);
                assert(!is_digit(ip[i - start]));
                assert(!fixed3_ok(s@));
            }
            return 0;
        }
        proof {
            let k = i - start;
            assert(ip.subrange(0, k + 1).drop_last() =~= ip.subrange(0, k));
            assert(ip.subrange(0, k + 1).last() == s@[i as int]);
            assert(pow10((k + 1) as nat) == 10 * pow10(k as nat));
            lemma_pow10_mono((k + 1) as nat, 9);
        }
        ipval = ipval * 10 + ((b - 48) as u64);
        i += 1;
    }
    proof {
        assert(ip.subrange(0, ip_end - start) =~= ip);
        assert(all_digits(ip));
        lemma_pow10_mono((ip_end - start) as nat, 9);
    }
    // Validate the fractional digits and read the first three.
    let mut fv: u64 = 0;
    let mut fcount: usize = 0;
    if d < blen {
        let fstart = start + d + 1;
        proof {
            assert(fp =~= s@.subrange(fstart as int, n as int));
        }
        let mut j: usize = fstart;
        while j < n
            invariant
                fstart <= j <= n,
                n == s@.len(),
                fp == fixed3_frac_part(s@),
                fp =~= s@.subrange(fstart as int, n as int),
                forall|k: int| 0 <= k < j - fstart ==> is_digit(#[trigger] fp[k]),
                fcount == if j - fstart <= 3 {
                    j - fstart
                } else {
                    3
                },
                fv == digits_val(fp.subrange(0, fcount as int)),
                0 <= fv < pow10(fcount as nat),
                pow10(3) == 1000,
            decreases n - j,
        {
            let b = s[j];
            if b < 48 || b > 57 {
                proof {
                    assert(fp[j - fstart] == s@[j as int]);
                    assert(!is_digit(fp[j - fstart]));
                    assert(!fixed3_ok(s@));
                }
                return 0;
            }
            if fcount < 3 {
                proof {
                    let k = fcount as int;
                    assert(j - fstart == k);
                    assert(fp.subrange(0, k + 1).drop_last() =~= fp.subrange(0, k));
                    assert(fp.subrange(0, k + 1).last() == s@[j as int]);
                    assert(pow10((k + 1) as nat) == 10 * pow10(k as nat));
                    lemma_pow10_mono((k + 1) as nat, 3);
                }
                fv = fv * 10 + ((b - 48) as u64);
                fcount += 1;
            }
            j += 1;
        }
        proof {
            assert(fp.subrange(0, fp.len() as int) =~= fp);
            assert(all_digits(fp));
        }
    } else {
        proof {
            assert(fp.len() == 0);
            assert(all_digits(fp));
        }
    }
    // Scale the fraction to thousandths.
    let f3: u64 = if fcount == 0 {
        0
    } else if fcount == 1 {
        fv * 100
    } else if fcount == 2 {
        fv * 10
    } else {
        fv
    };
    proof {
        if fp.len() >= 3 {
            assert(f3 == frac3(fp));
        } else {
            assert(fp.subrange(0, fp.len() as int) =~= fp);
            assert(f3 == frac3(fp));
        }
        assert(fixed3_ok(s@));
    }
    let mag: u64 = ipval * 1000 + f3;
    proof {
        lemma_digits_val_bound(ip);
        lemma_pow10_mono(ip.len() as nat, 9);
        assert(mag < 1_000_000_000_000);
    }
    if neg {
        -(mag as i64)
    } else {
        mag as i64
    }
}

// ---------------------------------------------------------------------------
// Unsigned counters
// ---------------------------------------------------------------------------

/// A plain unsigned decimal token: digits only, at most nineteen of them
/// (so the value always fits in 64 bits).
pub open spec fn u64_digits_ok(s: Seq<u8>) -> bool {
    1 <= s.len() <= 19 && all_digits(s)
}

/// Parses a plain unsigned decimal token; anything malformed yields `None`.
pub fn parse_u64_digits(s: &[u8]) -> (r: Option<u64>)
    ensures
        match r {
            Some(v) => u64_digits_ok(s@) && v as int == digits_val(s@),
            None => !u64_digits_ok(s@),
        },
{
    proof {
        lemma_pow10_values();
    }
    let n = s.len();
    if n == 0 || n > 19 {
        return None;
    }
    let mut i: usize = 0;
    let mut val: u64 = 0;
    while i < n
        invariant
            0 <= i <= n <= 19,
            n == s@.len(),
            forall|k: int| 0 <= k < i ==> is_digit(#[trigger] s@[k]),
            val == digits_val(s@.subrange(0, i as int)),
            0 <= val < pow10(i as nat),
            pow10(19) == 10_000_000_000_000_000_000,
        decreases n - i,
    {
        let b = s[i];
        if b < 48 || b > 57 {
            return None;
        }
        proof {
            let k = i as int;
            assert(s@.subrange(0, k + 1).drop_last() =~= s@.subrange(0, k));
            assert(s@.subrange(0, k + 1).last() == s@[k]);
            assert(pow10((k + 1) as nat) == 10 * pow10(k as nat));
            lemma_pow10_mono((k + 1) as nat, 19);
        }
        val = val * 10 + ((b - 48) as u64);
        i += 1;
    }
    proof {
        assert(s@.subrange(0, n as int) =~= s@);
    }
    Some(val)
}

} // verus!
