//! Byte-level lexical facts shared by the descriptor parsers: digit runs,
//! decimal and hexadecimal values, and the inverse renderings used to state
//! round trips.
use vstd::prelude::*;

verus! {

pub open spec fn is_digit(c: u8) -> bool {
    48 <= c <= 57
}

pub open spec fn is_hex_digit(c: u8) -> bool {
    is_digit(c) || (97 <= c <= 102) || (65 <= c <= 70)
}

/// ASCII white space as `str::trim` treats it.
pub open spec fn is_space(c: u8) -> bool {
    c == 32 || (9 <= c <= 13)
}

pub open spec fn hex_digit_value(c: u8) -> nat {
    if is_digit(c) {
        (c - 48) as nat
    } else if 97 <= c <= 102 {
        (c - 87) as nat
    } else {
        (c - 55) as nat
    }
}

pub open spec fn all_digits(s: Seq<u8>) -> bool {
    forall|i: int| 0 <= i < s.len() ==> is_digit(#[trigger] s[i])
}

pub open spec fn all_hex(s: Seq<u8>) -> bool {
    forall|i: int| 0 <= i < s.len() ==> is_hex_digit(#[trigger] s[i])
}

pub open spec fn all_spaces(s: Seq<u8>) -> bool {
    forall|i: int| 0 <= i < s.len() ==> is_space(#[trigger] s[i])
}

/// The value of a string of decimal digits, most significant first.
pub open spec fn decimal_value(s: Seq<u8>) -> nat
    decreases s.len(),
{
    if s.len() == 0 {
        0
    } else {
        decimal_value(s.drop_last()) * 10 + ((s.last() - 48) as nat)
    }
}

/// The value of a string of hexadecimal digits, most significant first.
pub open spec fn hex_value(s: Seq<u8>) -> nat
    decreases s.len(),
{
    if s.len() == 0 {
        0
    } else {
        hex_value(s.drop_last()) * 16 + hex_digit_value(s.last())
    }
}

/// Length of the longest prefix made of decimal digits.
pub open spec fn digit_run(s: Seq<u8>) -> nat
    decreases s.len(),
{
    if s.len() > 0 && is_digit(s[0]) {
        1 + digit_run(s.drop_first())
    } else {
        0
    }
}

/// Length of the longest prefix made of white space.
pub open spec fn space_run(s: Seq<u8>) -> nat
    decreases s.len(),
{
    if s.len() > 0 && is_space(s[0]) {
        1 + space_run(s.drop_first())
    } else {
        0
    }
}

pub open spec fn pow16(n: nat) -> nat
    decreases n,
{
    if n == 0 {
        1
    } else {
        16 * pow16((n - 1) as nat)
    }
}

/// The shortest decimal rendering of `n`.
pub open spec fn decimal(n: nat) -> Seq<u8>
    decreases n,
{
    if n < 10 {
        seq![(48 + n) as u8]
    } else {
        decimal(n / 10).push((48 + n % 10) as u8)
    }
}

pub open spec fn hex_char(d: nat) -> u8 {
    if d < 10 {
        (48 + d) as u8
    } else {
        (87 + d) as u8
    }
}

/// The lowest `width` hexadecimal digits of `n`, lower case, zero padded.
pub open spec fn hex_digits(n: nat, width: nat) -> Seq<u8>
    decreases width,
{
    if width == 0 {
        seq![]
    } else {
        hex_digits(n / 16, (width - 1) as nat).push(hex_char(n % 16))
    }
}

/// A digit run is exactly the prefix of digits that ends where a non-digit
/// (or the end) comes.
pub proof fn lemma_digit_run_exact(s: Seq<u8>, k: int)
    requires
        0 <= k <= s.len(),
        all_digits(s.subrange(0, k)),
        k == s.len() || !is_digit(s[k]),
    ensures
        digit_run(s) == k,
    decreases k,
{
    if k > 0 {
        assert(is_digit(s.subrange(0, k)[0]));
        let t = s.drop_first();
        assert forall|i: int| 0 <= i < k - 1 implies is_digit(#[trigger] t.subrange(0, k - 1)[i]) by {
            assert(t.subrange(0, k - 1)[i] == s.subrange(0, k)[i + 1]);
        }
        lemma_digit_run_exact(t, k - 1);
    }
}

pub proof fn lemma_space_run_exact(s: Seq<u8>, k: int)
    requires
        0 <= k <= s.len(),
        all_spaces(s.subrange(0, k)),
        k == s.len() || !is_space(s[k]),
    ensures
        space_run(s) == k,
    decreases k,
{
    if k > 0 {
        assert(is_space(s.subrange(0, k)[0]));
        let t = s.drop_first();
        assert forall|i: int| 0 <= i < k - 1 implies is_space(#[trigger] t.subrange(0, k - 1)[i]) by {
            assert(t.subrange(0, k - 1)[i] == s.subrange(0, k)[i + 1]);
        }
        lemma_space_run_exact(t, k - 1);
    }
}

pub proof fn lemma_hex_value_bound(s: Seq<u8>)
    requires
        all_hex(s),
    ensures
        hex_value(s) < pow16(s.len()),
    decreases s.len(),
{
    if s.len() > 0 {
        let p = s.drop_last();
        assert(all_hex(p)) by {
            assert forall|i: int| 0 <= i < p.len() implies is_hex_digit(#[trigger] p[i]) by {
                assert(p[i] == s[i]);
            }
        }
        lemma_hex_value_bound(p);
        assert(is_hex_digit(s[s.len() - 1]));
        let h = hex_digit_value(s.last());
        assert(h < 16);
        let v = hex_value(p);
        let q = pow16(p.len());
        assert(v * 16 + h < 16 * q) by (nonlinear_arith)
            requires
                v < q,
                h < 16,
        ;
    }
}

pub proof fn lemma_pow16_le8(n: nat)
    requires
        n <= 8,
    ensures
        pow16(n) <= 0x1_0000_0000,
    decreases 8 - n,
{
    reveal_with_fuel(pow16, 9);
    if n < 8 {
        lemma_pow16_le8(n + 1);
        assert(pow16(n) <= pow16(n + 1));
    }
}

/// The decimal rendering of `n` reads back as `n`.
pub proof fn lemma_decimal_round_trip(n: nat)
    ensures
        decimal(n).len() >= 1,
        all_digits(decimal(n)),
        decimal_value(decimal(n)) == n,
    decreases n,
{
    if n >= 10 {
        lemma_decimal_round_trip(n / 10);
        let s = decimal(n);
        let p = decimal(n / 10);
        assert(s.drop_last() =~= p);
        assert(s.last() == (48 + n % 10) as u8);
        assert(decimal_value(s) == decimal_value(p) * 10 + ((s.last() - 48) as nat));
        assert forall|i: int| 0 <= i < s.len() implies is_digit(#[trigger] s[i]) by {
            if i < p.len() {
                assert(s[i] == p[i]);
            }
        }
    } else {
        let s = decimal(n);
        assert(s.drop_last() =~= Seq::<u8>::empty());
        assert(decimal_value(s) == decimal_value(s.drop_last()) * 10 + ((s.last() - 48) as nat));
        assert(decimal_value(Seq::<u8>::empty()) == 0);
    }
}

pub proof fn lemma_hex_char(d: nat)
    requires
        d < 16,
    ensures
        is_hex_digit(hex_char(d)),
        hex_digit_value(hex_char(d)) == d,
{
}

/// `width` hexadecimal digits render any value below `16^width` exactly.
pub proof fn lemma_hex_round_trip(n: nat, width: nat)
    requires
        n < pow16(width),
    ensures
        hex_digits(n, width).len() == width,
        all_hex(hex_digits(n, width)),
        hex_value(hex_digits(n, width)) == n,
    decreases width,
{
    if width > 0 {
        let q = pow16((width - 1) as nat);
        assert(n / 16 < q) by (nonlinear_arith)
            requires
                n < 16 * q,
        ;
        lemma_hex_round_trip(n / 16, (width - 1) as nat);
        lemma_hex_char(n % 16);
        let s = hex_digits(n, width);
        let p = hex_digits(n / 16, (width - 1) as nat);
        assert(s.drop_last() =~= p);
        assert forall|i: int| 0 <= i < s.len() implies is_hex_digit(#[trigger] s[i]) by {
            if i < p.len() {
                assert(s[i] == p[i]);
            }
        }
    } else {
        assert(n == 0);
    }
}

} // verus!
