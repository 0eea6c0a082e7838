//! Human-readable rendering of byte counts in binary units.
use vstd::prelude::*;
use crate::decimal::{decimal, push_decimal, push_two_digits, two_digits};

verus! {

/// Why a byte count could not be rendered.
#[derive(Debug, Clone, Copy, PartialEq, Eq, Structural)]
pub enum FormatError {
    /// A byte count below zero has no size to show.
    NegativeByteCount,
}

/// `1024` to the power `k`.
pub open spec fn pow1024(k: nat) -> nat
    decreases k,
{
    if k == 0 {
        1
    } else {
        1024 * pow1024((k - 1) as nat)
    }
}

/// The index of the largest unit, from `k` up to the fifth, in which `b`
/// is at least one.
pub open spec fn unit_from(b: nat, k: nat) -> nat
    decreases 5 - k,
{
    if k >= 5 || b < pow1024(k + 1) {
        k
    } else {
        unit_from(b, k + 1)
    }
}

/// The unit a byte count is shown in: 0 for bytes up to 5 for petabytes.
pub open spec fn unit_index(b: nat) -> nat {
    unit_from(b, 0)
}

/// The symbol of the unit of index `k`.
pub open spec fn unit_name(k: nat) -> Seq<char> {
    if k == 0 {
        seq!['B']
    } else if k == 1 {
        seq!['K', 'B']
    } else if k == 2 {
        seq!['M', 'B']
    } else if k == 3 {
        seq!['G', 'B']
    } else if k == 4 {
        seq!['T', 'B']
    } else {
        seq!['P', 'B']
    }
}

/// `b / 1024^k` in hundredths, rounded to the nearest, ties to even.
pub open spec fn rounded_hundredths(b: nat, k: nat) -> nat {
    let d = pow1024(k);
    let q = (b * 100) / d;
    let r = (b * 100) % d;
    if 2 * r > d || (2 * r == d && q % 2 == 1) {
        q + 1
    } else {
        q
    }
}

/// The text shown for `b` bytes: `"0 B"` for zero, else the value in its
/// unit with two decimals, a space and the unit's symbol.
pub open spec fn human_readable(b: nat) -> Seq<char> {
    if b == 0 {
        seq!['0', ' ', 'B']
    } else {
        let h = rounded_hundredths(b, unit_index(b));
        decimal(h / 100) + seq!['.'] + two_digits(h % 100) + seq![' '] + unit_name(unit_index(b))
    }
}

proof fn lemma_pow1024_values()
    ensures
        pow1024(0) == 1,
        pow1024(1) == 1024,
        pow1024(2) == 1048576,
        pow1024(3) == 1073741824,
        pow1024(4) == 1099511627776,
        pow1024(5) == 1125899906842624,
        pow1024(6) == 1152921504606846976,
{
    reveal_with_fuel(pow1024, 7);
}

proof fn lemma_unit_from_bounds(b: nat, k: nat)
    requires
        k <= 5,
        pow1024(k) <= b,
    ensures
        k <= unit_from(b, k) <= 5,
        pow1024(unit_from(b, k)) <= b,
        unit_from(b, k) == 5 || b < pow1024(unit_from(b, k) + 1),
    decreases 5 - k,
{
    if k < 5 && b >= pow1024(k + 1) {
        lemma_unit_from_bounds(b, k + 1);
    }
}

/// A positive byte count is shown in the unit of index `k` with
/// `1024^k <= b`, and `b < 1024^(k+1)` unless `k` is the last unit.
pub proof fn lemma_unit_choice(b: nat)
    requires
        b >= 1,
    ensures
        unit_index(b) <= 5,
        pow1024(unit_index(b)) <= b,
        unit_index(b) == 5 || b < pow1024(unit_index(b) + 1),
{
    lemma_unit_from_bounds(b, 0);
}

fn push_unit(s: &mut String, k: u64)
    requires
        k <= 5,
    ensures
        final(s)@ == old(s)@ + unit_name(k as nat),
{
    if k == 0 {
        proof { reveal_strlit("B"); }
        s.append("B");
    } else if k == 1 {
        proof { reveal_strlit("KB"); }
        s.append("KB");
    } else if k == 2 {
        proof { reveal_strlit("MB"); }
        s.append("MB");
    } else if k == 3 {
        proof { reveal_strlit("GB"); }
        s.append("GB");
    } else if k == 4 {
        proof { reveal_strlit("TB"); }
        s.append("TB");
    } else {
        proof { reveal_strlit("PB"); }
        s.append("PB");
    }
}

/// Renders a byte count in the largest binary unit (B, KB, MB, GB, TB, PB)
/// in which it is at least one, with two decimals; zero is `"0 B"`.
/// A negative count is refused.
pub fn bytes_to_human_readable_string(bytes: i64) -> (r: Result<String, FormatError>)
    ensures
        bytes < 0 ==> r == Err::<String, FormatError>(FormatError::NegativeByteCount),
        bytes >= 0 ==> r is Ok && r->Ok_0@ == human_readable(bytes as nat),
{
    if bytes < 0 {
        return Err(FormatError::NegativeByteCount);
    }
    if bytes == 0 {
        proof { reveal_strlit("0 B"); }
        let s = String::from_str("0 B");
        proof { assert(s@ =~= human_readable(0)); }
        return Ok(s);
    }
    let b: u64 = bytes as u64;
    proof {
        lemma_pow1024_values();
    }
    let mut k: u64 = 0;
    let mut d: u64 = 1;
    while k < 5 && b >= d * 1024
        invariant
            k <= 5,
            d == pow1024(k as nat),
            d <= b,
            unit_from(b as nat, 0) == unit_from(b as nat, k as nat),
            pow1024(0) == 1,
            pow1024(1) == 1024,
            pow1024(2) == 1048576,
            pow1024(3) == 1073741824,
            pow1024(4) == 1099511627776,
            pow1024(5) == 1125899906842624,
        decreases 5 - k,
    {
        assert(pow1024((k + 1) as nat) == 1024 * pow1024(k as nat));
        d = d * 1024;
        k = k + 1;
    }
    assert(pow1024((k + 1) as nat) == 1024 * pow1024(k as nat));
    assert(unit_from(b as nat, k as nat) == k);
    let n: u128 = (b as u128) * 100;
    let q: u128 = n / (d as u128);
    let rem: u128 = n % (d as u128);
    let h: u128 = if 2 * rem > d as u128 || (2 * rem == d as u128 && q % 2 == 1) {
        q + 1
    } else {
        q
    };
    assert(h == rounded_hundredths(b as nat, k as nat));
    assert(q <= n) by (nonlinear_arith)
        requires
            q == n / (d as u128),
            d >= 1,
    ;
    assert(h / 100 <= b) by (nonlinear_arith)
        requires
            h <= q + 1,
            q <= n,
            n == b * 100,
    ;
    let mut s = String::new();
    push_decimal(&mut s, (h / 100) as u64);
    proof { reveal_strlit("."); }
    s.append(".");
    push_two_digits(&mut s, (h % 100) as u64);
    proof { reveal_strlit(" "); }
    s.append(" ");
    push_unit(&mut s, k);
    proof {
        assert(s@ =~= human_readable(b as nat));
    }
    Ok(s)
}

} // verus!
