use crate::format::{pow1024, OutputSize};
use vstd::prelude::*;

verus! {

/// A parsed block-size argument: multiplier, power and base.
///
/// The size it stands for is `multiplier * base^power` bytes.
#[derive(Clone, Copy, Debug, PartialEq, Eq, Structural)]
pub struct BlockSize(pub u64, pub usize, pub usize);

/// Whether `b` is an ASCII digit.
pub open spec fn is_digit_byte(b: u8) -> bool {
    48 <= b <= 57
}

/// The index just past the run of digits that starts at `i`.
pub open spec fn digit_run(s: Seq<u8>, i: int) -> int
    decreases s.len() - i,
{
    if 0 <= i < s.len() && is_digit_byte(s[i]) {
        digit_run(s, i + 1)
    } else {
        i
    }
}

/// The number that the digits `s[0..n]` write.
pub open spec fn digits_value(s: Seq<u8>, n: int) -> nat
    decreases n,
{
    if n <= 0 {
        0
    } else {
        digits_value(s, n - 1) * 10 + (s[n - 1] - 48) as nat
    }
}

/// The power that a unit letter stands for (K is 1, ..., Y is 8); 0 for any
/// other byte.
pub open spec fn unit_power(b: u8) -> nat {
    if b == 75 {
        1
    } else if b == 77 {
        2
    } else if b == 71 {
        3
    } else if b == 84 {
        4
    } else if b == 80 {
        5
    } else if b == 69 {
        6
    } else if b == 90 {
        7
    } else if b == 89 {
        8
    } else {
        0
    }
}

/// The length of the leading digits of `s`.
pub open spec fn lead_digits(s: Seq<u8>) -> int {
    digit_run(s, 0)
}

/// Whether the leading digits of `s`, if any, write a number that fits in
/// 64 bits.
pub open spec fn multiplier_fits(s: Seq<u8>) -> bool {
    digits_value(s, lead_digits(s)) <= u64::MAX
}

/// What `s` reads as: leading digits (the multiplier, 1 when there are
/// none), then an optional unit letter among KMGTPEZY (the power, 1 when
/// there is none), then an optional `B` (base 1000; else 1024). Whatever
/// follows is not read.
pub open spec fn parse_block_size(s: Seq<u8>) -> (nat, nat, nat) {
    let n = lead_digits(s);
    let multiplier = if n == 0 {
        1
    } else {
        digits_value(s, n)
    };
    let has_unit = n < s.len() && unit_power(s[n]) > 0;
    let power = if has_unit {
        unit_power(s[n])
    } else {
        1
    };
    let after = if has_unit {
        n + 1
    } else {
        n
    };
    let base = if after < s.len() && s[after] == 66 {
        1000nat
    } else {
        1024nat
    };
    (multiplier, power, base)
}

proof fn lemma_digit_run(s: Seq<u8>, i: int)
    requires
        0 <= i <= s.len(),
    ensures
        i <= digit_run(s, i) <= s.len(),
        forall|k: int| i <= k < digit_run(s, i) ==> is_digit_byte(#[trigger] s[k]),
        digit_run(s, i) < s.len() ==> !is_digit_byte(s[digit_run(s, i)]),
    decreases s.len() - i,
{
    if i < s.len() && is_digit_byte(s[i]) {
        lemma_digit_run(s, i + 1);
    }
}

proof fn lemma_digits_value_mono(s: Seq<u8>, a: int, b: int)
    requires
        0 <= a <= b <= s.len(),
        forall|k: int| 0 <= k < b ==> is_digit_byte(#[trigger] s[k]),
    ensures
        digits_value(s, a) <= digits_value(s, b),
    decreases b - a,
{
    if a < b {
        lemma_digits_value_mono(s, a, b - 1);
    }
}

fn unit_of_byte(b: u8) -> (r: usize)
    ensures
        r == unit_power(b),
{
    if b == 75 {
        1
    } else if b == 77 {
        2
    } else if b == 71 {
        3
    } else if b == 84 {
        4
    } else if b == 80 {
        5
    } else if b == 69 {
        6
    } else if b == 90 {
        7
    } else if b == 89 {
        8
    } else {
        0
    }
}

/// Reads a block-size argument such as "123KB", "M" or "4K".
pub fn block_size(input: &[u8]) -> (r: BlockSize)
    requires
        multiplier_fits(input@),
    ensures
        (r.0 as nat, r.1 as nat, r.2 as nat) == parse_block_size(input@),
{
    let ghost s = input@;
    proof {
        lemma_digit_run(s, 0);
    }
    let n = input.len();
    let mut i: usize = 0;
    let mut value: u64 = 0;
    while i < n && 48 <= input[i] && input[i] <= 57
        invariant
            n == s.len(),
            s == input@,
            i <= lead_digits(s),
            value == digits_value(s, i as int),
            multiplier_fits(s),
            lead_digits(s) <= n,
            forall|k: int| 0 <= k < lead_digits(s) ==> is_digit_byte(#[trigger] s[k]),
            lead_digits(s) < n ==> !is_digit_byte(s[lead_digits(s)]),
        decreases n - i,
    {
        proof {
            lemma_digits_value_mono(s, i + 1, lead_digits(s));
        }
        value = value * 10 + (input[i] - 48) as u64;
        i = i + 1;
    }
    let multiplier = if i == 0 {
        1
    } else {
        value
    };
    let unit = if i < n {
        unit_of_byte(input[i])
    } else {
        0
    };
    let power = if unit > 0 {
        unit
    } else {
        1
    };
    let after = if unit > 0 {
        i + 1
    } else {
        i
    };
    let base = if after < n && input[after] == 66 {
        1000
    } else {
        1024
    };
    BlockSize(multiplier, power, base)
}


/// `base^k`.
pub open spec fn power_of(base: nat, k: nat) -> nat
    decreases k,
{
    if k == 0 {
        1
    } else {
        base * power_of(base, (k - 1) as nat)
    }
}

/// The bytes that a parsed block size stands for.
pub open spec fn block_size_bytes(b: BlockSize) -> nat {
    b.0 as nat * power_of(b.2 as nat, b.1 as nat)
}

proof fn lemma_power_mono(base: nat, a: nat, b: nat)
    requires
        base >= 1,
        a <= b,
    ensures
        1 <= power_of(base, a) <= power_of(base, b),
    decreases b,
{
    if b > 0 {
        let prev = (b - 1) as nat;
        if a < b {
            lemma_power_mono(base, a, prev);
        } else {
            lemma_power_mono(base, prev, prev);
        }
        let p = power_of(base, prev);
        assert(1 <= p <= base * p) by (nonlinear_arith)
            requires
                base >= 1,
                p >= 1,
        ;
    }
}

proof fn lemma_power_at_most_1024(base: nat, k: nat)
    requires
        base <= 1024,
    ensures
        power_of(base, k) <= pow1024(k),
    decreases k,
{
    if k > 0 {
        lemma_power_at_most_1024(base, (k - 1) as nat);
        let p = power_of(base, (k - 1) as nat);
        let q = pow1024((k - 1) as nat);
        assert(base * p <= 1024 * q) by (nonlinear_arith)
            requires
                base <= 1024,
                p <= q,
        ;
    }
}

/// The size in bytes of `block_size`: its multiplier times its base raised
/// to its power.
pub fn block_size_builder(block_size: BlockSize) -> (r: OutputSize)
    requires
        power_of(block_size.2 as nat, block_size.1 as nat) <= u128::MAX,
        block_size_bytes(block_size) <= u128::MAX,
    ensures
        r == block_size_bytes(block_size),
{
    let BlockSize(multiplier, power, base) = block_size;
    if base == 0 {
        proof {
            let m = multiplier as nat;
            if power > 0 {
                assert(power_of(0, power as nat) == 0 * power_of(0, (power - 1) as nat));
                assert(m * 0 == 0) by (nonlinear_arith);
            } else {
                assert(m * 1 == m) by (nonlinear_arith);
            }
        }
        return if power == 0 {
            multiplier as u128
        } else {
            0
        };
    }
    let mut unit: u128 = 1;
    let mut k: usize = 0;
    while k < power
        invariant
            base >= 1,
            k <= power,
            unit == power_of(base as nat, k as nat),
            power_of(base as nat, power as nat) <= u128::MAX,
        decreases power - k,
    {
        proof {
            lemma_power_mono(base as nat, (k + 1) as nat, power as nat);
        }
        unit = base as u128 * unit;
        k = k + 1;
    }
    assert(multiplier as nat * unit <= u128::MAX);
    multiplier as u128 * unit
}

/// Whether the leading digits of `input`, if any, fit in 64 bits.
fn multiplier_fits_exec(input: &[u8]) -> (r: bool)
    ensures
        r == multiplier_fits(input@),
{
    let ghost s = input@;
    proof {
        lemma_digit_run(s, 0);
    }
    let n = input.len();
    let mut i: usize = 0;
    let mut value: u128 = 0;
    while i < n && 48 <= input[i] && input[i] <= 57
        invariant
            n == s.len(),
            s == input@,
            i <= lead_digits(s),
            value == digits_value(s, i as int),
            value <= u64::MAX,
            lead_digits(s) <= n,
            forall|k: int| 0 <= k < lead_digits(s) ==> is_digit_byte(#[trigger] s[k]),
            lead_digits(s) < n ==> !is_digit_byte(s[lead_digits(s)]),
        decreases n - i,
    {
        value = value * 10 + (input[i] - 48) as u128;
        i = i + 1;
        if value > u64::MAX as u128 {
            proof {
                lemma_digits_value_mono(s, i as int, lead_digits(s));
            }
            return false;
        }
    }
    true
}

/// The bytes that a block-size argument stands for, or nothing when it
/// cannot be a block size: a multiplier past 64 bits, a size past 128 bits,
/// or a size of zero.
pub open spec fn resolved_block_size(s: Seq<u8>) -> Option<nat> {
    let (m, p, b) = parse_block_size(s);
    let bytes = m * power_of(b, p);
    if !multiplier_fits(s) || bytes == 0 || bytes > u128::MAX {
        None
    } else {
        Some(bytes)
    }
}

/// Reads a block-size argument and works out its size in bytes; a size that
/// cannot divide (zero, or too large) is refused before any walk starts.
pub fn resolve_block_size(input: &[u8]) -> (r: Option<OutputSize>)
    ensures
        r matches Some(b) ==> resolved_block_size(input@) == Some(b as nat),
        r is None ==> resolved_block_size(input@) is None,
{
    if !multiplier_fits_exec(input) {
        return None;
    }
    let b = block_size(input);
    proof {
        lemma_digit_run(input@, 0);
        assert(b.1 <= 8);
        assert(b.2 <= 1024);
        lemma_power_at_most_1024(b.2 as nat, b.1 as nat);
        crate::format::lemma_pow1024_mono(b.1 as nat, 8);
        reveal_with_fuel(pow1024, 9);
        assert(1 * power_of(b.2 as nat, b.1 as nat) == power_of(b.2 as nat, b.1 as nat));
    }
    let unit = block_size_builder(BlockSize(1, b.1, b.2));
    match (b.0 as u128).checked_mul(unit) {
        Some(bytes) => if bytes == 0 {
            None
        } else {
            Some(bytes)
        },
        None => None,
    }
}

} // verus!
