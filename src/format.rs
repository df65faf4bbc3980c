use vstd::prelude::*;

verus! {

/// The accumulated size of a subtree, in bytes.
///
/// 128 bits hold any total a filesystem can report (well past 2^100 bytes).
pub type OutputSize = u128;

/// The ASCII digit for `d < 10`.
pub open spec fn digit_char(d: nat) -> char {
    if d == 0 {
        '0'
    } else if d == 1 {
        '1'
    } else if d == 2 {
        '2'
    } else if d == 3 {
        '3'
    } else if d == 4 {
        '4'
    } else if d == 5 {
        '5'
    } else if d == 6 {
        '6'
    } else if d == 7 {
        '7'
    } else if d == 8 {
        '8'
    } else {
        '9'
    }
}

/// The decimal text of `n`, without sign or leading zeros.
pub open spec fn decimal_text(n: nat) -> Seq<char>
    decreases n,
{
    if n < 10 {
        seq![digit_char(n)]
    } else {
        decimal_text(n / 10).push(digit_char(n % 10))
    }
}

/// Relies on String::push: the character is appended at the end.
#[verifier::external_body]
pub(crate) fn push_char(s: &mut String, c: char)
    ensures
        final(s)@ == old(s)@.push(c),
{
    s.push(c);
}

fn digit(d: u128) -> (c: char)
    requires
        d < 10,
    ensures
        c == digit_char(d as nat),
{
    if d == 0 {
        '0'
    } else if d == 1 {
        '1'
    } else if d == 2 {
        '2'
    } else if d == 3 {
        '3'
    } else if d == 4 {
        '4'
    } else if d == 5 {
        '5'
    } else if d == 6 {
        '6'
    } else if d == 7 {
        '7'
    } else if d == 8 {
        '8'
    } else {
        '9'
    }
}

/// Appends the decimal text of `n` to `out`.
pub(crate) fn push_decimal(out: &mut String, n: u128)
    ensures
        final(out)@ == old(out)@ + decimal_text(n as nat),
    decreases n,
{
    if n >= 10 {
        push_decimal(out, n / 10);
    }
    push_char(out, digit(n % 10));
    proof {
        if n < 10 {
            assert(n % 10 == n);
        }
    }
    assert(out@ =~= old(out)@ + decimal_text(n as nat));
}


/// `size / b`, rounded up when the division leaves a remainder.
pub open spec fn ceil_div(size: nat, b: nat) -> nat
    recommends
        b > 0,
{
    if size % b == 0 {
        size / b
    } else {
        size / b + 1
    }
}

/// The number of `b`-byte blocks that `size` bytes occupy, as decimal text.
pub open spec fn block_count_text(size: nat, b: nat) -> Seq<char> {
    decimal_text(ceil_div(size, b))
}

/// `1024^k`.
pub open spec fn pow1024(k: nat) -> nat
    decreases k,
{
    if k == 0 {
        1
    } else {
        1024 * pow1024((k - 1) as nat)
    }
}

/// The largest unit available.
pub const MAX_UNIT: u32 = 8;

/// The unit step that `size` is shown in, having reached step `k`: scaling
/// goes on while the value is at least 1024 and a larger unit remains.
pub open spec fn unit_from(size: nat, k: nat) -> nat
    decreases MAX_UNIT - k,
{
    if k < MAX_UNIT && size >= pow1024(k + 1) {
        unit_from(size, k + 1)
    } else {
        k
    }
}

/// The unit step (0 for bytes, 1 for K, ..., 8 for Y) that `size` is shown in.
pub open spec fn unit_of(size: nat) -> nat {
    unit_from(size, 0)
}

/// The suffix of unit step `k`; bytes have none.
pub open spec fn unit_suffix(k: nat) -> Seq<char> {
    if k == 1 {
        seq!['K']
    } else if k == 2 {
        seq!['M']
    } else if k == 3 {
        seq!['G']
    } else if k == 4 {
        seq!['T']
    } else if k == 5 {
        seq!['P']
    } else if k == 6 {
        seq!['E']
    } else if k == 7 {
        seq!['Z']
    } else if k == 8 {
        seq!['Y']
    } else {
        seq![]
    }
}

/// `n / d` in tenths, rounded to the nearest tenth; a value halfway between
/// two tenths goes to the even one.
pub open spec fn tenths(n: nat, d: nat) -> nat
    recommends
        d > 0,
{
    let q = (10 * n) / d;
    let r = (10 * n) % d;
    if 2 * r > d || (2 * r == d && q % 2 == 1) {
        q + 1
    } else {
        q
    }
}

/// A count of tenths as text with exactly one decimal digit.
pub open spec fn tenths_text(t: nat) -> Seq<char> {
    decimal_text(t / 10).push('.').push(digit_char(t % 10))
}

/// The human-readable text of `size` bytes: the value in its unit, as a whole
/// number when it is one and else rounded to one decimal, then the suffix.
pub open spec fn human_text(size: nat) -> Seq<char> {
    let k = unit_of(size);
    let p = pow1024(k);
    let number = if size % p == 0 {
        decimal_text(size / p)
    } else {
        tenths_text(tenths(size, p))
    };
    number + unit_suffix(k)
}

/// The text of block count `ceil(size / block_size)`.
pub fn block_count_display(size: OutputSize, block_size: OutputSize) -> (r: String)
    requires
        block_size >= 1,
    ensures
        r@ == block_count_text(size as nat, block_size as nat),
{
    let q = size / block_size;
    let k = if size % block_size == 0 {
        q
    } else {
        assert(q < u128::MAX) by (nonlinear_arith)
            requires
                q == size / block_size,
                size % block_size != 0,
                block_size >= 1,
        {
            if block_size == 1 {
                assert(size % block_size == 0);
            }
            assert(q * block_size <= size);
            assert(q * 2 <= q * block_size);
        }
        q + 1
    };
    let mut out = String::new();
    push_decimal(&mut out, k);
    assert(out@ =~= block_count_text(size as nat, block_size as nat));
    out
}


pub(crate) proof fn lemma_pow1024_mono(a: nat, b: nat)
    requires
        a <= b,
    ensures
        1 <= pow1024(a) <= pow1024(b),
    decreases b,
{
    if b > 0 {
        if a < b {
            lemma_pow1024_mono(a, (b - 1) as nat);
        } else {
            lemma_pow1024_mono((b - 1) as nat, (b - 1) as nat);
        }
    }
}

proof fn lemma_pow1024_seven()
    ensures
        pow1024(7) == 0x40_0000_0000_0000_0000,
{
    reveal_with_fuel(pow1024, 8);
}

fn unit_char(k: u32) -> (c: char)
    requires
        1 <= k <= MAX_UNIT,
    ensures
        seq![c] == unit_suffix(k as nat),
{
    if k == 1 {
        'K'
    } else if k == 2 {
        'M'
    } else if k == 3 {
        'G'
    } else if k == 4 {
        'T'
    } else if k == 5 {
        'P'
    } else if k == 6 {
        'E'
    } else if k == 7 {
        'Z'
    } else {
        'Y'
    }
}

/// The human-readable text of `size` bytes, in base-1024 units up to Y.
pub fn human_readable_display(size: OutputSize) -> (r: String)
    ensures
        r@ == human_text(size as nat),
{
    let mut k: u32 = 0;
    let mut p: u128 = 1;
    proof {
        lemma_pow1024_mono(0, 7);
        lemma_pow1024_seven();
    }
    while k < MAX_UNIT && size >= p * 1024
        invariant
            k <= MAX_UNIT,
            p == pow1024(k as nat),
            k < MAX_UNIT ==> p <= 0x40_0000_0000_0000_0000,
            unit_from(size as nat, k as nat) == unit_of(size as nat),
        decreases MAX_UNIT - k,
    {
        p = p * 1024;
        k = k + 1;
        proof {
            if k < MAX_UNIT {
                lemma_pow1024_mono(k as nat, 7);
                lemma_pow1024_seven();
            }
        }
    }
    proof {
        lemma_pow1024_mono(k as nat, 8);
        if k < MAX_UNIT {
            lemma_pow1024_mono(k as nat, 7);
            lemma_pow1024_seven();
        }
    }
    let q0 = size / p;
    let r0 = size % p;
    let mut out = String::new();
    if r0 == 0 {
        push_decimal(&mut out, q0);
    } else {
        proof {
            lemma_pow1024_mono(8, 8);
            reveal_with_fuel(pow1024, 9);
        }
        assert(r0 * 10 <= u128::MAX) by (nonlinear_arith)
            requires
                r0 < p,
                p <= 0x1_0000_0000_0000_0000_0000,
        ;
        let d = (r0 * 10) / p;
        let rem = (r0 * 10) % p;
        let up = 2 * rem > p || (2 * rem == p && d % 2 == 1);
        assert(d < 10) by (nonlinear_arith)
            requires
                d == (r0 * 10) as int / p as int,
                r0 < p,
                p > 0,
        ;
        assert(q0 < u128::MAX) by (nonlinear_arith)
            requires
                q0 == size / p,
                p >= 2,
        ;
        let ip: u128 = if up && d == 9 {
            q0 + 1
        } else {
            q0
        };
        let dd: u128 = if up && d == 9 {
            0
        } else if up {
            d + 1
        } else {
            d
        };
        proof {
            let n = size as int;
            let pi = p as int;
            let qi = q0 as int;
            let ri = r0 as int;
            let di = d as int;
            let mi = rem as int;
            let t = 10 * qi + di;
            assert(n == qi * pi + ri) by (nonlinear_arith)
                requires
                    qi == n / pi,
                    ri == n % pi,
                    pi > 0,
            ;
            assert(10 * ri == di * pi + mi) by (nonlinear_arith)
                requires
                    di == (10 * ri) / pi,
                    mi == (10 * ri) % pi,
                    pi > 0,
            ;
            assert(10 * n == t * pi + mi) by (nonlinear_arith)
                requires
                    n == qi * pi + ri,
                    10 * ri == di * pi + mi,
                    t == 10 * qi + di,
            ;
            vstd::arithmetic::div_mod::lemma_fundamental_div_mod_converse(10 * n, pi, t, mi);
            let tt = if up {
                t + 1
            } else {
                t
            };
            assert(tt == tenths(size as nat, p as nat));
            vstd::arithmetic::div_mod::lemma_fundamental_div_mod_converse(tt, 10, ip as int, dd as int);
        }
        push_decimal(&mut out, ip);
        push_char(&mut out, '.');
        push_char(&mut out, digit(dd));
    }
    if k > 0 {
        push_char(&mut out, unit_char(k));
    }
    assert(out@ =~= human_text(size as nat));
    out
}


/// A block count rounds up only when a partial block remains: a size that
/// `b` divides gives `size / b`, any other `size / b + 1`.
pub proof fn lemma_ceil_div_exact(size: nat, b: nat)
    requires
        b >= 1,
    ensures
        size % b == 0 ==> ceil_div(size, b) == size / b,
        size % b != 0 ==> ceil_div(size, b) == size / b + 1,
        size % b == 0 ==> ceil_div(size, b) * b == size,
{
    if size % b == 0 {
        vstd::arithmetic::div_mod::lemma_fundamental_div_mod(size as int, b as int);
        assert(ceil_div(size, b) * b == size) by (nonlinear_arith)
            requires
                size == b * (size / b) + size % b,
                size % b == 0,
                ceil_div(size, b) == size / b,
        ;
    }
}

} // verus!
