use vstd::prelude::*;

verus! {

/// Whether `c` is an ASCII digit.
pub open spec fn is_digit_char(c: char) -> bool {
    '0' <= c <= '9'
}

/// The number that the digits `s` write.
pub open spec fn chars_value(s: Seq<char>) -> nat
    decreases s.len(),
{
    if s.len() == 0 {
        0
    } else {
        chars_value(s.drop_last()) * 10 + (s.last() as nat - '0' as nat) as nat
    }
}

/// The digits of an unsigned number's text: all of it, or all but a
/// leading `+`.
pub open spec fn unsigned_digits(s: Seq<char>) -> Seq<char> {
    if s.len() > 0 && s[0] == '+' {
        s.subrange(1, s.len() as int)
    } else {
        s
    }
}

/// The unsigned 64-bit number that `s` writes: one or more digits,
/// optionally after a `+`, with a value that fits; nothing else.
pub open spec fn unsigned_value(s: Seq<char>) -> Option<u64> {
    let d = unsigned_digits(s);
    if d.len() > 0 && (forall|i: int| 0 <= i < d.len() ==> is_digit_char(#[trigger] d[i]))
        && chars_value(d) <= u64::MAX {
        Some(chars_value(d) as u64)
    } else {
        None
    }
}

proof fn lemma_chars_value_mono(d: Seq<char>, a: int, b: int)
    requires
        0 <= a <= b <= d.len(),
        forall|i: int| 0 <= i < d.len() ==> is_digit_char(#[trigger] d[i]),
    ensures
        chars_value(d.subrange(0, a)) <= chars_value(d.subrange(0, b)),
    decreases b - a,
{
    if a < b {
        lemma_chars_value_mono(d, a, b - 1);
        assert(d.subrange(0, b).drop_last() =~= d.subrange(0, b - 1));
    }
}

/// Reads `s` as an unsigned 64-bit number, as Rust's own parsing of `u64`
/// does.
pub fn parse_unsigned(s: &str) -> (r: Option<u64>)
    ensures
        r == unsigned_value(s@),
{
    let n = s.unicode_len();
    let start: usize = if n > 0 && s.get_char(0) == '+' {
        1
    } else {
        0
    };
    let ghost d = unsigned_digits(s@);
    assert(d =~= s@.subrange(start as int, n as int));
    if start == n {
        return None;
    }
    let mut value: u128 = 0;
    let mut i: usize = start;
    while i < n
        invariant
            n == s@.len(),
            start <= i <= n,
            start < n,
            d == s@.subrange(start as int, n as int),
            d == unsigned_digits(s@),
            forall|k: int| 0 <= k < i - start ==> is_digit_char(#[trigger] d[k]),
            value == chars_value(d.subrange(0, i - start)),
            value <= u64::MAX,
        decreases n - i,
    {
        let c = s.get_char(i);
        if !('0' <= c && c <= '9') {
            assert(!is_digit_char(d[i - start]));
            assert(!(forall|k: int| 0 <= k < d.len() ==> is_digit_char(#[trigger] d[k])));
            return None;
        }
        assert(d.subrange(0, i + 1 - start).drop_last() =~= d.subrange(0, i - start));
        value = value * 10 + (c as u32 - '0' as u32) as u128;
        i = i + 1;
        if value > u64::MAX as u128 {
            proof {
                let len = d.len() as int;
                if forall|k: int| 0 <= k < len ==> is_digit_char(#[trigger] d[k]) {
                    lemma_chars_value_mono(d, i - start, len);
                    assert(d.subrange(0, len) =~= d);
                }
            }
            return None;
        }
    }
    assert(d.subrange(0, n - start) =~= d);
    Some(value as u64)
}

/// Accepts a text that is an unsigned 64-bit number; refuses anything else
/// with a message.
pub fn unsigned_numeric(v: String) -> (r: Result<(), String>)
    ensures
        r is Ok <==> unsigned_value(v@) is Some,
{
    match parse_unsigned(v.as_str()) {
        Some(_) => Ok(()),
        None => Err(String::from_str("Value has to be a number and >= 0")),
    }
}

} // verus!
