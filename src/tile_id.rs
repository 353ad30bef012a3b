//! Decimal tile identifiers.
use vstd::prelude::*;
use vstd::string::StringSliceAdditionalSpecFns;

verus! {

/// An ASCII decimal digit.
pub open spec fn is_digit(b: u8) -> bool {
    48 <= b <= 57
}

/// Value of a string of decimal digits, most significant first.
pub open spec fn digits_value(d: Seq<u8>) -> int
    decreases d.len(),
{
    if d.len() == 0 {
        0
    } else {
        digits_value(d.drop_last()) * 10 + (d.last() - 48)
    }
}

/// The digits of an unsigned decimal: the text after an optional leading `+`.
pub open spec fn unsigned_digits(b: Seq<u8>) -> Seq<u8> {
    if b.len() > 0 && b[0] == 43 {
        b.subrange(1, b.len() as int)
    } else {
        b
    }
}

/// The `u32` that the bytes `b` spell in decimal: an optional `+`, then at
/// least one digit, with a value that fits in 32 bits.
pub open spec fn decimal_u32(b: Seq<u8>) -> Option<u32> {
    let d = unsigned_digits(b);
    if d.len() > 0 && (forall|i: int| 0 <= i < d.len() ==> is_digit(#[trigger] d[i]))
        && digits_value(d) <= u32::MAX {
        Some(digits_value(d) as u32)
    } else {
        None
    }
}

/// Reads a tile identifier written in decimal.
pub fn parse_tile_id(s: &str) -> (r: Option<u32>)
    ensures
        r == decimal_u32(s.spec_bytes()),
{
    let b = s.as_bytes();
    let n = b.len();
    let start: usize = if n > 0 && b[0] == 43u8 { 1 } else { 0 };
    let ghost d = unsigned_digits(b@);
    assert(d =~= b@.subrange(start as int, n as int));
    if start == n {
        return None;
    }
    let cap: u64 = 0x1_0000_0000;
    let mut v: u64 = 0;
    let mut i: usize = start;
    while i < n
        invariant
            start <= i <= n,
            cap == 0x1_0000_0000u64,
            n == b@.len(),
            d == b@.subrange(start as int, n as int),
            d == unsigned_digits(b@),
            b@ == s.spec_bytes(),
            forall|k: int| start <= k < i ==> is_digit(#[trigger] b@[k]),
            v == (if digits_value(b@.subrange(start as int, i as int)) >= cap {
                cap as int
            } else {
                digits_value(b@.subrange(start as int, i as int))
            }),
        decreases n - i,
    {
        let c = b[i];
        if c < 48u8 || c > 57u8 {
            assert(d[i - start] == c);
            return None;
        }
        let ghost prefix = b@.subrange(start as int, i as int);
        assert(b@.subrange(start as int, i + 1).drop_last() =~= prefix);
        if v < cap {
            let next = v * 10 + (c - 48u8) as u64;
            v = if next >= cap { cap } else { next };
        }
        i = i + 1;
    }
    assert(b@.subrange(start as int, n as int) =~= d);
    assert forall|k: int| 0 <= k < d.len() implies is_digit(#[trigger] d[k]) by {
        assert(d[k] == b@[start + k]);
    }
    if v < cap {
        Some(v as u32)
    } else {
        None
    }
}

} // verus!
