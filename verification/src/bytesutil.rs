//! Byte-level helpers shared by the decoder, the coverage tracker and the
//! model chain: slice copies, decimal rendering and parsing, and
//! little-endian integers.

use vstd::prelude::*;

verus! {

/// An ASCII decimal digit.
pub open spec fn is_digit(b: u8) -> bool {
    48 <= b <= 57
}

pub open spec fn digit_val(b: u8) -> nat {
    if is_digit(b) {
        (b - 48) as nat
    } else {
        0
    }
}

pub open spec fn all_digits(s: Seq<u8>) -> bool {
    forall|i: int| 0 <= i < s.len() ==> is_digit(#[trigger] s[i])
}

/// The number denoted by a sequence of ASCII digits, most significant first.
pub open spec fn digits_value(s: Seq<u8>) -> nat
    decreases s.len(),
{
    if s.len() == 0 {
        0
    } else {
        10 * digits_value(s.drop_last()) + digit_val(s.last())
    }
}

/// The shortest decimal rendering of `n`, as ASCII bytes.
pub open spec fn dec_digits(n: nat) -> Seq<u8>
    decreases n,
{
    if n < 10 {
        seq![(48 + n) as u8]
    } else {
        dec_digits(n / 10).push((48 + n % 10) as u8)
    }
}

/// The value of a byte sequence read as a little-endian integer.
pub open spec fn le_value(s: Seq<u8>) -> nat
    decreases s.len(),
{
    if s.len() == 0 {
        0
    } else {
        (s[0] + 256 * le_value(s.subrange(1, s.len() as int))) as nat
    }
}

pub open spec fn exp256(n: nat) -> nat
    decreases n,
{
    if n == 0 {
        1
    } else {
        256 * exp256((n - 1) as nat)
    }
}

pub proof fn lemma_le_value_bound(s: Seq<u8>)
    ensures
        le_value(s) < exp256(s.len()),
    decreases s.len(),
{
    if s.len() == 0 {
    } else {
        let rest = s.subrange(1, s.len() as int);
        lemma_le_value_bound(rest);
        assert(le_value(s) == s[0] + 256 * le_value(rest));
        assert(s[0] <= 255);
        assert(256 * le_value(rest) <= 256 * (exp256(rest.len()) - 1)) by (nonlinear_arith)
            requires
                le_value(rest) <= exp256(rest.len()) - 1,
        ;
    }
}

/// Decimal rendering produces digits only.
pub proof fn lemma_dec_digits_are_digits(n: nat)
    ensures
        all_digits(dec_digits(n)),
        dec_digits(n).len() >= 1,
    decreases n,
{
    if n < 10 {
    } else {
        lemma_dec_digits_are_digits(n / 10);
        let s = dec_digits(n);
        assert forall|i: int| 0 <= i < s.len() implies is_digit(#[trigger] s[i]) by {
            if i < s.len() - 1 {
                assert(s[i] == dec_digits(n / 10)[i]);
            }
        }
    }
}

/// Rendering then reading a decimal number gives the number back.
pub proof fn lemma_dec_digits_value(n: nat)
    ensures
        digits_value(dec_digits(n)) == n,
    decreases n,
{
    if n < 10 {
        let s = dec_digits(n);
        assert(s.drop_last() =~= Seq::<u8>::empty());
        assert(s.last() == (48 + n) as u8);
        assert(digit_val((48 + n) as u8) == n);
        assert(digits_value(s.drop_last()) == 0);
        assert(digits_value(s) == 10 * digits_value(s.drop_last()) + digit_val(s.last()));
    } else {
        lemma_dec_digits_value(n / 10);
        let s = dec_digits(n);
        assert(s.drop_last() =~= dec_digits(n / 10));
        assert(s.last() == (48 + n % 10) as u8);
        assert(digit_val((48 + n % 10) as u8) == n % 10);
        assert(10 * (n / 10) + n % 10 == n);
    }
}

/// Whether two byte slices hold the same bytes.
pub fn bytes_eq(a: &[u8], b: &[u8]) -> (r: bool)
    ensures
        r == (a@ == b@),
{
    if a.len() != b.len() {
        return false;
    }
    let mut i: usize = 0;
    while i < a.len()
        invariant
            a@.len() == b@.len(),
            0 <= i <= a@.len(),
            forall|j: int| 0 <= j < i ==> a@[j] == b@[j],
        decreases a@.len() - i,
    {
        if a[i] != b[i] {
            return false;
        }
        i = i + 1;
    }
    proof {
        assert(a@ =~= b@);
    }
    true
}

/// Copies the bytes of `data` between `from` and `to` into a fresh vector.
pub fn copy_range(data: &[u8], from: usize, to: usize) -> (r: Vec<u8>)
    requires
        from <= to <= data@.len(),
    ensures
        r@ == data@.subrange(from as int, to as int),
{
    let mut v: Vec<u8> = Vec::new();
    let mut i: usize = from;
    while i < to
        invariant
            from <= i <= to <= data@.len(),
            v@ == data@.subrange(from as int, i as int),
        decreases to - i,
    {
        v.push(data[i]);
        proof {
            assert(data@.subrange(from as int, i + 1 as int) =~= data@.subrange(
                from as int,
                i as int,
            ).push(data@[i as int]));
        }
        i = i + 1;
    }
    v
}

/// Copies a byte vector.
pub fn copy_bytes(v: &Vec<u8>) -> (r: Vec<u8>)
    ensures
        r@ == v@,
{
    let r = copy_range(v.as_slice(), 0, v.len());
    proof {
        assert(v@.subrange(0, v@.len() as int) =~= v@);
    }
    r
}

/// Appends the decimal rendering of `n` to `buf`.
pub fn push_decimal(buf: &mut Vec<u8>, n: u64)
    ensures
        final(buf)@ == old(buf)@ + dec_digits(n as nat),
    decreases n,
{
    if n < 10 {
        buf.push(48 + n as u8);
        proof {
            assert(final(buf)@ =~= old(buf)@ + dec_digits(n as nat));
        }
    } else {
        push_decimal(buf, n / 10);
        buf.push(48 + (n % 10) as u8);
        proof {
            assert(final(buf)@ =~= old(buf)@ + dec_digits(n as nat));
        }
    }
}

/// The value of the digit run `s`, or `None` when `s` is empty, holds a
/// non-digit, or denotes a number above `u64::MAX`.
pub open spec fn parse_digits_spec(s: Seq<u8>) -> Option<u64> {
    if s.len() >= 1 && all_digits(s) && digits_value(s) <= u64::MAX {
        Some(digits_value(s) as u64)
    } else {
        None
    }
}

/// A longer digit run denotes at least as large a number.
proof fn lemma_digits_value_take_grows(s: Seq<u8>, i: int)
    requires
        0 <= i < s.len(),
    ensures
        digits_value(s.take(i)) <= digits_value(s.take(i + 1)),
{
    assert(s.take(i + 1).drop_last() =~= s.take(i));
    assert(digits_value(s.take(i + 1)) == 10 * digits_value(s.take(i)) + digit_val(
        s.take(i + 1).last(),
    ));
}

proof fn lemma_digits_value_monotone(s: Seq<u8>, i: int)
    requires
        0 <= i <= s.len(),
    ensures
        digits_value(s.take(i)) <= digits_value(s),
    decreases s.len() - i,
{
    if i == s.len() {
        assert(s.take(i) =~= s);
    } else {
        lemma_digits_value_take_grows(s, i);
        lemma_digits_value_monotone(s, i + 1);
    }
}

/// Reads the digit run `data[from..]` as a decimal number.
pub fn parse_all_digits(data: &[u8], from: usize) -> (r: Option<u64>)
    requires
        from <= data@.len(),
    ensures
        r == parse_digits_spec(data@.skip(from as int)),
{
    let ghost s = data@.skip(from as int);
    if from == data.len() {
        return None;
    }
    let mut acc: u128 = 0;
    let mut i: usize = from;
    while i < data.len()
        invariant
            from <= i <= data@.len(),
            s == data@.skip(from as int),
            all_digits(s.take(i - from)),
            acc == digits_value(s.take(i - from)),
            acc <= u64::MAX,
        decreases data@.len() - i,
    {
        let b = data[i];
        if b < 48 || b > 57 {
            proof {
                assert(s[i - from] == data@[i as int]);
                assert(!is_digit(s[i - from]));
            }
            return None;
        }
        proof {
            assert(s.take(i - from + 1).drop_last() =~= s.take(i - from));
            assert(s.take(i - from + 1).last() == data@[i as int]);
        }
        acc = 10 * acc + ((b - 48) as u128);
        proof {
            assert(acc == digits_value(s.take(i - from + 1)));
        }
        i = i + 1;
        if acc > u64::MAX as u128 {
            proof {
                lemma_digits_value_monotone(s, i - from);
                assert(digits_value(s) > u64::MAX);
            }
            return None;
        }
    }
    proof {
        assert(s.take(i - from) =~= s);
        assert(s.len() >= 1);
    }
    Some(acc as u64)
}

/// Reads `data[from..to]` as a little-endian integer of at most four bytes.
pub fn le_bytes_value(data: &[u8], from: usize, to: usize) -> (r: u128)
    requires
        from <= to <= data@.len(),
        to - from <= 4,
    ensures
        r == le_value(data@.subrange(from as int, to as int)),
        r < 0x1_0000_0000,
    decreases to - from,
{
    let ghost s = data@.subrange(from as int, to as int);
    proof {
        lemma_le_value_bound(s);
        assert(exp256(0) == 1);
        assert(exp256(1) == 256);
        assert(exp256(2) == 65536);
        assert(exp256(3) == 16777216);
        assert(exp256(4) == 0x1_0000_0000);
        assert(exp256(s.len()) <= 0x1_0000_0000);
    }
    if from == to {
        0
    } else {
        let rest = le_bytes_value(data, from + 1, to);
        proof {
            assert(s.subrange(1, s.len() as int) =~= data@.subrange(from + 1 as int, to as int));
            assert(s[0] == data@[from as int]);
            lemma_le_value_bound(s.subrange(1, s.len() as int));
        }
        let r: u128 = data[from] as u128 + 256 * rest;
        r
    }
}

} // verus!
