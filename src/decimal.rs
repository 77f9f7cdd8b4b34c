//! ASCII decimal numbers: formatting and parsing.
use vstd::prelude::*;

verus! {

/// The ASCII digits of `n`, most significant first, with no leading zeros.
pub open spec fn digits(n: nat) -> Seq<u8>
    decreases n,
{
    if n < 10 {
        seq![(48 + n) as u8]
    } else {
        digits(n / 10).push((48 + n % 10) as u8)
    }
}

/// The canonical decimal form of `n`: a `-` for negative numbers, then digits.
pub open spec fn decimal(n: int) -> Seq<u8> {
    if n < 0 {
        seq![45u8] + digits((-n) as nat)
    } else {
        digits(n as nat)
    }
}

pub open spec fn is_digit(b: u8) -> bool {
    48 <= b <= 57
}

pub open spec fn all_digits(w: Seq<u8>) -> bool {
    forall|i: int| 0 <= i < w.len() ==> is_digit(#[trigger] w[i])
}

/// The value of a sequence of ASCII digits.
pub open spec fn digits_value(w: Seq<u8>) -> nat
    decreases w.len(),
{
    if w.len() == 0 {
        0
    } else {
        digits_value(w.drop_last()) * 10 + (w.last() - 48) as nat
    }
}

/// Why a word is not a signed 64-bit decimal number.
#[derive(PartialEq, Eq, Structural, Clone, Copy, Debug)]
pub enum IntError {
    /// The word holds no digit.
    Empty,
    /// A byte other than a digit, after the optional sign.
    InvalidDigit,
    /// The number does not fit in 64 signed bits.
    OutOfRange,
}

pub open spec fn i64_range(v: int) -> bool {
    i64::MIN <= v <= i64::MAX
}

/// A signed decimal number: an optional `+` or `-`, then one or more digits,
/// whose value fits in an `i64`.
pub open spec fn parse_int_spec(w: Seq<u8>) -> Result<i64, IntError> {
    let signed = w.len() > 0 && (w[0] == 43u8 || w[0] == 45u8);
    let negative = w.len() > 0 && w[0] == 45u8;
    let body = if signed { w.subrange(1, w.len() as int) } else { w };
    if body.len() == 0 {
        Err(IntError::Empty)
    } else if !all_digits(body) {
        Err(IntError::InvalidDigit)
    } else {
        let v: int = if negative { -digits_value(body) } else { digits_value(body) as int };
        if i64_range(v) {
            Ok(v as i64)
        } else {
            Err(IntError::OutOfRange)
        }
    }
}

/// Appends the digits of `n` to `out`.
pub fn write_digits(n: u64, out: &mut Vec<u8>)
    ensures
        final(out)@ == old(out)@ + digits(n as nat),
    decreases n,
{
    if n >= 10 {
        write_digits(n / 10, out);
    }
    let d: u8 = (n % 10) as u8;
    out.push(48u8 + d);
    proof {
        assert(final(out)@ =~= old(out)@ + digits(n as nat));
    }
}

/// Appends the canonical decimal form of `n` to `out`.
pub fn write_decimal(n: i64, out: &mut Vec<u8>)
    ensures
        final(out)@ == old(out)@ + decimal(n as int),
{
    if n < 0 {
        out.push(45u8);
        let m: u64 = (0i128 - n as i128) as u64;
        write_digits(m, out);
        proof {
            assert(final(out)@ =~= old(out)@ + decimal(n as int));
        }
    } else {
        write_digits(n as u64, out);
    }
}


proof fn lemma_digits_value_step(w: Seq<u8>, start: int, i: int)
    requires
        0 <= start <= i < w.len(),
    ensures
        digits_value(w.subrange(start, i + 1)) == digits_value(w.subrange(start, i)) * 10 + (w[i]
            - 48) as nat,
{
    assert(w.subrange(start, i + 1).drop_last() =~= w.subrange(start, i));
}

/// Parses a signed decimal number: an optional sign, then digits.
pub fn parse_decimal(w: &[u8]) -> (r: Result<i64, IntError>)
    ensures
        r == parse_int_spec(w@),
{
    let n = w.len();
    if n == 0 {
        return Err(IntError::Empty);
    }
    let negative = w[0] == 45u8;
    let start: usize = if w[0] == 45u8 || w[0] == 43u8 {
        1
    } else {
        0
    };
    let ghost body = if start == 1 {
        w@.subrange(1, n as int)
    } else {
        w@
    };
    proof {
        assert(w@.subrange(start as int, n as int) =~= body);
    }
    if start == n {
        return Err(IntError::Empty);
    }
    let mut i: usize = start;
    while i < n
        invariant
            start <= i <= n,
            n == w@.len(),
            forall|j: int| start <= j < i ==> is_digit(#[trigger] w@[j]),
            body == w@.subrange(start as int, n as int),
            start < n,
            start == 1 <==> (w@[0] == 45u8 || w@[0] == 43u8),
            start == 0 ==> body == w@,
        decreases n - i,
    {
        if w[i] < 48u8 || w[i] > 57u8 {
            proof {
                assert(body[i - start] == w@[i as int]);
                assert(!all_digits(body));
            }
            return Err(IntError::InvalidDigit);
        }
        i += 1;
    }
    proof {
        assert forall|j: int| 0 <= j < body.len() implies is_digit(#[trigger] body[j]) by {
            assert(body[j] == w@[j + start]);
        }
    }
    let limit: u128 = if negative {
        0x8000_0000_0000_0000u128
    } else {
        0x7fff_ffff_ffff_ffffu128
    };
    let mut acc: u128 = 0;
    i = start;
    proof {
        assert(w@.subrange(start as int, start as int) =~= Seq::<u8>::empty());
    }
    while i < n
        invariant
            start <= i <= n,
            n == w@.len(),
            forall|j: int| start <= j < n ==> is_digit(#[trigger] w@[j]),
            limit <= 0x8000_0000_0000_0000u128,
            acc <= limit + 1,
            digits_value(w@.subrange(start as int, i as int)) <= limit ==> acc == digits_value(
                w@.subrange(start as int, i as int),
            ),
            digits_value(w@.subrange(start as int, i as int)) > limit ==> acc == limit + 1,
        decreases n - i,
    {
        let d: u8 = w[i] - 48u8;
        proof {
            lemma_digits_value_step(w@, start as int, i as int);
        }
        acc = acc * 10 + d as u128;
        if acc > limit {
            acc = limit + 1;
        }
        i += 1;
    }
    if acc > limit {
        Err(IntError::OutOfRange)
    } else if negative {
        Ok((0i128 - acc as i128) as i64)
    } else {
        Ok(acc as i64)
    }
}

} // verus!
