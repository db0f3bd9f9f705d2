//! Decimal digit strings as they appear in wire-protocol size fields:
//! the canonical rendering of a number, the value of a digit string, and
//! the facts tying the two together.

use vstd::prelude::*;

verus! {

/// Byte value of the character `0`.
pub const DIGIT_ZERO: u8 = 48;

/// Whether `b` is the byte of an ASCII decimal digit.
pub open spec fn is_digit(b: u8) -> bool {
    48 <= b <= 57
}

/// Canonical decimal rendering of `n`, most significant digit first.
pub open spec fn dec_digits(n: nat) -> Seq<u8>
    decreases n,
{
    if n < 10 {
        seq![(48 + n) as u8]
    } else {
        dec_digits(n / 10) + seq![(48 + n % 10) as u8]
    }
}

/// The number a digit string denotes, read most significant digit first.
pub open spec fn digits_value(s: Seq<u8>) -> nat
    decreases s.len(),
{
    if s.len() == 0 {
        0
    } else {
        digits_value(s.drop_last()) * 10 + ((s.last() - 48) as nat)
    }
}

/// The canonical rendering is nonempty and consists of digits only.
pub proof fn lemma_dec_digits_shape(n: nat)
    ensures
        dec_digits(n).len() >= 1,
        forall|i: int| 0 <= i < dec_digits(n).len() ==> is_digit(#[trigger] dec_digits(n)[i]),
    decreases n,
{
    if n >= 10 {
        lemma_dec_digits_shape(n / 10);
    }
}

/// Reading back the canonical rendering yields the number itself.
pub proof fn lemma_dec_digits_value(n: nat)
    ensures
        digits_value(dec_digits(n)) == n,
    decreases n,
{
    if n < 10 {
        let d = dec_digits(n);
        assert(d.drop_last() =~= Seq::<u8>::empty());
        assert(digits_value(d.drop_last()) == 0);
        assert(d.last() == (48 + n) as u8);
        assert(digits_value(d) == digits_value(d.drop_last()) * 10 + ((d.last() - 48) as nat));
    } else {
        lemma_dec_digits_value(n / 10);
        assert(dec_digits(n).drop_last() =~= dec_digits(n / 10));
        assert(dec_digits(n).last() == (48 + n % 10) as u8);
        assert(n / 10 * 10 + n % 10 == n) by (nonlinear_arith);
    }
}

/// Extending a digit string on the right shifts its value one decimal
/// place and adds the new digit.
pub proof fn lemma_digits_value_snoc(s: Seq<u8>, b: u8)
    ensures
        digits_value(s.push(b)) == digits_value(s) * 10 + ((b - 48) as nat),
{
    assert(s.push(b).drop_last() =~= s);
    assert(s.push(b).last() == b);
}

/// Extending a digit string on the right never lowers its value.
pub proof fn lemma_digits_value_extend_ge(u: Seq<u8>, t: Seq<u8>)
    ensures
        digits_value(u + t) >= digits_value(u),
    decreases t.len(),
{
    if t.len() == 0 {
        assert(u + t =~= u);
    } else {
        lemma_digits_value_extend_ge(u, t.drop_last());
        assert((u + t).drop_last() =~= u + t.drop_last());
        assert(digits_value(u + t) == digits_value(u + t.drop_last()) * 10 + (((u + t).last() - 48)
            as nat));
        assert(digits_value(u + t.drop_last()) * 10 >= digits_value(u + t.drop_last()));
    }
}

/// Renders `n` in decimal, most significant digit first.
pub fn format_usize(n: usize) -> (r: Vec<u8>)
    ensures
        r@ == dec_digits(n as nat),
    decreases n,
{
    let mut r = if n >= 10 {
        format_usize(n / 10)
    } else {
        Vec::new()
    };
    r.push(48 + (n % 10) as u8);
    assert(r@ =~= dec_digits(n as nat));
    r
}

/// The number a nonempty all-digit string denotes; anything else is no
/// number.
pub open spec fn spec_parse_number(data: Seq<u8>) -> Option<nat> {
    if data.len() >= 1 && (forall|i: int| 0 <= i < data.len() ==> is_digit(#[trigger] data[i])) {
        Some(digits_value(data))
    } else {
        None
    }
}

/// Renders `n` in decimal, most significant digit first.
pub fn format_u128(n: u128) -> (r: Vec<u8>)
    ensures
        r@ == dec_digits(n as nat),
    decreases n,
{
    let mut r = if n >= 10 {
        format_u128(n / 10)
    } else {
        Vec::new()
    };
    r.push(48 + (n % 10) as u8);
    assert(r@ =~= dec_digits(n as nat));
    r
}

/// Parses a nonempty all-digit string into a number, rejecting values
/// that do not fit in `u128`.
#[verifier::loop_isolation(false)]
pub fn parse_number_u128(data: &Vec<u8>) -> (r: Option<u128>)
    ensures
        match r {
            Some(v) => spec_parse_number(data@) == Some(v as nat),
            None => spec_parse_number(data@) is None || spec_parse_number(data@)->Some_0
                > u128::MAX,
        },
{
    if data.len() == 0 {
        return None;
    }
    let mut val: u128 = 0;
    let mut j: usize = 0;
    while j < data.len()
        invariant
            j <= data@.len(),
            forall|i: int| 0 <= i < j ==> is_digit(#[trigger] data@[i]),
            val == digits_value(data@.take(j as int)),
        decreases data@.len() - j,
    {
        let b = data[j];
        if !(48 <= b && b <= 57) {
            return None;
        }
        let d = b - 48;
        proof {
            lemma_digits_value_snoc(data@.take(j as int), data@[j as int]);
            assert(data@.take(j + 1) =~= data@.take(j as int).push(data@[j as int]));
        }
        if val > (u128::MAX - d as u128) / 10 {
            proof {
                assert(val * 10 + d > u128::MAX) by (nonlinear_arith)
                    requires
                        val > (u128::MAX - d as u128) / 10,
                        d <= 9,
                ;
                lemma_digits_value_extend_ge(data@.take(j + 1), data@.skip(j + 1));
                assert(data@.take(j + 1) + data@.skip(j + 1) =~= data@);
            }
            return None;
        }
        proof {
            assert(val * 10 + d <= u128::MAX) by (nonlinear_arith)
                requires
                    val <= (u128::MAX - d as u128) / 10,
                    d <= 9,
            ;
        }
        val = val * 10 + d as u128;
        j = j + 1;
    }
    assert(data@.take(data@.len() as int) =~= data@);
    Some(val)
}

} // verus!
