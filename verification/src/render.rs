use vstd::prelude::*;

use vstd::string::StringExecFns;

use crate::num::be_to_u128;
use crate::num::lemma_be_val_bounds;
use crate::num::lemma_be_val_first_byte;
use crate::num::lemma_pow256_16;
use crate::num::lemma_pow256_pos;
use crate::num::pow256;
use crate::num::signed_val;

verus! {

/// Relies on `String::push`: appends the given character to the end of the
/// string.
#[verifier::external_body]
pub(crate) fn push_char(s: &mut String, c: char)
    ensures
        final(s)@ == old(s)@.push(c),
{
    s.push(c);
}

/// What `String::from_utf8_lossy` decodes a byte string to.  The result is a
/// function of the bytes alone.
pub uninterp spec fn lossy_decoded(bytes: Seq<u8>) -> Seq<char>;

/// Relies on `String::from_utf8_lossy`: the decoding depends on the bytes
/// alone, and bytes that are valid UTF-8 decode to exactly their own scalar
/// values (invalid sequences are replaced, which only `lossy_decoded` names).
#[verifier::external_body]
pub(crate) fn utf8_lossy(bytes: &[u8]) -> (r: String)
    ensures
        r@ == lossy_decoded(bytes@),
        vstd::utf8::valid_utf8(bytes@) ==> r@ == vstd::utf8::decode_utf8(bytes@),
{
    String::from_utf8_lossy(bytes).into_owned()
}

/// The decimal digit character for one digit value.
pub open spec fn spec_digit(d: int) -> char {
    if d == 0 {
        '0'
    } else if d == 1 {
        '1'
    } else if d == 2 {
        '2'
    } else if d == 3 {
        '3'
    } else if d == 4 {
        '4'
    } else if d == 5 {
        '5'
    } else if d == 6 {
        '6'
    } else if d == 7 {
        '7'
    } else if d == 8 {
        '8'
    } else {
        '9'
    }
}

/// The decimal rendering of a non-negative integer, most significant digit
/// first, with no leading zeros (zero itself renders as one digit).
pub open spec fn spec_udec(n: int) -> Seq<char>
    decreases n,
{
    if n < 10 {
        seq![spec_digit(n)]
    } else {
        spec_udec(n / 10).push(spec_digit(n % 10))
    }
}

/// The decimal rendering of an integer: a minus sign before the magnitude
/// for negative values.
pub open spec fn spec_sdec(v: int) -> Seq<char> {
    if v < 0 {
        seq!['-'] + spec_udec(-v)
    } else {
        spec_udec(v)
    }
}

fn digit_char(d: u8) -> (c: char)
    requires
        d < 10,
    ensures
        c == spec_digit(d as int),
{
    if d == 0 {
        '0'
    } else if d == 1 {
        '1'
    } else if d == 2 {
        '2'
    } else if d == 3 {
        '3'
    } else if d == 4 {
        '4'
    } else if d == 5 {
        '5'
    } else if d == 6 {
        '6'
    } else if d == 7 {
        '7'
    } else if d == 8 {
        '8'
    } else {
        '9'
    }
}

/// Renders an unsigned value in decimal.
pub(crate) fn u128_to_decimal(n: u128) -> (r: String)
    ensures
        r@ == spec_udec(n as int),
    decreases n,
{
    let d = (n % 10) as u8;
    if n < 10 {
        let mut s = String::new();
        push_char(&mut s, digit_char(d));
        proof {
            assert(s@ =~= seq![spec_digit(n as int)]);
        }
        s
    } else {
        let mut s = u128_to_decimal(n / 10);
        push_char(&mut s, digit_char(d));
        s
    }
}

/// Renders a big-endian two's-complement value of 1, 2, 4, 8 or 16 bytes in
/// decimal, with a minus sign when the top bit is set.
pub(crate) fn be_signed_to_decimal(bytes: &[u8]) -> (r: String)
    requires
        bytes@.len() == 1 || bytes@.len() == 2 || bytes@.len() == 4 || bytes@.len() == 8
            || bytes@.len() == 16,
    ensures
        r@ == spec_sdec(signed_val(bytes@)),
{
    let len = bytes.len();
    let u = be_to_u128(bytes);
    proof {
        lemma_be_val_bounds(bytes@);
        lemma_be_val_first_byte(bytes@);
        lemma_pow256_pos((bytes@.len() - 1) as nat);
    }
    if bytes[0] < 128 {
        u128_to_decimal(u)
    } else {
        proof {
            assert(bytes@[0] * pow256((bytes@.len() - 1) as nat) >= 128) by (nonlinear_arith)
                requires
                    bytes@[0] >= 128,
                    pow256((bytes@.len() - 1) as nat) >= 1,
            ;
        }
        // The value is negative: its magnitude is 256^len - u.
        let magnitude: u128 = if len == 16 {
            proof {
                lemma_pow256_16();
            }
            (u128::MAX - u) + 1
        } else if len == 8 {
            proof {
                reveal_with_fuel(pow256, 9);
            }
            0x1_0000_0000_0000_0000u128 - u
        } else if len == 4 {
            proof {
                reveal_with_fuel(pow256, 5);
            }
            0x1_0000_0000u128 - u
        } else if len == 2 {
            proof {
                reveal_with_fuel(pow256, 3);
            }
            0x1_0000u128 - u
        } else {
            proof {
                reveal_with_fuel(pow256, 2);
            }
            0x100u128 - u
        };
        let mut s = String::new();
        push_char(&mut s, '-');
        let mag = u128_to_decimal(magnitude);
        let r = s.concat(mag.as_str());
        proof {
            assert(r@ =~= spec_sdec(signed_val(bytes@)));
        }
        r
    }
}

/// The trailing zero bytes of a byte string removed.
pub open spec fn trim_zeros(s: Seq<u8>) -> Seq<u8>
    decreases s.len(),
{
    if s.len() == 0 || s.last() != 0 {
        s
    } else {
        trim_zeros(s.drop_last())
    }
}

/// Drops the trailing zero bytes of a slice.
pub(crate) fn trimmed(bytes: &[u8]) -> (r: &[u8])
    ensures
        r@ == trim_zeros(bytes@),
{
    let mut end: usize = bytes.len();
    proof {
        assert(bytes@.take(end as int) =~= bytes@);
    }
    while end > 0 && bytes[end - 1] == 0
        invariant
            end <= bytes@.len(),
            trim_zeros(bytes@) == trim_zeros(bytes@.take(end as int)),
        decreases end,
    {
        proof {
            assert(bytes@.take(end as int).last() == 0);
            assert(bytes@.take(end as int).drop_last() =~= bytes@.take(end as int - 1));
        }
        end = end - 1;
    }
    let r = &bytes[0..end];
    proof {
        assert(r@ =~= bytes@.take(end as int));
        if end > 0 {
            assert(bytes@.take(end as int).last() == bytes@[end as int - 1]);
        }
    }
    r
}

} // verus!
