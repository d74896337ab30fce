use vstd::prelude::*;

verus! {

/// 256 raised to the `k`th power: the number of values `k` bytes can hold.
pub open spec fn pow256(k: nat) -> int
    decreases k,
{
    if k == 0 {
        1
    } else {
        256 * pow256((k - 1) as nat)
    }
}

pub proof fn lemma_pow256_pos(k: nat)
    ensures
        pow256(k) >= 1,
    decreases k,
{
    if k > 0 {
        lemma_pow256_pos((k - 1) as nat);
    }
}

pub proof fn lemma_pow256_mono(a: nat, b: nat)
    requires
        a <= b,
    ensures
        pow256(a) <= pow256(b),
    decreases b,
{
    if a < b {
        lemma_pow256_mono(a, (b - 1) as nat);
        lemma_pow256_pos((b - 1) as nat);
    }
}

pub proof fn lemma_pow256_16()
    ensures
        pow256(16) == 0x1_0000_0000_0000_0000_0000_0000_0000_0000,
{
    reveal_with_fuel(pow256, 17);
}

/// The unsigned value of a big-endian byte string.
pub open spec fn be_val(s: Seq<u8>) -> int
    decreases s.len(),
{
    if s.len() == 0 {
        0
    } else {
        be_val(s.drop_last()) * 256 + s.last()
    }
}

pub proof fn lemma_be_val_bounds(s: Seq<u8>)
    ensures
        0 <= be_val(s) < pow256(s.len()),
    decreases s.len(),
{
    if s.len() == 0 {
    } else {
        let prefix = s.drop_last();
        lemma_be_val_bounds(prefix);
        assert(pow256(s.len()) == 256 * pow256(prefix.len()));
        assert(be_val(prefix) * 256 + s.last() < 256 * pow256(prefix.len()))
            by (nonlinear_arith)
            requires
                0 <= be_val(prefix) < pow256(prefix.len()),
                s.last() < 256,
        ;
    }
}

/// A big-endian value is at least its first byte shifted to its place.
pub proof fn lemma_be_val_first_byte(s: Seq<u8>)
    requires
        s.len() > 0,
    ensures
        be_val(s) >= s[0] * pow256((s.len() - 1) as nat),
    decreases s.len(),
{
    if s.len() == 1 {
        assert(be_val(s.drop_last()) == 0);
        assert(s.last() == s[0]);
        assert(pow256(0) == 1);
    } else {
        let prefix = s.drop_last();
        assert(prefix[0] == s[0]);
        lemma_be_val_first_byte(prefix);
        lemma_pow256_pos((prefix.len() - 1) as nat);
        assert(pow256((s.len() - 1) as nat) == 256 * pow256((prefix.len() - 1) as nat));
        assert(be_val(prefix) * 256 >= s[0] * (256 * pow256((prefix.len() - 1) as nat)))
            by (nonlinear_arith)
            requires
                be_val(prefix) >= s[0] * pow256((prefix.len() - 1) as nat),
                pow256((prefix.len() - 1) as nat) >= 1,
                s[0] >= 0,
        ;
    }
}

/// The two's-complement value of a big-endian byte string: negative exactly
/// when the top bit of the first byte is set.
pub open spec fn signed_val(s: Seq<u8>) -> int {
    if s.len() > 0 && s[0] >= 128 {
        be_val(s) - pow256(s.len())
    } else {
        be_val(s)
    }
}

proof fn lemma_be_val_take_step(s: Seq<u8>, i: int)
    requires
        0 <= i < s.len(),
    ensures
        be_val(s.take(i + 1)) == be_val(s.take(i)) * 256 + s[i],
{
    assert(s.take(i + 1).drop_last() =~= s.take(i));
    assert(s.take(i + 1).last() == s[i]);
}

/// Reads a big-endian unsigned integer of at most sixteen bytes.
pub fn be_to_u128(bytes: &[u8]) -> (r: u128)
    requires
        bytes@.len() <= 16,
    ensures
        r as int == be_val(bytes@),
{
    let len = bytes.len();
    let mut acc: u128 = 0;
    let mut i: usize = 0;
    proof {
        assert(bytes@.take(0) =~= Seq::<u8>::empty());
    }
    while i < len
        invariant
            i <= len == bytes@.len() <= 16,
            acc as int == be_val(bytes@.take(i as int)),
        decreases len - i,
    {
        let b = bytes[i];
        proof {
            let prefix = bytes@.take(i as int);
            lemma_be_val_bounds(prefix);
            lemma_pow256_mono((i + 1) as nat, 16);
            lemma_pow256_16();
            assert(pow256((i + 1) as nat) == 256 * pow256(i as nat));
            assert(acc * 256 + b < pow256((i + 1) as nat)) by (nonlinear_arith)
                requires
                    0 <= acc < pow256(i as nat),
                    pow256((i + 1) as nat) == 256 * pow256(i as nat),
                    b < 256,
            ;
            lemma_be_val_take_step(bytes@, i as int);
        }
        acc = acc * 256 + (b as u128);
        i = i + 1;
    }
    proof {
        assert(bytes@.take(len as int) =~= bytes@);
    }
    acc
}

} // verus!
