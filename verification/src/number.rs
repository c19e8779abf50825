//! Numbers as big-endian byte strings.
use vstd::prelude::*;

verus! {

/// The last `width` base-256 digits of `value`, the most significant first.
pub open spec fn be_bytes(value: nat, width: nat) -> Seq<u8>
    decreases width,
{
    if width == 0 {
        Seq::empty()
    } else {
        be_bytes(value / 256, (width - 1) as nat).push((value % 256) as u8)
    }
}

/// The number that `bytes` writes in base 256, the most significant digit
/// first.
pub open spec fn number(bytes: Seq<u8>) -> nat
    decreases bytes.len(),
{
    if bytes.len() == 0 {
        0
    } else {
        number(bytes.drop_last()) * 256 + bytes.last() as nat
    }
}

/// Whether `value` has at most `width` base-256 digits.
pub open spec fn fits(value: nat, width: nat) -> bool
    decreases width,
{
    if width == 0 {
        value == 0
    } else {
        fits(value / 256, (width - 1) as nat)
    }
}

/// A number that fits in `width` digits is read back from them.
pub proof fn lemma_number_be_bytes(value: nat, width: nat)
    requires
        fits(value, width),
    ensures
        number(be_bytes(value, width)) == value,
    decreases width,
{
    if width > 0 {
        let rest = be_bytes(value / 256, (width - 1) as nat);
        lemma_number_be_bytes(value / 256, (width - 1) as nat);
        assert(be_bytes(value, width).drop_last() =~= rest);
        assert(be_bytes(value, width).last() == (value % 256) as u8);
    }
}

/// Every `u128` fits in 16 digits.
pub proof fn lemma_u128_fits(value: u128)
    ensures
        fits(value as nat, 16),
{
    let v0 = value as nat;
    let v1 = v0 / 256;
    let v2 = v1 / 256;
    let v3 = v2 / 256;
    let v4 = v3 / 256;
    let v5 = v4 / 256;
    let v6 = v5 / 256;
    let v7 = v6 / 256;
    let v8 = v7 / 256;
    let v9 = v8 / 256;
    let v10 = v9 / 256;
    let v11 = v10 / 256;
    let v12 = v11 / 256;
    let v13 = v12 / 256;
    let v14 = v13 / 256;
    let v15 = v14 / 256;
    let v16 = v15 / 256;
    assert(v0 < 0x1_0000_0000_0000_0000_0000_0000_0000_0000);
    assert(v4 < 0x1_0000_0000_0000_0000_0000_0000);
    assert(v8 < 0x1_0000_0000_0000_0000);
    assert(v12 < 0x1_0000_0000);
    assert(v16 == 0);
    assert(fits(v16, 0));
    assert(fits(v15, 1));
    assert(fits(v14, 2));
    assert(fits(v13, 3));
    assert(fits(v12, 4));
    assert(fits(v11, 5));
    assert(fits(v10, 6));
    assert(fits(v9, 7));
    assert(fits(v8, 8));
    assert(fits(v7, 9));
    assert(fits(v6, 10));
    assert(fits(v5, 11));
    assert(fits(v4, 12));
    assert(fits(v3, 13));
    assert(fits(v2, 14));
    assert(fits(v1, 15));
    assert(fits(v0, 16));
}

/// More digits never write a smaller number.
pub proof fn lemma_number_grows(bytes: Seq<u8>, n: int)
    requires
        0 <= n <= bytes.len(),
    ensures
        number(bytes.subrange(0, n)) <= number(bytes),
    decreases bytes.len() - n,
{
    if n == bytes.len() {
        assert(bytes.subrange(0, n) =~= bytes);
    } else {
        lemma_number_grows(bytes, n + 1);
        assert(bytes.subrange(0, n + 1).drop_last() =~= bytes.subrange(0, n));
    }
}

/// Appends the last `width` base-256 digits of `value` to `out`, the most
/// significant first.
pub fn append_be_bytes(out: &mut Vec<u8>, value: u128, width: usize)
    ensures
        final(out)@ == old(out)@ + be_bytes(value as nat, width as nat),
    decreases width,
{
    if width == 0 {
        assert(out@ =~= old(out)@ + be_bytes(value as nat, 0));
    } else {
        append_be_bytes(out, value / 256, width - 1);
        out.push((value % 256) as u8);
        assert(out@ =~= old(out)@ + be_bytes(value as nat, width as nat));
    }
}

/// Reads the number that `bytes` writes big-endian; `None` where it does
/// not fit in a `u128`.
pub fn read_be_bytes(bytes: &[u8]) -> (value: Option<u128>)
    ensures
        value is Some <==> number(bytes@) <= u128::MAX,
        value matches Some(v) ==> v == number(bytes@),
{
    let mut acc: u128 = 0;
    let mut i: usize = 0;
    assert(bytes@.subrange(0, 0) =~= Seq::<u8>::empty());
    while i < bytes.len()
        invariant
            i <= bytes.len(),
            acc == number(bytes@.subrange(0, i as int)),
        decreases bytes.len() - i,
    {
        let b: u8 = bytes[i];
        proof {
            assert(bytes@.subrange(0, i + 1).drop_last() =~= bytes@.subrange(0, i as int));
            assert(bytes@.subrange(0, i + 1).last() == b);
            lemma_number_grows(bytes@, i + 1);
        }
        if acc > (u128::MAX - b as u128) / 256 {
            return None;
        }
        acc = acc * 256 + b as u128;
        i = i + 1;
    }
    assert(bytes@.subrange(0, i as int) =~= bytes@);
    Some(acc)
}

} // verus!
