//! Little-endian integers as byte sequences.

use vstd::prelude::*;

verus! {

/// The `width` lowest base-256 digits of `value`, least significant first.
pub open spec fn le_bytes(value: nat, width: nat) -> Seq<u8>
    decreases width,
{
    if width == 0 {
        Seq::empty()
    } else {
        seq![(value % 256) as u8] + le_bytes(value / 256, (width - 1) as nat)
    }
}

/// The number whose base-256 digits, least significant first, are `bytes`.
pub open spec fn le_value(bytes: Seq<u8>) -> nat
    decreases bytes.len(),
{
    if bytes.len() == 0 {
        0
    } else {
        bytes[0] as nat + 256 * le_value(bytes.skip(1))
    }
}

/// The number of values that `width` bytes can tell apart.
pub open spec fn le_bound(width: nat) -> nat
    decreases width,
{
    if width == 0 {
        1
    } else {
        256 * le_bound((width - 1) as nat)
    }
}

/// The bounds of the integer widths that streams carry.
pub proof fn lemma_le_bounds()
    ensures
        le_bound(1) == 0x100,
        le_bound(2) == 0x1_0000,
        le_bound(4) == 0x1_0000_0000,
        le_bound(8) == 0x1_0000_0000_0000_0000,
        le_bound(16) == 0x1_0000_0000_0000_0000_0000_0000_0000_0000,
{
    reveal_with_fuel(le_bound, 17);
}

/// `le_bytes` gives as many bytes as it is asked for.
pub proof fn lemma_le_bytes_len(value: nat, width: nat)
    ensures
        le_bytes(value, width).len() == width,
    decreases width,
{
    if width > 0 {
        lemma_le_bytes_len(value / 256, (width - 1) as nat);
    }
}

/// A byte sequence stands for a number below the bound of its length.
pub proof fn lemma_le_value_bound(bytes: Seq<u8>)
    ensures
        le_value(bytes) < le_bound(bytes.len()),
    decreases bytes.len(),
{
    if bytes.len() > 0 {
        lemma_le_value_bound(bytes.skip(1));
    }
}

/// A number that fits in `width` bytes is read back from those bytes.
pub proof fn law_value_round_trip(value: nat, width: nat)
    requires
        value < le_bound(width),
    ensures
        le_value(le_bytes(value, width)) == value,
    decreases width,
{
    if width > 0 {
        let tail = le_bytes(value / 256, (width - 1) as nat);
        law_value_round_trip(value / 256, (width - 1) as nat);
        assert(le_bytes(value, width).skip(1) =~= tail);
    }
}

/// Bytes are given back by the number that they stand for.
pub proof fn law_bytes_round_trip(bytes: Seq<u8>)
    ensures
        le_bytes(le_value(bytes), bytes.len()) == bytes,
    decreases bytes.len(),
{
    if bytes.len() > 0 {
        law_bytes_round_trip(bytes.skip(1));
        assert(bytes =~= seq![bytes[0]] + bytes.skip(1));
    } else {
        assert(bytes =~= Seq::empty());
    }
}

/// A number that does not fit loses its high digits.
pub proof fn lemma_le_bytes_truncate(value: nat, width: nat)
    ensures
        le_bound(width) > 0,
        le_bytes(value, width) == le_bytes(value % le_bound(width), width),
    decreases width,
{
    if width > 0 {
        let inner: nat = le_bound((width - 1) as nat);
        lemma_le_bytes_truncate(value / 256, (width - 1) as nat);
        let low: nat = value % (256 * inner);
        assert(low % 256 == value % 256 && low / 256 == (value / 256) % inner)
            by (nonlinear_arith)
            requires
                low == value % (256 * inner),
                inner > 0,
                256 * inner > 0,
        {
            let q: int = (value as int) / (256 * inner as int);
            assert(value as int == q * (256 * inner as int) + low as int);
            assert(value as int == 256 * (q * inner as int) + low as int);
        }
    }
}

/// More bytes tell apart at least as many values.
proof fn lemma_le_bound_monotone(small: nat, large: nat)
    requires
        small <= large,
    ensures
        le_bound(small) <= le_bound(large),
    decreases large,
{
    if small < large {
        lemma_le_bound_monotone(small, (large - 1) as nat);
    }
}

/// The low `width` digits of `value` as bytes, least significant first.
pub fn to_le_bytes(value: u128, width: usize) -> (bytes: Vec<u8>)
    ensures
        bytes@ == le_bytes(value as nat, width as nat),
{
    let mut bytes: Vec<u8> = Vec::new();
    let mut rest: u128 = value;
    let mut i: usize = 0;
    while i < width
        invariant
            i <= width,
            bytes@ + le_bytes(rest as nat, (width - i) as nat) =~= le_bytes(
                value as nat,
                width as nat,
            ),
        decreases width - i,
    {
        let ghost before = bytes@;
        bytes.push((rest % 256) as u8);
        assert(bytes@ + le_bytes((rest / 256) as nat, (width - i - 1) as nat) =~= before + le_bytes(
            rest as nat,
            (width - i) as nat,
        ));
        rest = rest / 256;
        i = i + 1;
    }
    bytes
}

/// The number that at most sixteen little-endian bytes stand for.
pub fn from_le_bytes(bytes: &[u8]) -> (value: u128)
    requires
        bytes@.len() <= 16,
    ensures
        value == le_value(bytes@),
{
    let mut value: u128 = 0;
    let mut i: usize = bytes.len();
    while i > 0
        invariant
            i <= bytes@.len() <= 16,
            value == le_value(bytes@.skip(i as int)),
        decreases i,
    {
        let ghost longer = bytes@.skip(i - 1);
        proof {
            assert(longer.skip(1) =~= bytes@.skip(i as int));
            lemma_le_value_bound(longer);
            lemma_le_bound_monotone(longer.len(), 16);
            lemma_le_bounds();
        }
        i = i - 1;
        value = value * 256 + bytes[i] as u128;
    }
    assert(bytes@.skip(0) =~= bytes@);
    value
}

} // verus!
