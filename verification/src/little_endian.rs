//! Little-endian integers: the value of a run of bytes, and the bytes of a value.

use vstd::prelude::*;

verus! {

/// The number that `bytes` spell, least significant byte first.
pub open spec fn le_value(bytes: Seq<u8>) -> nat
    decreases bytes.len(),
{
    if bytes.len() == 0 {
        0
    } else {
        bytes[0] as nat + 256 * le_value(bytes.drop_first())
    }
}

/// The `width` low bytes of `value`, least significant byte first.
pub open spec fn le_bytes(value: nat, width: nat) -> Seq<u8>
    decreases width,
{
    if width == 0 {
        Seq::empty()
    } else {
        seq![(value % 256) as u8] + le_bytes(value / 256, (width - 1) as nat)
    }
}

/// `256` to the power `width`: how many values `width` bytes can spell.
pub open spec fn le_range(width: nat) -> nat
    decreases width,
{
    if width == 0 {
        1
    } else {
        256 * le_range((width - 1) as nat)
    }
}

/// `le_bytes` gives as many bytes as it was asked for.
pub proof fn lemma_le_bytes_len(value: nat, width: nat)
    ensures
        le_bytes(value, width).len() == width,
    decreases width,
{
    if width > 0 {
        lemma_le_bytes_len(value / 256, (width - 1) as nat);
    }
}

/// Writing a number that fits and reading the bytes back gives the number.
pub proof fn law_value_of_bytes(value: nat, width: nat)
    requires
        value < le_range(width),
    ensures
        le_value(le_bytes(value, width)) == value,
    decreases width,
{
    if width > 0 {
        let rest = le_bytes(value / 256, (width - 1) as nat);
        law_value_of_bytes(value / 256, (width - 1) as nat);
        assert(le_bytes(value, width).drop_first() =~= rest);
    }
}

/// Reading a run of bytes as a number and writing the number gives the bytes.
pub proof fn law_bytes_of_value(bytes: Seq<u8>)
    ensures
        le_bytes(le_value(bytes), bytes.len()) == bytes,
    decreases bytes.len(),
{
    if bytes.len() > 0 {
        let rest = bytes.drop_first();
        law_bytes_of_value(rest);
        let value = le_value(bytes);
        assert(value % 256 == bytes[0] as nat && value / 256 == le_value(rest)) by {
            let low = bytes[0] as nat;
            let high = le_value(rest);
            assert((low + 256 * high) % 256 == low) by (nonlinear_arith)
                requires
                    low < 256,
            ;
            assert((low + 256 * high) / 256 == high) by (nonlinear_arith)
                requires
                    low < 256,
            ;
        }
        assert(seq![bytes[0]] + rest =~= bytes);
    } else {
        assert(le_bytes(le_value(bytes), 0) =~= bytes);
    }
}

/// `le_value` spelled out for two bytes.
pub proof fn lemma_le_value_2(bytes: Seq<u8>)
    requires
        bytes.len() == 2,
    ensures
        le_value(bytes) == bytes[0] + 256 * bytes[1],
{
    reveal_with_fuel(le_value, 3);
}

/// `le_value` spelled out for four bytes.
pub proof fn lemma_le_value_4(bytes: Seq<u8>)
    requires
        bytes.len() == 4,
    ensures
        le_value(bytes) == bytes[0] + 0x100 * bytes[1] + 0x1_0000 * bytes[2] + 0x100_0000
            * bytes[3],
{
    reveal_with_fuel(le_value, 5);
}

/// `le_value` of eight bytes, by the value of either half.
proof fn lemma_le_value_split_4_4(bytes: Seq<u8>)
    requires
        bytes.len() == 8,
    ensures
        le_value(bytes) == le_value(bytes.subrange(0, 4)) + 0x1_0000_0000 * le_value(
            bytes.subrange(4, 8),
        ),
{
    let high = bytes.subrange(4, 8);
    lemma_le_value_4(bytes.subrange(0, 4));
    let d1 = bytes.drop_first();
    let d2 = d1.drop_first();
    let d3 = d2.drop_first();
    let d4 = d3.drop_first();
    assert(d4 =~= high);
    assert(d1[0] == bytes[1] && d2[0] == bytes[2] && d3[0] == bytes[3]);
    assert(le_value(bytes) == bytes[0] + 256 * le_value(d1));
    assert(le_value(d1) == bytes[1] + 256 * le_value(d2));
    assert(le_value(d2) == bytes[2] + 256 * le_value(d3));
    assert(le_value(d3) == bytes[3] + 256 * le_value(d4));
}

/// Eight bytes spell a number that fits in 64 bits.
pub proof fn lemma_le_value_8_bound(bytes: Seq<u8>)
    requires
        bytes.len() == 8,
    ensures
        le_value(bytes) <= u64::MAX,
{
    lemma_le_value_split_4_4(bytes);
    lemma_le_value_4(bytes.subrange(0, 4));
    lemma_le_value_4(bytes.subrange(4, 8));
}

/// The place value of each byte: a byte counts 256 times as much as the one
/// before it, and the first counts as it is. Both of the value of bytes and of
/// the bytes of a value.
pub proof fn law_place_values(bytes: Seq<u8>, value: u64)
    ensures
        bytes.len() == 2 ==> le_value(bytes) == bytes[0] + 0x100 * bytes[1],
        bytes.len() == 4 ==> le_value(bytes) == bytes[0] + 0x100 * bytes[1] + 0x1_0000 * bytes[2]
            + 0x100_0000 * bytes[3],
        bytes.len() == 8 ==> le_value(bytes) == bytes[0] + 0x100 * bytes[1] + 0x1_0000 * bytes[2]
            + 0x100_0000 * bytes[3] + 0x1_0000_0000 * bytes[4] + 0x100_0000_0000 * bytes[5]
            + 0x1_0000_0000_0000 * bytes[6] + 0x100_0000_0000_0000 * bytes[7],
        value < 0x1_0000 ==> ({
            let two = le_bytes(value as nat, 2);
            two.len() == 2 && two[0] + 0x100 * two[1] == value
        }),
        value < 0x1_0000_0000 ==> ({
            let four = le_bytes(value as nat, 4);
            four.len() == 4 && four[0] + 0x100 * four[1] + 0x1_0000 * four[2] + 0x100_0000
                * four[3] == value
        }),
        ({
            let eight = le_bytes(value as nat, 8);
            eight.len() == 8 && eight[0] + 0x100 * eight[1] + 0x1_0000 * eight[2] + 0x100_0000
                * eight[3] + 0x1_0000_0000 * eight[4] + 0x100_0000_0000 * eight[5]
                + 0x1_0000_0000_0000 * eight[6] + 0x100_0000_0000_0000 * eight[7] == value
        }),
{
    assert(le_range(2) == 0x1_0000 && le_range(4) == 0x1_0000_0000 && le_range(8)
        == 0x1_0000_0000_0000_0000) by {
        reveal_with_fuel(le_range, 9);
    }
    lemma_le_bytes_len(value as nat, 2);
    lemma_le_bytes_len(value as nat, 4);
    lemma_le_bytes_len(value as nat, 8);
    if value < 0x1_0000 {
        law_value_of_bytes(value as nat, 2);
        lemma_le_value_2(le_bytes(value as nat, 2));
    }
    if value < 0x1_0000_0000 {
        law_value_of_bytes(value as nat, 4);
        lemma_le_value_4(le_bytes(value as nat, 4));
    }
    law_value_of_bytes(value as nat, 8);
    lemma_le_value_8(le_bytes(value as nat, 8));
    if bytes.len() == 2 {
        lemma_le_value_2(bytes);
    } else if bytes.len() == 4 {
        lemma_le_value_4(bytes);
    } else if bytes.len() == 8 {
        lemma_le_value_8(bytes);
    }
}

proof fn lemma_le_value_8(bytes: Seq<u8>)
    requires
        bytes.len() == 8,
    ensures
        le_value(bytes) == bytes[0] + 0x100 * bytes[1] + 0x1_0000 * bytes[2] + 0x100_0000
            * bytes[3] + 0x1_0000_0000 * bytes[4] + 0x100_0000_0000 * bytes[5]
            + 0x1_0000_0000_0000 * bytes[6] + 0x100_0000_0000_0000 * bytes[7],
{
    lemma_le_value_split_4_4(bytes);
    lemma_le_value_4(bytes.subrange(0, 4));
    lemma_le_value_4(bytes.subrange(4, 8));
}

/// Read two bytes as a number.
pub fn u16_at(data: &[u8], at: usize) -> (value: u16)
    requires
        at + 2 <= data@.len(),
    ensures
        value == le_value(data@.subrange(at as int, at + 2)),
{
    proof {
        lemma_le_value_2(data@.subrange(at as int, at + 2));
    }
    data[at] as u16 + 256 * (data[at + 1] as u16)
}

/// Read four bytes as a number.
pub fn u32_at(data: &[u8], at: usize) -> (value: u32)
    requires
        at + 4 <= data@.len(),
    ensures
        value == le_value(data@.subrange(at as int, at + 4)),
{
    proof {
        lemma_le_value_4(data@.subrange(at as int, at + 4));
    }
    data[at] as u32 + 0x100 * (data[at + 1] as u32) + 0x1_0000 * (data[at + 2] as u32)
        + 0x100_0000 * (data[at + 3] as u32)
}

/// Read eight bytes as a number.
pub fn u64_at(data: &[u8], at: usize) -> (value: u64)
    requires
        at + 8 <= data@.len(),
    ensures
        value == le_value(data@.subrange(at as int, at + 8)),
{
    assert(at + 8 <= data.len());
    let low: u32 = u32_at(data, at);
    let high: u32 = u32_at(data, at + 4);
    proof {
        let all = data@.subrange(at as int, at + 8);
        lemma_le_value_split_4_4(all);
        assert(all.subrange(0, 4) =~= data@.subrange(at as int, at + 4));
        assert(all.subrange(4, 8) =~= data@.subrange(at + 4, at + 8));
    }
    low as u64 + 0x1_0000_0000 * (high as u64)
}

/// Append the two bytes of `value`.
pub fn push_u16(out: &mut Vec<u8>, value: u16)
    ensures
        final(out)@ == old(out)@ + le_bytes(value as nat, 2),
{
    proof {
        reveal_with_fuel(le_bytes, 3);
    }
    out.push((value % 256) as u8);
    out.push((value / 256) as u8);
    assert(out@ =~= old(out)@ + le_bytes(value as nat, 2));
}

/// Append the `width` low bytes of `value`.
fn push_le(out: &mut Vec<u8>, value: u64, width: usize)
    ensures
        final(out)@ == old(out)@ + le_bytes(value as nat, width as nat),
    decreases width,
{
    if width == 0 {
        assert(out@ =~= old(out)@ + le_bytes(value as nat, 0));
    } else {
        let ghost before = out@;
        out.push((value % 256) as u8);
        push_le(out, value / 256, width - 1);
        assert(out@ =~= before + le_bytes(value as nat, width as nat));
    }
}

/// Append the four bytes of `value`.
pub fn push_u32(out: &mut Vec<u8>, value: u32)
    ensures
        final(out)@ == old(out)@ + le_bytes(value as nat, 4),
{
    push_le(out, value as u64, 4);
}

/// Append the eight bytes of `value`.
pub fn push_u64(out: &mut Vec<u8>, value: u64)
    ensures
        final(out)@ == old(out)@ + le_bytes(value as nat, 8),
{
    push_le(out, value, 8);
}

} // verus!
