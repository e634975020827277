//! Little-endian integers: the number that a run of bytes stands for, read
//! as unsigned and as two's complement.
use vstd::prelude::*;

verus! {

/// 256 to the power `width`: one more than the largest value that `width`
/// bytes can hold.
pub open spec fn radix(width: nat) -> nat
    decreases width,
{
    if width == 0 {
        1
    } else {
        256 * radix((width - 1) as nat)
    }
}

/// The unsigned number whose little-endian encoding is `bytes`: the first
/// byte counts ones, the second 256s, and so on.
pub open spec fn le_value(bytes: Seq<u8>) -> nat
    decreases bytes.len(),
{
    if bytes.len() == 0 {
        0
    } else {
        bytes[0] as nat + 256 * le_value(bytes.drop_first())
    }
}

/// The number that `value` stands for when its `width` bytes are read as
/// two's complement: values in the upper half of the range are negative.
pub open spec fn signed_value(value: nat, width: nat) -> int {
    if 2 * value >= radix(width) {
        value - radix(width)
    } else {
        value as int
    }
}

/// The `width` low bytes of `value`, least significant byte first.
pub open spec fn le_bytes(value: nat, width: nat) -> Seq<u8>
    decreases width,
{
    if width == 0 {
        Seq::empty()
    } else {
        seq![(value % 256) as u8] + le_bytes(value / 256, (width - 1) as nat)
    }
}

/// `count` zero bytes.
pub open spec fn zeros(count: nat) -> Seq<u8> {
    Seq::new(count, |i: int| 0u8)
}

/// The widths of the fields this library decodes: one, two, four or eight
/// bytes.
pub open spec fn supported_width(width: nat) -> bool {
    width == 1 || width == 2 || width == 4 || width == 8
}

/// Two's complement: the signed reading of a number lies in the half below
/// and the half above zero of the range of its width, and differs from the
/// unsigned reading by nothing or by the whole range.
pub proof fn lemma_signed_value(value: nat, width: nat)
    requires
        width > 0,
        value < radix(width),
    ensures
        -(radix(width) / 2) <= signed_value(value, width) < radix(width) / 2,
        signed_value(value, width) >= 0 ==> signed_value(value, width) == value,
        signed_value(value, width) < 0 ==> signed_value(value, width) == value - radix(width),
        signed_value(value, width) < 0 <==> 2 * value >= radix(width),
{
    assert(radix(width) == 256 * radix((width - 1) as nat));
}

/// The values of `radix` for up to eight bytes.
pub proof fn lemma_radix_values()
    ensures
        radix(0) == 1,
        radix(1) == 0x100,
        radix(2) == 0x1_0000,
        radix(3) == 0x100_0000,
        radix(4) == 0x1_0000_0000,
        radix(5) == 0x100_0000_0000,
        radix(6) == 0x1_0000_0000_0000,
        radix(7) == 0x100_0000_0000_0000,
        radix(8) == 0x1_0000_0000_0000_0000,
{
    reveal_with_fuel(radix, 10);
}

/// Little-endian numbers of one, two, four and eight bytes, written out:
/// each byte counts 256 times what the byte before it counts.
pub proof fn lemma_le_value_written_out(b: Seq<u8>)
    requires
        supported_width(b.len()),
    ensures
        b.len() == 1 ==> le_value(b) == b[0],
        b.len() == 2 ==> le_value(b) == b[0] + 0x100 * b[1],
        b.len() == 4 ==> le_value(b) == b[0] + 0x100 * b[1] + 0x1_0000 * b[2] + 0x100_0000 * b[3],
        b.len() == 8 ==> le_value(b) == b[0] + 0x100 * b[1] + 0x1_0000 * b[2] + 0x100_0000 * b[3]
            + 0x1_0000_0000 * b[4] + 0x100_0000_0000 * b[5] + 0x1_0000_0000_0000 * b[6]
            + 0x100_0000_0000_0000 * b[7],
{
    lemma_le_value_from(b, 0);
    assert(b.skip(0) =~= b);
}

/// The number that the bytes of `b` from `from` on stand for, in terms of
/// the number that the bytes after them stand for.
proof fn lemma_le_value_from(b: Seq<u8>, from: int)
    requires
        0 <= from <= b.len(),
    ensures
        from == b.len() ==> le_value(b.skip(from)) == 0,
        from < b.len() ==> le_value(b.skip(from)) == b[from] + 256 * le_value(b.skip(from + 1)),
        from + 1 < b.len() ==> le_value(b.skip(from)) == b[from] + 0x100 * b[from + 1] + 0x1_0000
            * le_value(b.skip(from + 2)),
        from + 3 < b.len() ==> le_value(b.skip(from)) == b[from] + 0x100 * b[from + 1] + 0x1_0000
            * b[from + 2] + 0x100_0000 * b[from + 3] + 0x1_0000_0000 * le_value(b.skip(from + 4)),
        from + 8 == b.len() ==> le_value(b.skip(from)) == b[from] + 0x100 * b[from + 1] + 0x1_0000
            * b[from + 2] + 0x100_0000 * b[from + 3] + 0x1_0000_0000 * b[from + 4]
            + 0x100_0000_0000 * b[from + 5] + 0x1_0000_0000_0000 * b[from + 6]
            + 0x100_0000_0000_0000 * b[from + 7],
    decreases b.len() - from,
{
    if from < b.len() {
        assert(b.skip(from).drop_first() =~= b.skip(from + 1));
        lemma_le_value_from(b, from + 1);
        if from + 3 < b.len() {
            lemma_le_value_from(b, from + 2);
            lemma_le_value_from(b, from + 3);
            lemma_le_value_from(b, from + 4);
        }
    }
}

/// A run of bytes stands for a number below `radix` of its length.
pub proof fn lemma_le_value_bound(bytes: Seq<u8>)
    ensures
        le_value(bytes) < radix(bytes.len()),
    decreases bytes.len(),
{
    if bytes.len() > 0 {
        lemma_le_value_bound(bytes.drop_first());
    }
}

/// Writing out the number that `data` stands for gives `data` back, with
/// zero bytes after it where more bytes are asked for.
pub proof fn lemma_le_bytes_of_le_value(data: Seq<u8>, width: nat)
    requires
        data.len() <= width,
    ensures
        le_bytes(le_value(data), width) == data + zeros((width - data.len()) as nat),
    decreases width,
{
    if width == 0 {
        assert(le_bytes(le_value(data), width) =~= data + zeros(0));
    } else if data.len() == 0 {
        lemma_le_bytes_of_le_value(data, (width - 1) as nat);
        assert(le_bytes(0, width) =~= data + zeros(width));
    } else {
        let rest = data.drop_first();
        lemma_le_bytes_of_le_value(rest, (width - 1) as nat);
        let value = le_value(data);
        assert(value == data[0] as nat + 256 * le_value(rest));
        assert(value % 256 == data[0] as nat);
        assert(value / 256 == le_value(rest));
        assert(le_bytes(value, width) =~= data + zeros((width - data.len()) as nat));
    }
}

/// Reads up to eight bytes as an unsigned little-endian number.
pub fn le_u64(bytes: &[u8]) -> (value: u64)
    requires
        bytes@.len() <= 8,
    ensures
        value == le_value(bytes@),
{
    let mut value: u64 = 0;
    let mut at: usize = bytes.len();
    proof {
        lemma_radix_values();
        assert(bytes@.subrange(at as int, bytes@.len() as int) =~= Seq::<u8>::empty());
    }
    while at > 0
        invariant
            at <= bytes@.len() <= 8,
            value == le_value(bytes@.subrange(at as int, bytes@.len() as int)),
        decreases at,
    {
        let ghost tail = bytes@.subrange(at as int, bytes@.len() as int);
        let ghost longer = bytes@.subrange(at - 1, bytes@.len() as int);
        proof {
            lemma_radix_values();
            lemma_le_value_bound(tail);
            assert(longer.drop_first() =~= tail);
            assert(longer[0] == bytes@[at - 1]);
            assert(radix(tail.len()) <= radix(7)) by {
                reveal_with_fuel(radix, 10);
            }
        }
        at = at - 1;
        value = value * 256 + bytes[at] as u64;
    }
    assert(bytes@.subrange(0, bytes@.len() as int) =~= bytes@);
    value
}

/// Widens a `width`-byte two's complement number to 64 bits, keeping the
/// number it stands for.
pub fn sign_extend(value: u64, width: usize) -> (wide: u64)
    requires
        supported_width(width as nat),
        value < radix(width as nat),
    ensures
        signed_value(wide as nat, 8) == signed_value(value as nat, width as nat),
{
    proof {
        lemma_radix_values();
    }
    if width == 1 && value >= 0x80 {
        value + 0xffff_ffff_ffff_ff00
    } else if width == 2 && value >= 0x8000 {
        value + 0xffff_ffff_ffff_0000
    } else if width == 4 && value >= 0x8000_0000 {
        value + 0xffff_ffff_0000_0000
    } else {
        value
    }
}

} // verus!
