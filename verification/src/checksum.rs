//! CRC-32/IEEE (reflected polynomial 0xEDB88320).

use vstd::prelude::*;

verus! {

/// One bit of CRC-32 division.
pub open spec fn crc_bit(c: u32) -> u32 {
    if c & 1 != 0 {
        0xEDB8_8320u32 ^ (c >> 1)
    } else {
        c >> 1
    }
}

/// Eight bits of CRC-32 division.
pub open spec fn crc_byte(c: u32) -> u32 {
    crc_bit(crc_bit(crc_bit(crc_bit(crc_bit(crc_bit(crc_bit(crc_bit(c))))))))
}

/// The division register after `data`.
pub open spec fn crc_register(data: Seq<u8>) -> u32
    decreases data.len(),
{
    if data.len() == 0 {
        0xFFFF_FFFFu32
    } else {
        crc_byte(crc_register(data.drop_last()) ^ (data.last() as u32))
    }
}

/// CRC-32/IEEE of `data`.
pub open spec fn crc32(data: Seq<u8>) -> u32 {
    !crc_register(data)
}

/// `crc32fast::hash`: the CRC-32/IEEE checksum of the bytes.
#[verifier::external_body]
pub(crate) fn crc32_hash(data: &[u8]) -> (r: u32)
    ensures
        r == crc32(data@),
{
    crc32fast::hash(data)
}

/// Dividing the low byte alone and shifting the rest is the same as dividing
/// the whole register by eight bits.
proof fn lemma_low_byte(c: u32)
    ensures
        (c >> 8) ^ crc_byte(c & 0xFF) == crc_byte(c),
{
    assert((c >> 8) ^ crc_byte(c & 0xFF) == crc_byte(c)) by (bit_vector);
}

/// Bitwise CRC-32/IEEE, without tables.
pub fn crc32_bitwise(data: &[u8]) -> (r: u32)
    ensures
        r == crc32(data@),
{
    let mut crc: u32 = 0xFFFF_FFFF;
    let mut i: usize = 0;
    while i < data.len()
        invariant
            i <= data@.len(),
            crc == crc_register(data@.take(i as int)),
        decreases data@.len() - i,
    {
        let whole: u32 = crc ^ (data[i] as u32);
        let mut c: u32 = whole & 0xFF;
        let ghost low = c;
        let mut bit: u32 = 0;
        let ghost mut steps: Seq<u32> = seq![c];
        while bit < 8
            invariant
                bit <= 8,
                steps.len() == bit + 1,
                steps[0] == low,
                steps[bit as int] == c,
                forall|j: int| 0 < j <= bit ==> #[trigger] steps[j] == crc_bit(steps[j - 1]),
            decreases 8 - bit,
        {
            c = if c & 1 != 0 {
                0xEDB8_8320u32 ^ (c >> 1)
            } else {
                c >> 1
            };
            bit += 1;
            proof {
                steps = steps.push(c);
            }
        }
        proof {
            assert(steps[1] == crc_bit(steps[0]));
            assert(steps[2] == crc_bit(steps[1]));
            assert(steps[3] == crc_bit(steps[2]));
            assert(steps[4] == crc_bit(steps[3]));
            assert(steps[5] == crc_bit(steps[4]));
            assert(steps[6] == crc_bit(steps[5]));
            assert(steps[7] == crc_bit(steps[6]));
            assert(steps[8] == crc_bit(steps[7]));
            assert(c == crc_byte(low));
            lemma_low_byte(whole);
            let b: u8 = data@[i as int];
            let r: u32 = crc;
            assert(r >> 8 == (r ^ (b as u32)) >> 8) by (bit_vector);
            assert(data@.take(i + 1).drop_last() =~= data@.take(i as int));
            assert(data@.take(i + 1).last() == b);
        }
        crc = (crc >> 8) ^ c;
        i += 1;
    }
    proof {
        assert(data@.take(data@.len() as int) =~= data@);
    }
    !crc
}

/// A checksum behind the data that it was made of, least significant byte first,
/// checks: the checksum of both is the same for all data.
pub proof fn law_appended_checksum(data: Seq<u8>, tail: Seq<u8>)
    requires
        tail.len() == 4,
        tail[0] + 0x100 * tail[1] + 0x1_0000 * tail[2] + 0x100_0000 * tail[3] == crc32(data),
    ensures
        crc32(data + tail) == 0x2144_DF1C,
        crc32(Seq::<u8>::empty()) == 0,
{
    let r: u32 = crc_register(data);
    let a: u32 = tail[0] as u32;
    let b: u32 = tail[1] as u32;
    let c: u32 = tail[2] as u32;
    let d: u32 = tail[3] as u32;
    assert(a == (!r) & 0xFF && b == ((!r) >> 8) & 0xFF && c == ((!r) >> 16) & 0xFF && d == (!r)
        >> 24) by (bit_vector)
        requires
            a < 256,
            b < 256,
            c < 256,
            d < 256,
            a + 0x100 * b + 0x1_0000 * c + 0x100_0000 * d == !r,
    ;
    // Each step leaves the part of the register that the data decides one byte
    // shorter.
    let c1: u32 = crc_byte(r ^ a);
    lemma_low_byte(r ^ a);
    assert((r ^ a) & 0xFF == 0xFF && (r ^ a) >> 8 == r >> 8) by (bit_vector)
        requires
            a == (!r) & 0xFF,
    ;
    assert(crc_byte(0xFFu32) == 0x2D02EF8Du32) by (bit_vector);
    let c2: u32 = crc_byte(c1 ^ b);
    lemma_low_byte(c1 ^ b);
    assert((c1 ^ b) & 0xFF == 0x00000072u32 && (c1 ^ b) >> 8 == (r >> 16) ^ 0x002D02EFu32)
        by (bit_vector)
        requires
            c1 == (r >> 8) ^ 0x2D02EF8Du32,
            b == ((!r) >> 8) & 0xFF,
    ;
    assert(crc_byte(0x00000072u32) == 0xBE0B1010u32) by (bit_vector);
    let c3: u32 = crc_byte(c2 ^ c);
    lemma_low_byte(c2 ^ c);
    assert((c2 ^ c) & 0xFF == 0x00000000u32 && (c2 ^ c) >> 8 == (r >> 24) ^ 0x00BE2612u32)
        by (bit_vector)
        requires
            c2 == ((r >> 16) ^ 0x002D02EFu32) ^ 0xBE0B1010u32,
            c == ((!r) >> 16) & 0xFF,
    ;
    assert(crc_byte(0x00000000u32) == 0x00000000u32) by (bit_vector);
    lemma_low_byte(c3 ^ d);
    assert((c3 ^ d) & 0xFF == 0x000000EDu32 && (c3 ^ d) >> 8 == 0x0000BE26u32) by (bit_vector)
        requires
            c3 == ((r >> 24) ^ 0x00BE2612u32) ^ 0x00000000u32,
            d == (!r) >> 24,
    ;
    assert(crc_byte(0x000000EDu32) == 0xDEBB9EC5u32) by (bit_vector);
    assert(!(0x0000BE26u32 ^ 0xDEBB9EC5u32) == 0x2144_DF1Cu32 && !0xFFFF_FFFFu32 == 0u32) by (bit_vector);
    let s1 = data.push(tail[0]);
    let s2 = s1.push(tail[1]);
    let s3 = s2.push(tail[2]);
    let s4 = s3.push(tail[3]);
    assert(s1.drop_last() =~= data && s2.drop_last() =~= s1 && s3.drop_last() =~= s2
        && s4.drop_last() =~= s3);
    assert(data + tail =~= s4);
    assert(crc_register(s1) == c1);
    assert(crc_register(s2) == c2);
    assert(crc_register(s3) == c3);
}

} // verus!
