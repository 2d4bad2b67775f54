use vstd::prelude::*;

verus! {

/// The reflected IEEE CRC-32 polynomial.
pub const CRC32_POLY: u32 = 0xEDB8_8320;

/// One bit of the reflected CRC-32 shift register.
pub open spec fn crc_shift(c: u32) -> u32 {
    if c & 1 == 1 {
        (c >> 1) ^ CRC32_POLY
    } else {
        c >> 1
    }
}

/// `n` register shifts.
pub open spec fn crc_shift_n(c: u32, n: nat) -> u32
    decreases n,
{
    if n == 0 {
        c
    } else {
        crc_shift_n(crc_shift(c), (n - 1) as nat)
    }
}

/// Feed one byte into the register.
pub open spec fn crc_feed_byte(c: u32, b: u8) -> u32 {
    crc_shift_n(c ^ (b as u32), 8)
}

/// Feed a whole byte sequence into the register, first byte first.
pub open spec fn crc_feed(c: u32, data: Seq<u8>) -> u32
    decreases data.len(),
{
    if data.len() == 0 {
        c
    } else {
        crc_feed_byte(crc_feed(c, data.drop_last()), data.last())
    }
}

/// The IEEE CRC-32 (polynomial `0xEDB88320`, initial value and final
/// complement all-ones) of a byte sequence.
pub open spec fn spec_crc32(data: Seq<u8>) -> u32 {
    !crc_feed(0xFFFF_FFFF, data)
}

/// Compute the IEEE CRC-32 of `data` with a bitwise, table-free loop.
pub fn crc32(data: &[u8]) -> (res: u32)
    ensures
        res == spec_crc32(data@),
{
    let mut crc: u32 = 0xFFFF_FFFF;
    let mut i: usize = 0;
    while i < data.len()
        invariant
            i <= data@.len(),
            crc == crc_feed(0xFFFF_FFFF, data@.take(i as int)),
        decreases data@.len() - i,
    {
        let byte = data[i];
        crc = crc ^ (byte as u32);
        let ghost start = crc;
        let mut k: u32 = 0;
        while k < 8
            invariant
                k <= 8,
                crc_shift_n(start, 8) == crc_shift_n(crc, (8 - k) as nat),
            decreases 8 - k,
        {
            let mask = 0u32.wrapping_sub(crc & 1);
            let next = (crc >> 1) ^ (CRC32_POLY & mask);
            assert(next == crc_shift(crc)) by (bit_vector)
                requires
                    mask == (0u32.wrapping_sub(crc & 1)),
                    next == (crc >> 1) ^ (0xEDB8_8320u32 & mask),
            ;
            crc = next;
            k = k + 1;
        }
        assert(data@.take(i + 1).drop_last() =~= data@.take(i as int));
        i = i + 1;
    }
    assert(data@.take(data@.len() as int) =~= data@);
    !crc
}

} // verus!
