//! The POSIX checksum: a table-driven cyclic redundancy check over the data
//! followed by the byte count, and the plain reflected check used by archive
//! writers.
use vstd::prelude::*;

verus! {

/// One shift-and-conditionally-xor round of the reflected polynomial.
pub open spec fn spec_crc_round(crc: u32) -> u32 {
    if crc & 1 != 0 {
        (crc >> 1) ^ 0xEDB88320u32
    } else {
        crc >> 1
    }
}

pub open spec fn spec_crc_rounds(crc: u32, n: nat) -> u32
    decreases n,
{
    if n == 0 {
        crc
    } else {
        spec_crc_round(spec_crc_rounds(crc, (n - 1) as nat))
    }
}

/// One data byte folded into the running check, by direct bit rounds.
pub open spec fn spec_crc32_update(crc: u32, b: u8) -> u32 {
    spec_crc_rounds(crc ^ (b as u32), 8)
}

pub open spec fn spec_crc32_fold(crc: u32, data: Seq<u8>) -> u32
    decreases data.len(),
{
    if data.len() == 0 {
        crc
    } else {
        spec_crc32_fold(spec_crc32_update(crc, data[0]), data.drop_first())
    }
}

/// The reflected 32-bit check of a byte string.
pub open spec fn spec_crc32(data: Seq<u8>) -> u32 {
    !spec_crc32_fold(0xFFFFFFFFu32, data)
}

/// The table entry for index `i`: eight rounds applied to it.
pub open spec fn spec_crc_table_entry(i: u32) -> u32 {
    spec_crc_rounds(i, 8)
}

/// The 256-entry lookup table for the reflected polynomial.
pub fn make_crc_table() -> (r: Vec<u32>)
    ensures
        r@.len() == 256,
        forall|i: int| 0 <= i < 256 ==> r@[i] == spec_crc_table_entry(i as u32),
{
    let mut table: Vec<u32> = Vec::new();
    let mut i: u32 = 0;
    while i < 256
        invariant
            0 <= i <= 256,
            table@.len() == i,
            forall|k: int| 0 <= k < i ==> table@[k] == spec_crc_table_entry(k as u32),
        decreases 256 - i,
    {
        let mut crc: u32 = i;
        let mut j: u32 = 0;
        while j < 8
            invariant
                0 <= j <= 8,
                crc == spec_crc_rounds(i, j as nat),
            decreases 8 - j,
        {
            if crc & 1 != 0 {
                crc = (crc >> 1) ^ 0xEDB88320;
            } else {
                crc = crc >> 1;
            }
            j += 1;
        }
        table.push(crc);
        i += 1;
    }
    table
}

/// The reflected 32-bit check, computed bit by bit.
pub fn crc32(data: &[u8]) -> (r: u32)
    ensures
        r == spec_crc32(data@),
{
    let ghost whole = data@;
    let mut crc: u32 = 0xFFFFFFFF;
    let mut i: usize = 0;
    proof {
        assert(whole.subrange(0, whole.len() as int) =~= whole);
    }
    while i < data.len()
        invariant
            0 <= i <= whole.len(),
            whole == data@,
            spec_crc32_fold(crc, whole.subrange(i as int, whole.len() as int)) == spec_crc32_fold(
                0xFFFFFFFFu32,
                whole,
            ),
        decreases whole.len() - i,
    {
        proof {
            assert(whole.subrange(i as int, whole.len() as int).drop_first() =~= whole.subrange(
                i + 1,
                whole.len() as int,
            ));
        }
        crc = crc ^ (data[i] as u32);
        let mut j: u32 = 0;
        let ghost entry = crc;
        while j < 8
            invariant
                0 <= j <= 8,
                crc == spec_crc_rounds(entry, j as nat),
            decreases 8 - j,
        {
            if crc & 1 != 0 {
                crc = (crc >> 1) ^ 0xEDB88320;
            } else {
                crc = crc >> 1;
            }
            j += 1;
        }
        i += 1;
    }
    proof {
        assert(whole.subrange(whole.len() as int, whole.len() as int) =~= Seq::<u8>::empty());
    }
    !crc
}

/// One byte folded into the running check through the lookup table, as the
/// POSIX checksum does it.
pub open spec fn spec_cksum_update(crc: u32, b: u8) -> u32 {
    spec_crc_table_entry((crc ^ (b as u32)) & 0xFF) ^ (crc >> 8)
}

pub open spec fn spec_cksum_fold(crc: u32, data: Seq<u8>) -> u32
    decreases data.len(),
{
    if data.len() == 0 {
        crc
    } else {
        spec_cksum_fold(spec_cksum_update(crc, data[0]), data.drop_first())
    }
}

/// The byte count folded in after the data: its octets, least significant
/// first, until none is left.
pub open spec fn spec_cksum_len_fold(crc: u32, len: nat) -> u32
    decreases len,
{
    if len == 0 {
        crc
    } else {
        spec_cksum_len_fold(spec_cksum_update(crc, (len % 256) as u8), len / 256)
    }
}

/// The POSIX checksum of a byte string: the data, then its length, folded
/// into an all-ones register through the table, then inverted.
pub open spec fn spec_posix_cksum(data: Seq<u8>) -> u32 {
    !spec_cksum_len_fold(spec_cksum_fold(0xFFFFFFFFu32, data), data.len())
}

/// Computes the POSIX checksum of the data.
pub fn posix_cksum(data: &[u8]) -> (r: u32)
    ensures
        r == spec_posix_cksum(data@),
{
    let table = make_crc_table();
    let ghost whole = data@;
    let mut crc: u32 = 0xFFFFFFFF;
    let mut i: usize = 0;
    proof {
        assert(whole.subrange(0, whole.len() as int) =~= whole);
    }
    while i < data.len()
        invariant
            0 <= i <= whole.len(),
            whole == data@,
            table@.len() == 256,
            forall|k: int| 0 <= k < 256 ==> table@[k] == spec_crc_table_entry(k as u32),
            spec_cksum_fold(crc, whole.subrange(i as int, whole.len() as int)) == spec_cksum_fold(
                0xFFFFFFFFu32,
                whole,
            ),
        decreases whole.len() - i,
    {
        proof {
            assert(whole.subrange(i as int, whole.len() as int).drop_first() =~= whole.subrange(
                i + 1,
                whole.len() as int,
            ));
        }
        let b = data[i];
        let x = crc ^ (b as u32);
        proof {
            assert(x & 0xFF < 256) by (bit_vector);
        }
        let idx = (x & 0xFF) as usize;
        crc = table[idx] ^ (crc >> 8);
        i += 1;
    }
    proof {
        assert(whole.subrange(whole.len() as int, whole.len() as int) =~= Seq::<u8>::empty());
    }
    // fold in the byte count, least-significant octet first
    let mut len = data.len();
    let ghost data_crc = crc;
    while len > 0
        invariant
            table@.len() == 256,
            forall|k: int| 0 <= k < 256 ==> table@[k] == spec_crc_table_entry(k as u32),
            spec_cksum_len_fold(crc, len as nat) == spec_cksum_len_fold(
                data_crc,
                whole.len(),
            ),
        decreases len,
    {
        let byte = (len % 256) as u8;
        let x = crc ^ (byte as u32);
        proof {
            assert(x & 0xFF < 256) by (bit_vector);
        }
        let idx = (x & 0xFF) as usize;
        crc = table[idx] ^ (crc >> 8);
        len = len / 256;
    }
    !crc
}

} // verus!
