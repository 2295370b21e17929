//! The zip archive format: little-endian integer fields, locating the
//! end-of-central-directory record, walking the central directory, and
//! extracting one entry (stored or deflated).
use vstd::prelude::*;

use crate::strutil::{bytes_to_string, spec_bytes_text};

verus! {

pub open spec fn spec_u16_le(data: Seq<u8>, offset: int) -> int {
    data[offset] + 256 * data[offset + 1]
}

pub open spec fn spec_u32_le(data: Seq<u8>, offset: int) -> int {
    data[offset] + 256 * (data[offset + 1] + 256 * (data[offset + 2] + 256 * data[offset + 3]))
}

/// The 16-bit little-endian field at `offset`.
pub fn read_u16_le(data: &[u8], offset: usize) -> (r: u16)
    requires
        offset + 2 <= data@.len(),
    ensures
        r as int == spec_u16_le(data@, offset as int),
{
    (data[offset] as u16) + 256 * (data[offset + 1] as u16)
}

/// The 32-bit little-endian field at `offset`.
pub fn read_u32_le(data: &[u8], offset: usize) -> (r: u32)
    requires
        offset + 4 <= data@.len(),
    ensures
        r as int == spec_u32_le(data@, offset as int),
{
    (data[offset] as u32) + 256 * ((data[offset + 1] as u32) + 256 * ((data[offset + 2] as u32)
        + 256 * (data[offset + 3] as u32)))
}

pub open spec fn spec_u16_bytes(val: u16) -> Seq<u8> {
    seq![(val % 256) as u8, (val / 256) as u8]
}

pub open spec fn spec_u32_bytes(val: u32) -> Seq<u8> {
    seq![
        (val % 256) as u8,
        ((val / 256) % 256) as u8,
        ((val / 65536) % 256) as u8,
        (val / 16777216) as u8,
    ]
}

/// Appends the 16-bit value, least significant byte first.
pub fn write_u16_le(out: &mut Vec<u8>, val: u16)
    ensures
        final(out)@ == old(out)@ + spec_u16_bytes(val),
{
    out.push((val % 256) as u8);
    out.push((val / 256) as u8);
    proof {
        assert(out@ =~= old(out)@ + spec_u16_bytes(val));
    }
}

/// Appends the 32-bit value, least significant byte first.
pub fn write_u32_le(out: &mut Vec<u8>, val: u32)
    ensures
        final(out)@ == old(out)@ + spec_u32_bytes(val),
{
    out.push((val % 256) as u8);
    out.push(((val / 256) % 256) as u8);
    out.push(((val / 65536) % 256) as u8);
    out.push((val / 16777216) as u8);
    proof {
        assert(out@ =~= old(out)@ + spec_u32_bytes(val));
    }
}

/// The end-of-central-directory signature.
pub open spec fn spec_eocd_at(data: Seq<u8>, i: int) -> bool {
    spec_u32_le(data, i) == 0x06054b50
}

/// Where the backwards search for the record starts: the record plus maximal
/// comment reach at most 65557 bytes from the end.
pub open spec fn spec_eocd_search_start(len: int) -> int {
    if len > 65557 {
        len - 65557
    } else {
        0
    }
}

/// Finds the end-of-central-directory record: the last position in the search
/// window whose four bytes carry the signature.
pub fn find_eocd(data: &[u8]) -> (r: Option<usize>)
    ensures
        match r {
            Some(i) => i + 22 <= data@.len() && spec_eocd_search_start(data@.len() as int)
                <= i && spec_eocd_at(data@, i as int) && (forall|j: int|
                i < j <= data@.len() - 22 ==> !spec_eocd_at(data@, j)),
            None => data@.len() < 22 || (forall|j: int|
                spec_eocd_search_start(data@.len() as int) <= j <= data@.len() - 22
                    ==> !spec_eocd_at(data@, j)),
        },
{
    if data.len() < 22 {
        return None;
    }
    let start: usize = if data.len() > 65557 {
        data.len() - 65557
    } else {
        0
    };
    let mut i: usize = data.len() - 22;
    loop
        invariant
            start <= i <= data@.len() - 22,
            data@.len() >= 22,
            start == spec_eocd_search_start(data@.len() as int),
            forall|j: int| i < j <= data@.len() - 22 ==> !spec_eocd_at(data@, j),
        decreases i,
    {
        if read_u32_le(data, i) == 0x06054b50 {
            return Some(i);
        }
        if i == start {
            return None;
        }
        i -= 1;
    }
}

/// One central-directory entry, as the directory records it.
pub struct ZipEntry {
    pub name: String,
    pub method: u16,
    pub compressed_size: u32,
    pub uncompressed_size: u32,
    pub offset: u32,
}

/// The specification-level image of one entry.
pub struct ZipEntryModel {
    pub name: Seq<char>,
    pub method: int,
    pub compressed_size: int,
    pub uncompressed_size: int,
    pub offset: int,
}

pub open spec fn spec_entry_matches(e: ZipEntry, m: ZipEntryModel) -> bool {
    &&& e.name@ == m.name
    &&& e.method as int == m.method
    &&& e.compressed_size as int == m.compressed_size
    &&& e.uncompressed_size as int == m.uncompressed_size
    &&& e.offset as int == m.offset
}

/// The central directory read from `pos`, `n` entries long: each header must
/// carry the directory signature and lie inside the data, and each entry's
/// fields are the little-endian fields of its header.
pub open spec fn spec_cd_entries(data: Seq<u8>, pos: int, n: nat) -> Option<Seq<ZipEntryModel>>
    decreases n,
{
    if n == 0 {
        Some(Seq::empty())
    } else if pos + 46 > data.len() || spec_u32_le(data, pos) != 0x02014b50 || pos + 46
        + spec_u16_le(data, pos + 28) > data.len() {
        None
    } else {
        let name_len = spec_u16_le(data, pos + 28);
        let entry = ZipEntryModel {
            name: spec_bytes_text(data.subrange(pos + 46, pos + 46 + name_len)),
            method: spec_u16_le(data, pos + 10),
            compressed_size: spec_u32_le(data, pos + 20),
            uncompressed_size: spec_u32_le(data, pos + 24),
            offset: spec_u32_le(data, pos + 42),
        };
        let next = pos + 46 + name_len + spec_u16_le(data, pos + 30) + spec_u16_le(data, pos + 32);
        match spec_cd_entries(data, next, (n - 1) as nat) {
            Some(rest) => Some(seq![entry] + rest),
            None => None,
        }
    }
}

fn slice_chunk_to_string(data: &[u8], from: usize, to: usize) -> (r: String)
    requires
        from <= to <= data@.len(),
    ensures
        r@ == spec_bytes_text(data@.subrange(from as int, to as int)),
{
    let mut bytes: Vec<u8> = Vec::new();
    let mut i: usize = from;
    while i < to
        invariant
            from <= i <= to <= data@.len(),
            bytes@ == data@.subrange(from as int, i as int),
        decreases to - i,
    {
        bytes.push(data[i]);
        i += 1;
        proof {
            assert(bytes@ =~= data@.subrange(from as int, i as int));
        }
    }
    bytes_to_string(bytes.as_slice())
}

fn parse_cd_from(data: &[u8], pos: usize, n: usize) -> (r: Result<Vec<ZipEntry>, String>)
    ensures
        match r {
            Ok(entries) => spec_cd_entries(data@, pos as int, n as nat) matches Some(ms)
                && entries@.len() == ms.len() && (forall|k: int|
                0 <= k < ms.len() ==> spec_entry_matches(#[trigger] entries@[k], ms[k])),
            Err(e) => spec_cd_entries(data@, pos as int, n as nat) is None,
        },
    decreases n,
{
    if n == 0 {
        return Ok(Vec::new());
    }
    if data.len() < 46 || pos > data.len() - 46 {
        return Err("truncated central directory".to_owned());
    }
    let sig = read_u32_le(data, pos);
    if sig != 0x02014b50 {
        return Err("invalid central directory header".to_owned());
    }
    let method = read_u16_le(data, pos + 10);
    let compressed_size = read_u32_le(data, pos + 20);
    let uncompressed_size = read_u32_le(data, pos + 24);
    let name_len = read_u16_le(data, pos + 28) as usize;
    let extra_len = read_u16_le(data, pos + 30) as usize;
    let comment_len = read_u16_le(data, pos + 32) as usize;
    let local_offset = read_u32_le(data, pos + 42);
    if name_len > data.len() - (pos + 46) {
        return Err("truncated file name in central directory".to_owned());
    }
    let name = slice_chunk_to_string(data, pos + 46, pos + 46 + name_len);
    let entry = ZipEntry {
        name,
        method,
        compressed_size,
        uncompressed_size,
        offset: local_offset,
    };
    let ghost entry_model = ZipEntryModel {
        name: spec_bytes_text(data@.subrange(pos + 46, pos + 46 + name_len)),
        method: spec_u16_le(data@, pos + 10),
        compressed_size: spec_u32_le(data@, pos + 20),
        uncompressed_size: spec_u32_le(data@, pos + 24),
        offset: spec_u32_le(data@, pos + 42),
    };
    let room = data.len() - (pos + 46 + name_len);
    if extra_len + comment_len > room {
        // the next header would start past the end of the data
        if n > 1 {
            proof {
                let next_spec = pos + 46 + spec_u16_le(data@, pos + 28) + spec_u16_le(
                    data@,
                    pos + 30,
                ) + spec_u16_le(data@, pos + 32);
                assert(next_spec > data@.len());
                assert(spec_cd_entries(data@, next_spec, ((n - 1) as nat)) is None);
            }
            return Err("truncated central directory".to_owned());
        }
        let mut out: Vec<ZipEntry> = Vec::new();
        out.push(entry);
        proof {
            let next_spec = pos + 46 + spec_u16_le(data@, pos + 28) + spec_u16_le(data@, pos + 30)
                + spec_u16_le(data@, pos + 32);
            assert(spec_cd_entries(data@, next_spec, ((n - 1) as nat)) == Some(Seq::<
                ZipEntryModel,
            >::empty()));
            assert(spec_cd_entries(data@, pos as int, n as nat) == Some(seq![entry_model]
                + Seq::<ZipEntryModel>::empty()));
            assert(seq![entry_model] + Seq::<ZipEntryModel>::empty() =~= seq![entry_model]);
        }
        return Ok(out);
    }
    let next = pos + 46 + name_len + extra_len + comment_len;
    proof {
        assert(next as int == pos + 46 + spec_u16_le(data@, pos + 28) + spec_u16_le(
            data@,
            pos + 30,
        ) + spec_u16_le(data@, pos + 32));
    }
    match parse_cd_from(data, next, n - 1) {
        Ok(mut rest) => {
            let ghost rest0 = rest@;
            let mut out: Vec<ZipEntry> = Vec::new();
            out.push(entry);
            while rest.len() > 0
                invariant
                    out@.len() >= 1,
                    out@ + rest@ == seq![entry] + rest0,
                decreases rest@.len(),
            {
                let head = rest.remove(0);
                out.push(head);
                proof {
                    assert(out@ + rest@ =~= seq![entry] + rest0);
                }
            }
            proof {
                assert(out@ =~= out@ + rest@);
                let ms = spec_cd_entries(data@, pos as int, n as nat).unwrap();
                let ms_rest = spec_cd_entries(data@, next as int, (n - 1) as nat).unwrap();
                assert(ms == seq![entry_model] + ms_rest);
                assert forall|k: int| 0 <= k < ms.len() implies spec_entry_matches(
                    #[trigger] out@[k],
                    ms[k],
                ) by {
                    if k == 0 {
                        assert(out@[0] == entry);
                    } else {
                        assert(out@[k] == rest0[k - 1]);
                        assert(ms[k] == ms_rest[k - 1]);
                    }
                }
            }
            Ok(out)
        },
        Err(e) => Err(e),
    }
}

/// Whether position `i` carries a valid end-of-central-directory record for
/// this data: the signature stands there, inside the search window, and no
/// later position carries it.
pub open spec fn spec_is_eocd_pos(data: Seq<u8>, i: int) -> bool {
    &&& spec_eocd_search_start(data.len() as int) <= i
    &&& i + 22 <= data.len()
    &&& spec_eocd_at(data, i)
    &&& forall|j: int| i < j <= data.len() - 22 ==> !spec_eocd_at(data, j)
}

/// Reads the central directory of an archive: the entry count and directory
/// offset come from the end-of-central-directory record, and the entries are
/// exactly what `spec_cd_entries` reads there. Without such a record, or with
/// a damaged directory, the archive is rejected.
pub fn parse_central_directory(data: &[u8]) -> (r: Result<Vec<ZipEntry>, String>)
    ensures
        r matches Ok(entries) ==> exists|i: int|
            #[trigger] spec_is_eocd_pos(data@, i) && (spec_cd_entries(
                data@,
                spec_u32_le(data@, i + 16),
                spec_u16_le(data@, i + 10) as nat,
            ) matches Some(ms) && entries@.len() == ms.len() && (forall|k: int|
                0 <= k < ms.len() ==> spec_entry_matches(#[trigger] entries@[k], ms[k]))),
        r is Err ==> (forall|i: int| !spec_is_eocd_pos(data@, i)) || exists|i: int|
            #[trigger] spec_is_eocd_pos(data@, i) && (spec_cd_entries(
                data@,
                spec_u32_le(data@, i + 16),
                spec_u16_le(data@, i + 10) as nat,
            ) is None),
{
    let eocd_pos = match find_eocd(data) {
        Some(i) => i,
        None => {
            return Err("not a zip file: end of central directory not found".to_owned());
        },
    };
    let dlen = data.len();
    proof {
        assert(eocd_pos + 22 <= dlen);
    }
    let num_entries = read_u16_le(data, eocd_pos + 10) as usize;
    let cd_offset = read_u32_le(data, eocd_pos + 16) as usize;
    let result = parse_cd_from(data, cd_offset, num_entries);
    proof {
        assert(spec_is_eocd_pos(data@, eocd_pos as int));
        assert(cd_offset as int == spec_u32_le(data@, eocd_pos + 16));
        assert(num_entries as nat == spec_u16_le(data@, eocd_pos + 10) as nat);
    }
    result
}

/// What raw-deflate decompression yields for a compressed byte string; the
/// result depends on those bytes alone.
pub uninterp spec fn inflate_of(compressed: Seq<u8>) -> Seq<u8>;

/// Relies on flate2's `DeflateDecoder` over an in-memory slice: raw-deflate
/// decompression, a pure function of the compressed bytes.
#[verifier::external_body]
fn inflate(compressed: &[u8]) -> (r: Result<Vec<u8>, String>)
    ensures
        r matches Ok(v) ==> v@ == inflate_of(compressed@),
{
    let mut decoder = flate2::read::DeflateDecoder::new(compressed);
    let mut out: Vec<u8> = Vec::new();
    match std::io::Read::read_to_end(&mut decoder, &mut out) {
        Ok(n) => Ok(out),
        Err(e) => Err(format!("deflate error: {e}")),
    }
}

/// The byte range of an entry's stored data, when its local header is intact:
/// after the 30-byte header and its name and extra fields, for the entry's
/// compressed size.
pub open spec fn spec_local_data_range(data: Seq<u8>, entry: ZipEntry) -> Option<(int, int)> {
    let offset = entry.offset as int;
    if offset + 30 > data.len() || spec_u32_le(data, offset) != 0x04034b50 {
        None
    } else {
        let start = offset + 30 + spec_u16_le(data, offset + 26) + spec_u16_le(data, offset + 28);
        let end = start + entry.compressed_size;
        if end > data.len() {
            None
        } else {
            Some((start, end))
        }
    }
}

/// Extracts one entry: a stored entry is the raw byte range itself, a
/// deflated one is its decompression; any other method, or a damaged local
/// header, is rejected.
pub fn extract_entry(data: &[u8], entry: &ZipEntry) -> (r: Result<Vec<u8>, String>)
    ensures
        spec_local_data_range(data@, *entry) is None ==> r is Err,
        spec_local_data_range(data@, *entry) matches Some(range) ==> {
            &&& entry.method == 0 ==> (r matches Ok(v) && v@ == data@.subrange(range.0, range.1))
            &&& entry.method == 8 ==> (r matches Ok(v) ==> v@ == inflate_of(
                data@.subrange(range.0, range.1),
            ))
            &&& (entry.method != 0 && entry.method != 8) ==> r is Err
        },
{
    let offset = entry.offset as usize;
    if data.len() < 30 || offset > data.len() - 30 {
        return Err("truncated local file header".to_owned());
    }
    let sig = read_u32_le(data, offset);
    if sig != 0x04034b50 {
        return Err("invalid local file header".to_owned());
    }
    let name_len = read_u16_le(data, offset + 26) as usize;
    let extra_len = read_u16_le(data, offset + 28) as usize;
    if name_len + extra_len > data.len() - (offset + 30) {
        return Err("truncated file data".to_owned());
    }
    let data_start = offset + 30 + name_len + extra_len;
    if entry.compressed_size as usize > data.len() - data_start {
        return Err("truncated file data".to_owned());
    }
    let data_end = data_start + entry.compressed_size as usize;
    let mut compressed: Vec<u8> = Vec::new();
    let mut i: usize = data_start;
    while i < data_end
        invariant
            data_start <= i <= data_end <= data@.len(),
            compressed@ == data@.subrange(data_start as int, i as int),
        decreases data_end - i,
    {
        compressed.push(data[i]);
        i += 1;
        proof {
            assert(compressed@ =~= data@.subrange(data_start as int, i as int));
        }
    }
    if entry.method == 0 {
        Ok(compressed)
    } else if entry.method == 8 {
        inflate(compressed.as_slice())
    } else {
        Err("unsupported compression method".to_owned())
    }
}

} // verus!
