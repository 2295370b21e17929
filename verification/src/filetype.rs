//! Guessing a file's kind from its bytes: magic numbers first, then text
//! heuristics over a bounded prefix.
use vstd::prelude::*;
use vstd::string::StringExecFns;

verus! {

/// The bytes `pat` standing at position `at`.
pub open spec fn spec_bytes_at(data: Seq<u8>, at: int, pat: Seq<u8>) -> bool {
    at >= 0 && at + pat.len() <= data.len() && data.subrange(at, at + pat.len()) == pat
}

pub open spec fn spec_starts_bytes(data: Seq<u8>, pat: Seq<u8>) -> bool {
    spec_bytes_at(data, 0, pat)
}

fn bytes_at(data: &[u8], at: usize, pat: &[u8]) -> (r: bool)
    ensures
        r == spec_bytes_at(data@, at as int, pat@),
{
    if data.len() < pat.len() || at > data.len() - pat.len() {
        return false;
    }
    let mut i: usize = 0;
    while i < pat.len()
        invariant
            at + pat@.len() <= data@.len(),
            data@.len() <= usize::MAX,
            0 <= i <= pat@.len(),
            forall|j: int| 0 <= j < i ==> data@[at + j] == pat@[j],
        decreases pat@.len() - i,
    {
        if data[at + i] != pat[i] {
            return false;
        }
        i += 1;
    }
    proof {
        assert(data@.subrange(at as int, at + pat@.len()) =~= pat@);
    }
    true
}

fn starts_with_bytes(data: &[u8], pat: &[u8]) -> (r: bool)
    ensures
        r == spec_starts_bytes(data@, pat@),
{
    bytes_at(data, 0, pat)
}

/// The first position at or after `i` where the needle stands.
pub open spec fn spec_find_bytes(hay: Seq<u8>, needle: Seq<u8>, i: int) -> Option<int>
    decreases hay.len() + 1 - i,
{
    if i < 0 || i + needle.len() > hay.len() {
        None
    } else if hay.subrange(i, i + needle.len()) == needle {
        Some(i)
    } else {
        spec_find_bytes(hay, needle, i + 1)
    }
}

pub open spec fn spec_contains_bytes(hay: Seq<u8>, needle: Seq<u8>) -> bool {
    spec_find_bytes(hay, needle, 0) is Some
}

fn contains_bytes(hay: &[u8], needle: &[u8]) -> (r: bool)
    ensures
        r == spec_contains_bytes(hay@, needle@),
{
    if needle.len() == 0 {
        proof {
            assert(hay@.subrange(0, 0) =~= needle@);
        }
        return true;
    }
    let mut i: usize = 0;
    loop
        invariant
            0 <= i <= hay@.len(),
            needle@.len() >= 1,
            spec_find_bytes(hay@, needle@, 0) == spec_find_bytes(hay@, needle@, i as int),
        decreases hay@.len() - i,
    {
        if hay.len() < needle.len() || i > hay.len() - needle.len() {
            return false;
        }
        if bytes_at(hay, i, needle) {
            return true;
        }
        i += 1;
    }
}

pub open spec fn spec_lower_byte(b: u8) -> u8 {
    if 65 <= b <= 90 {
        (b + 32) as u8
    } else {
        b
    }
}

fn lower_bytes(data: &[u8]) -> (r: Vec<u8>)
    ensures
        r@ == data@.map_values(|b: u8| spec_lower_byte(b)),
{
    let mut out: Vec<u8> = Vec::new();
    let mut i: usize = 0;
    while i < data.len()
        invariant
            0 <= i <= data@.len(),
            out@ == data@.subrange(0, i as int).map_values(|b: u8| spec_lower_byte(b)),
        decreases data@.len() - i,
    {
        let b = data[i];
        if 65 <= b && b <= 90 {
            out.push(b + 32);
        } else {
            out.push(b);
        }
        i += 1;
        proof {
            assert(out@ =~= data@.subrange(0, i as int).map_values(|b: u8| spec_lower_byte(b)));
        }
    }
    proof {
        assert(data@.subrange(0, data@.len() as int) =~= data@);
    }
    out
}

/// A byte that plain text may hold: a visible character or whitespace.
pub open spec fn spec_text_byte(b: u8) -> bool {
    (0x21 <= b <= 0x7e) || b == 0x20 || b == 0x09 || b == 0x0a || b == 0x0c || b == 0x0d
}

pub open spec fn spec_all_text(data: Seq<u8>) -> bool {
    forall|j: int| 0 <= j < data.len() ==> spec_text_byte(#[trigger] data[j])
}

fn all_text(data: &[u8]) -> (r: bool)
    ensures
        r == spec_all_text(data@),
{
    let mut i: usize = 0;
    while i < data.len()
        invariant
            0 <= i <= data@.len(),
            forall|j: int| 0 <= j < i ==> spec_text_byte(#[trigger] data@[j]),
        decreases data@.len() - i,
    {
        let b = data[i];
        let ok = (0x21 <= b && b <= 0x7e) || b == 0x20 || b == 0x09 || b == 0x0a || b == 0x0c
            || b == 0x0d;
        if !ok {
            return false;
        }
        i += 1;
    }
    true
}

pub open spec fn spec_ws_byte(b: u8) -> bool {
    b == 0x20 || b == 0x09 || b == 0x0a || b == 0x0c || b == 0x0d
}

/// The first position at or after `i` holding a non-whitespace byte.
pub open spec fn spec_skip_ws(data: Seq<u8>, i: int) -> int
    decreases data.len() - i,
{
    if i < 0 || i >= data.len() {
        data.len() as int
    } else if spec_ws_byte(data[i]) {
        spec_skip_ws(data, i + 1)
    } else {
        i
    }
}

fn skip_ws(data: &[u8]) -> (r: usize)
    ensures
        r as int == spec_skip_ws(data@, 0),
        r <= data@.len(),
{
    let mut i: usize = 0;
    loop
        invariant
            0 <= i <= data@.len(),
            spec_skip_ws(data@, 0) == spec_skip_ws(data@, i as int),
        decreases data@.len() - i,
    {
        if i >= data.len() {
            return i;
        }
        let b = data[i];
        if !(b == 0x20 || b == 0x09 || b == 0x0a || b == 0x0c || b == 0x0d) {
            return i;
        }
        i += 1;
    }
}

/// Whether the bytes are well-formed UTF-8; a function of the bytes alone.
pub uninterp spec fn spec_is_utf8(data: Seq<u8>) -> bool;

/// Relies on std's `str::from_utf8`: it accepts exactly the well-formed
/// UTF-8 byte strings.
#[verifier::external_body]
fn is_utf8(data: &[u8]) -> (r: bool)
    ensures
        r == spec_is_utf8(data@),
{
    std::str::from_utf8(data).is_ok()
}

/// What the classifier reports for these bytes: known magic numbers first,
/// then markup, script and text heuristics over the first 512 bytes.
pub open spec fn spec_detect_type(data: Seq<u8>) -> Seq<char> {
    let check_len: int = if data.len() > 512 {
        512
    } else {
        data.len() as int
    };
    let prefix = data.subrange(0, check_len);
    if data.len() == 0 {
        "empty"@
    } else if spec_starts_bytes(data, seq![0x89u8, 0x50, 0x4e, 0x47, 0x0d, 0x0a, 0x1a, 0x0a]) {
        "PNG image data"@
    } else if data.len() >= 3 && spec_starts_bytes(data, seq![0xffu8, 0xd8]) {
        "JPEG image data"@
    } else if spec_starts_bytes(data, seq![71u8, 73, 70, 56, 55, 97]) || spec_starts_bytes(
        data,
        seq![71u8, 73, 70, 56, 57, 97],
    ) {
        "GIF image data"@
    } else if spec_starts_bytes(data, seq![37u8, 80, 68, 70, 45]) {
        "PDF document"@
    } else if spec_starts_bytes(data, seq![0x1fu8, 0x8b]) {
        "gzip compressed data"@
    } else if spec_starts_bytes(data, seq![117u8, 115, 116, 97, 114]) || (data.len() >= 265
        && spec_bytes_at(data, 257, seq![117u8, 115, 116, 97, 114])) {
        "POSIX tar archive"@
    } else if spec_starts_bytes(data, seq![0x50u8, 0x4b, 0x03, 0x04]) {
        "Zip archive data"@
    } else if spec_starts_bytes(data, seq![0x7fu8, 0x45, 0x4c, 0x46]) {
        "ELF"@
    } else if spec_starts_bytes(data, seq![0x00u8, 0x61, 0x73, 0x6d]) {
        "WebAssembly (wasm) binary module"@
    } else if spec_starts_bytes(
        data,
        seq![83u8, 81, 76, 105, 116, 101, 32, 102, 111, 114, 109, 97, 116, 32, 51, 0],
    ) {
        "SQLite 3.x database"@
    } else if spec_starts_bytes(prefix, seq![60u8, 63, 120, 109, 108]) || spec_starts_bytes(
        prefix,
        seq![60u8, 0xef, 0xbb, 0xbf, 60, 63, 120, 109, 108],
    ) {
        "XML document"@
    } else if spec_contains_bytes(
        prefix.map_values(|b: u8| spec_lower_byte(b)),
        seq![60u8, 33, 100, 111, 99, 116, 121, 112, 101, 32, 104, 116, 109, 108],
    ) || spec_contains_bytes(
        prefix.map_values(|b: u8| spec_lower_byte(b)),
        seq![60u8, 104, 116, 109, 108],
    ) {
        "HTML document"@
    } else if spec_starts_bytes(data, seq![35u8, 33]) {
        let line_end: int = match spec_find_bytes(data, seq![10u8], 0) {
            Some(p) => p,
            None => check_len,
        };
        let first_line = data.subrange(0, line_end);
        if spec_contains_bytes(first_line, seq![112u8, 121, 116, 104, 111, 110]) {
            "Python script, ASCII text executable"@
        } else if spec_contains_bytes(first_line, seq![110u8, 111, 100, 101])
            || spec_contains_bytes(first_line, seq![100u8, 101, 110, 111]) || spec_contains_bytes(
            first_line,
            seq![98u8, 117, 110],
        ) {
            "JavaScript text executable"@
        } else {
            "POSIX shell script, ASCII text executable"@
        }
    } else {
        let j = spec_skip_ws(prefix, 0);
        if j < prefix.len() && (prefix[j] == 123 || prefix[j] == 91) && spec_all_text(prefix) {
            "JSON text data"@
        } else if spec_all_text(data) {
            "ASCII text"@
        } else if spec_is_utf8(data) {
            "UTF-8 Unicode text"@
        } else {
            "data"@
        }
    }
}

/// Classifies the bytes of a file.
pub fn detect_type(data: &[u8]) -> (r: String)
    ensures
        r@ == spec_detect_type(data@),
{
    let check_len: usize = if data.len() > 512 {
        512
    } else {
        data.len()
    };
    let prefix = vstd::slice::slice_subrange(data, 0, check_len);
    proof {
        assert(prefix@ =~= data@.subrange(0, check_len as int));
    }
    if data.len() == 0 {
        return "empty".to_owned();
    }
    if starts_with_bytes(data, &[0x89, 0x50, 0x4e, 0x47, 0x0d, 0x0a, 0x1a, 0x0a]) {
        return "PNG image data".to_owned();
    }
    if data.len() >= 3 && starts_with_bytes(data, &[0xff, 0xd8]) {
        return "JPEG image data".to_owned();
    }
    if starts_with_bytes(data, &[71, 73, 70, 56, 55, 97]) || starts_with_bytes(
        data,
        &[71, 73, 70, 56, 57, 97],
    ) {
        return "GIF image data".to_owned();
    }
    if starts_with_bytes(data, &[37, 80, 68, 70, 45]) {
        return "PDF document".to_owned();
    }
    if starts_with_bytes(data, &[0x1f, 0x8b]) {
        return "gzip compressed data".to_owned();
    }
    if starts_with_bytes(data, &[117, 115, 116, 97, 114]) || (data.len() >= 265 && bytes_at(
        data,
        257,
        &[117, 115, 116, 97, 114],
    )) {
        return "POSIX tar archive".to_owned();
    }
    if starts_with_bytes(data, &[0x50, 0x4b, 0x03, 0x04]) {
        return "Zip archive data".to_owned();
    }
    if starts_with_bytes(data, &[0x7f, 0x45, 0x4c, 0x46]) {
        return "ELF".to_owned();
    }
    if starts_with_bytes(data, &[0x00, 0x61, 0x73, 0x6d]) {
        return "WebAssembly (wasm) binary module".to_owned();
    }
    if starts_with_bytes(
        data,
        &[83, 81, 76, 105, 116, 101, 32, 102, 111, 114, 109, 97, 116, 32, 51, 0],
    ) {
        return "SQLite 3.x database".to_owned();
    }
    if starts_with_bytes(prefix, &[60, 63, 120, 109, 108]) || starts_with_bytes(
        prefix,
        &[60, 0xef, 0xbb, 0xbf, 60, 63, 120, 109, 108],
    ) {
        return "XML document".to_owned();
    }
    let lower = lower_bytes(prefix);
    if contains_bytes(
        lower.as_slice(),
        &[60, 33, 100, 111, 99, 116, 121, 112, 101, 32, 104, 116, 109, 108],
    ) || contains_bytes(lower.as_slice(), &[60, 104, 116, 109, 108]) {
        return "HTML document".to_owned();
    }
    if starts_with_bytes(data, &[35, 33]) {
        let nl: &[u8] = &[10];
        proof {
            assert(nl@ =~= seq![10u8]);
        }
        let line_end: usize = match find_bytes_pos(data, nl) {
            Some(p) => p,
            None => check_len,
        };
        proof {
            assert(line_end as int == (match spec_find_bytes(data@, seq![10u8], 0) {
                Some(p) => p,
                None => (if data@.len() > 512 {
                    512int
                } else {
                    data@.len() as int
                }),
            }));
        }
        let first_line = vstd::slice::slice_subrange(data, 0, line_end);
        proof {
            assert(first_line@ =~= data@.subrange(0, line_end as int));
        }
        let py: &[u8] = &[112, 121, 116, 104, 111, 110];
        let nd: &[u8] = &[110, 111, 100, 101];
        let dn: &[u8] = &[100, 101, 110, 111];
        let bn: &[u8] = &[98, 117, 110];
        proof {
            assert(py@ =~= seq![112u8, 121, 116, 104, 111, 110]);
            assert(nd@ =~= seq![110u8, 111, 100, 101]);
            assert(dn@ =~= seq![100u8, 101, 110, 111]);
            assert(bn@ =~= seq![98u8, 117, 110]);
        }
        if contains_bytes(first_line, py) {
            return "Python script, ASCII text executable".to_owned();
        }
        if contains_bytes(first_line, nd) || contains_bytes(first_line, dn) || contains_bytes(
            first_line,
            bn,
        ) {
            return "JavaScript text executable".to_owned();
        }
        return "POSIX shell script, ASCII text executable".to_owned();
    }
    let j = skip_ws(prefix);
    if j < prefix.len() && (prefix[j] == 123 || prefix[j] == 91) && all_text(prefix) {
        return "JSON text data".to_owned();
    }
    if all_text(data) {
        return "ASCII text".to_owned();
    }
    if is_utf8(data) {
        return "UTF-8 Unicode text".to_owned();
    }
    "data".to_owned()
}

fn find_bytes_pos(hay: &[u8], needle: &[u8]) -> (r: Option<usize>)
    ensures
        match r {
            Some(i) => spec_find_bytes(hay@, needle@, 0) == Some(i as int) && i as int
                <= hay@.len(),
            None => spec_find_bytes(hay@, needle@, 0) is None,
        },
{
    if needle.len() == 0 {
        proof {
            assert(hay@.subrange(0, 0) =~= needle@);
        }
        return Some(0);
    }
    let mut i: usize = 0;
    loop
        invariant
            0 <= i <= hay@.len(),
            needle@.len() >= 1,
            spec_find_bytes(hay@, needle@, 0) == spec_find_bytes(hay@, needle@, i as int),
        decreases hay@.len() - i,
    {
        if hay.len() < needle.len() || i > hay.len() - needle.len() {
            return None;
        }
        if bytes_at(hay, i, needle) {
            return Some(i);
        }
        i += 1;
    }
}

} // verus!
