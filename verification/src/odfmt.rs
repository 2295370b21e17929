//! Formatting for octal dumps: addresses in a chosen radix, named control
//! characters, and printable representations of single bytes.
use vstd::prelude::*;
use vstd::string::StringExecFns;

use crate::strutil::{
    format_base, pad_left, spec_base_digits, spec_pad_left, string_of,
};

verus! {

pub enum AddressRadix {
    Octal,
    Decimal,
    Hex,
    Omitted,
}

/// An address column: seven digits of the chosen radix, zero-padded; no
/// column at all without a radix.
pub open spec fn spec_format_address(offset: nat, radix: AddressRadix) -> Seq<char> {
    match radix {
        AddressRadix::Octal => spec_pad_left(spec_base_digits(offset, 8), 7, '0'),
        AddressRadix::Decimal => spec_pad_left(spec_base_digits(offset, 10), 7, '0'),
        AddressRadix::Hex => spec_pad_left(spec_base_digits(offset, 16), 7, '0'),
        AddressRadix::Omitted => Seq::empty(),
    }
}

pub fn format_address(offset: usize, radix: &AddressRadix) -> (r: String)
    requires
        offset <= u64::MAX,
    ensures
        r@ == spec_format_address(offset as nat, *radix),
{
    match radix {
        AddressRadix::Octal => pad_left(format_base(offset as u64, 8).as_str(), 7, '0'),
        AddressRadix::Decimal => pad_left(format_base(offset as u64, 10).as_str(), 7, '0'),
        AddressRadix::Hex => pad_left(format_base(offset as u64, 16).as_str(), 7, '0'),
        AddressRadix::Omitted => String::new(),
    }
}

/// The three-column name of a control byte, or the character itself behind
/// two spaces.
pub open spec fn spec_named_char(b: u8) -> Seq<char> {
    if b == 0x00 {
        "nul"@
    } else if b == 0x01 {
        "soh"@
    } else if b == 0x02 {
        "stx"@
    } else if b == 0x03 {
        "etx"@
    } else if b == 0x04 {
        "eot"@
    } else if b == 0x05 {
        "enq"@
    } else if b == 0x06 {
        "ack"@
    } else if b == 0x07 {
        "bel"@
    } else if b == 0x08 {
        " bs"@
    } else if b == 0x09 {
        " ht"@
    } else if b == 0x0a {
        " nl"@
    } else if b == 0x0b {
        " vt"@
    } else if b == 0x0c {
        " ff"@
    } else if b == 0x0d {
        " cr"@
    } else if b == 0x0e {
        " so"@
    } else if b == 0x0f {
        " si"@
    } else if b == 0x10 {
        "dle"@
    } else if b == 0x11 {
        "dc1"@
    } else if b == 0x12 {
        "dc2"@
    } else if b == 0x13 {
        "dc3"@
    } else if b == 0x14 {
        "dc4"@
    } else if b == 0x15 {
        "nak"@
    } else if b == 0x16 {
        "syn"@
    } else if b == 0x17 {
        "etb"@
    } else if b == 0x18 {
        "can"@
    } else if b == 0x19 {
        " em"@
    } else if b == 0x1a {
        "sub"@
    } else if b == 0x1b {
        "esc"@
    } else if b == 0x1c {
        " fs"@
    } else if b == 0x1d {
        " gs"@
    } else if b == 0x1e {
        " rs"@
    } else if b == 0x1f {
        " us"@
    } else if b == 0x20 {
        " sp"@
    } else if b == 0x7f {
        "del"@
    } else {
        seq![' ', ' ', b as char]
    }
}

pub fn named_char(byte: u8) -> (r: String)
    ensures
        r@ == spec_named_char(byte),
{
    if byte == 0x00 {
        "nul".to_owned()
    } else if byte == 0x01 {
        "soh".to_owned()
    } else if byte == 0x02 {
        "stx".to_owned()
    } else if byte == 0x03 {
        "etx".to_owned()
    } else if byte == 0x04 {
        "eot".to_owned()
    } else if byte == 0x05 {
        "enq".to_owned()
    } else if byte == 0x06 {
        "ack".to_owned()
    } else if byte == 0x07 {
        "bel".to_owned()
    } else if byte == 0x08 {
        " bs".to_owned()
    } else if byte == 0x09 {
        " ht".to_owned()
    } else if byte == 0x0a {
        " nl".to_owned()
    } else if byte == 0x0b {
        " vt".to_owned()
    } else if byte == 0x0c {
        " ff".to_owned()
    } else if byte == 0x0d {
        " cr".to_owned()
    } else if byte == 0x0e {
        " so".to_owned()
    } else if byte == 0x0f {
        " si".to_owned()
    } else if byte == 0x10 {
        "dle".to_owned()
    } else if byte == 0x11 {
        "dc1".to_owned()
    } else if byte == 0x12 {
        "dc2".to_owned()
    } else if byte == 0x13 {
        "dc3".to_owned()
    } else if byte == 0x14 {
        "dc4".to_owned()
    } else if byte == 0x15 {
        "nak".to_owned()
    } else if byte == 0x16 {
        "syn".to_owned()
    } else if byte == 0x17 {
        "etb".to_owned()
    } else if byte == 0x18 {
        "can".to_owned()
    } else if byte == 0x19 {
        " em".to_owned()
    } else if byte == 0x1a {
        "sub".to_owned()
    } else if byte == 0x1b {
        "esc".to_owned()
    } else if byte == 0x1c {
        " fs".to_owned()
    } else if byte == 0x1d {
        " gs".to_owned()
    } else if byte == 0x1e {
        " rs".to_owned()
    } else if byte == 0x1f {
        " us".to_owned()
    } else if byte == 0x20 {
        " sp".to_owned()
    } else if byte == 0x7f {
        "del".to_owned()
    } else {
        let mut v: Vec<char> = Vec::new();
        v.push(' ');
        v.push(' ');
        v.push(byte as char);
        proof {
            assert(v@ =~= spec_named_char(byte));
        }
        string_of(&v)
    }
}

/// A printable byte as three spaces and itself, common escapes by name, and
/// anything else as its octal code padded to four columns.
pub open spec fn spec_char_repr(b: u8) -> Seq<char> {
    if b == 92 {
        " \\\\"@
    } else if b == 0 {
        " \\0"@
    } else if b == 10 {
        " \\n"@
    } else if b == 9 {
        " \\t"@
    } else if b == 13 {
        " \\r"@
    } else if 0x20 <= b <= 0x7e {
        seq![' ', ' ', ' ', b as char]
    } else {
        spec_pad_left(spec_base_digits(b as nat, 8), 4, ' ')
    }
}

pub fn char_repr(byte: u8) -> (r: String)
    ensures
        r@ == spec_char_repr(byte),
{
    if byte == 92 {
        " \\\\".to_owned()
    } else if byte == 0 {
        " \\0".to_owned()
    } else if byte == 10 {
        " \\n".to_owned()
    } else if byte == 9 {
        " \\t".to_owned()
    } else if byte == 13 {
        " \\r".to_owned()
    } else if 0x20 <= byte && byte <= 0x7e {
        let mut v: Vec<char> = Vec::new();
        v.push(' ');
        v.push(' ');
        v.push(' ');
        v.push(byte as char);
        proof {
            assert(v@ =~= spec_char_repr(byte));
        }
        string_of(&v)
    } else {
        pad_left(format_base(byte as u64, 8).as_str(), 4, ' ')
    }
}

} // verus!
