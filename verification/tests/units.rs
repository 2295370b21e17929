use shell_exec::cksum::{crc32, make_crc_table, posix_cksum};
use shell_exec::columns::{format_columns, format_table};
use shell_exec::filetype::detect_type;
use shell_exec::difftext::{CompareOptions, format_range, lines_equal, normalize_whitespace};
use shell_exec::globmatch::{WalkFilters, glob_match, should_print};
use shell_exec::hunks::{Hunk, HunkLine, apply_hunks};
use shell_exec::joinfields::{get_field, get_other_fields};
use shell_exec::lsfmt::{format_size, format_time, is_leap};
use shell_exec::odfmt::{AddressRadix, char_repr, format_address, named_char};
use shell_exec::patchtext::{parse_hunk_header, strip_path};
use shell_exec::sedtext::{find_unescaped_delim, unescape_replacement};
use shell_exec::sizes::{SizeSpec, parse_size};
use shell_exec::splitname::suffix_for;
use shell_exec::textmatch::{char_matches, match_at, matches_line, regex_match};
use shell_exec::trset::expand_set;
use shell_exec::unexpandtext::{unexpand_all, unexpand_leading};

#[test]
fn crc32_known_values() {
    assert_eq!(crc32(b""), 0);
    assert_eq!(crc32(b"123456789"), 0xCBF43926);
}

#[test]
fn crc_table_known_entries() {
    let table = make_crc_table();
    assert_eq!(table.len(), 256);
    assert_eq!(table[0], 0);
    assert_eq!(table[1], 0x77073096);
    assert_eq!(table[255], 0x2D02EF8D);
}

#[test]
fn posix_cksum_empty_input() {
    assert_eq!(posix_cksum(b""), 0);
}

#[test]
fn posix_cksum_counts_data_and_length() {
    // the checksum covers the length, so equal data of different lengths
    // and different data of equal length both change it
    assert_ne!(posix_cksum(b"a"), posix_cksum(b"aa"));
    assert_ne!(posix_cksum(b"a"), posix_cksum(b"b"));
}

#[test]
fn glob_star_and_question() {
    assert!(glob_match("*.txt", "file.txt"));
    assert!(!glob_match("*.txt", "file.rs"));
    assert!(glob_match("a?c", "abc"));
    assert!(!glob_match("a?c", "ac"));
    assert!(glob_match("*", ""));
    assert!(glob_match("a*b*c", "axxbyyc"));
}

#[test]
fn should_print_filters() {
    let f = WalkFilters { name_pattern: Some("*.rs".into()), file_type: Some('f') };
    assert!(should_print(true, false, Some("main.rs"), &f));
    assert!(!should_print(false, true, Some("main.rs"), &f));
    assert!(!should_print(true, false, Some("main.txt"), &f));
    assert!(!should_print(true, false, None, &f));
    let none = WalkFilters { name_pattern: None, file_type: None };
    assert!(should_print(false, false, None, &none));
}

#[test]
fn simple_pattern_matching() {
    assert!(char_matches('.', 'x'));
    assert!(char_matches('x', 'x'));
    assert!(!char_matches('x', 'y'));
    assert!(regex_match("b.g", "a big cat"));
    assert!(regex_match("^ab", "abc"));
    assert!(!regex_match("^bc", "abc"));
    assert!(regex_match("bc$", "abc"));
    assert!(!regex_match("ab$", "abc"));
    assert!(regex_match("ab*c", "ac"));
    assert!(regex_match("ab*c", "abbbc"));
    assert!(!regex_match("^ab*c$", "abd"));
    assert!(matches_line("", "anything"));
    let pat: Vec<char> = vec!['a', 'b'];
    let text: Vec<char> = vec!['x', 'a', 'b'];
    assert!(match_at(&pat, &text, 1, false));
    assert!(!match_at(&pat, &text, 0, false));
}

#[test]
fn join_field_access() {
    let sep = Some(',');
    assert_eq!(get_field("a,b,c", 2, &sep), "b");
    assert_eq!(get_field("a,b,c", 4, &sep), "");
    assert_eq!(get_field("one two  three", 3, &None), "three");
    assert_eq!(get_other_fields("a,b,c", 2, &sep), vec!["a".to_string(), "c".to_string()]);
    assert_eq!(get_other_fields("a,b,c", 9, &sep), vec![
        "a".to_string(),
        "b".to_string(),
        "c".to_string(),
    ]);
}

#[test]
fn listing_formats() {
    assert_eq!(format_size(42), "      42");
    assert_eq!(format_size(123456789), "123456789");
    assert!(is_leap(2000));
    assert!(is_leap(2024));
    assert!(!is_leap(1900));
    assert!(!is_leap(2023));
    assert_eq!(format_time(None), "            ");
    assert_eq!(format_time(Some(0)), "Jan  1 00:00");
    // 2021-03-04 05:06 UTC
    assert_eq!(format_time(Some(1614834360)), "Mar  4 05:06");
}

#[test]
fn dump_formats() {
    assert_eq!(format_address(8, &AddressRadix::Octal), "0000010");
    assert_eq!(format_address(255, &AddressRadix::Hex), "00000ff");
    assert_eq!(format_address(42, &AddressRadix::Decimal), "0000042");
    assert_eq!(format_address(9, &AddressRadix::Omitted), "");
    assert_eq!(named_char(0x00), "nul");
    assert_eq!(named_char(0x20), " sp");
    assert_eq!(named_char(b'A'), "  A");
    assert_eq!(char_repr(b'A'), "   A");
    assert_eq!(char_repr(b'\n'), " \\n");
    assert_eq!(char_repr(0x01), "   1");
    assert_eq!(char_repr(0x80), " 200");
}

#[test]
fn patch_path_and_header() {
    assert_eq!(strip_path("a/b/c.txt", 0), "a/b/c.txt");
    assert_eq!(strip_path("a/b/c.txt", 1), "b/c.txt");
    assert_eq!(strip_path("a/b/c.txt", 5), "a/b/c.txt");
    assert_eq!(parse_hunk_header("@@ -3,2 +4,5 @@"), Some((3, 0)));
    assert_eq!(parse_hunk_header("@@ -12 +13 @@"), Some((12, 0)));
    assert_eq!(parse_hunk_header("not a header"), None);
    assert_eq!(parse_hunk_header("@@ +4,5 @@"), None);
}

#[test]
fn apply_hunks_small_patch() {
    let original = "one\ntwo\nthree\n";
    let hunks = vec![Hunk {
        old_start: 2,
        new_lines: vec![
            HunkLine::Remove,
            HunkLine::Add("TWO".into()),
            HunkLine::Context("three".into()),
        ],
    }];
    assert_eq!(apply_hunks(original, &hunks), "one\nTWO\nthree\n");
}

#[test]
fn apply_hunks_pure_addition() {
    let original = "a\nb";
    let hunks = vec![Hunk { old_start: 3, new_lines: vec![HunkLine::Add("c".into())] }];
    assert_eq!(apply_hunks(original, &hunks), "a\nb\nc\n");
}

#[test]
fn sed_text_helpers() {
    assert_eq!(unescape_replacement("a\\nb"), "a\nb");
    assert_eq!(unescape_replacement("a\\tb"), "a\tb");
    assert_eq!(unescape_replacement("a\\1b"), "a\\1b");
    assert_eq!(unescape_replacement("plain"), "plain");
    assert_eq!(find_unescaped_delim("a\\/b/c", '/'), Some(4));
    assert_eq!(find_unescaped_delim("abc", '/'), None);
    assert_eq!(find_unescaped_delim("/abc", '/'), Some(0));
}

#[test]
fn size_arguments() {
    assert!(matches!(parse_size("100"), Ok(SizeSpec::Absolute(100))));
    assert!(matches!(parse_size("10K"), Ok(SizeSpec::Absolute(10240))));
    assert!(matches!(parse_size("+1M"), Ok(SizeSpec::Extend(1048576))));
    assert!(matches!(parse_size("-2g"), Ok(SizeSpec::Shrink(2147483648))));
    assert!(parse_size("abc").is_err());
    assert!(parse_size("").is_err());
    assert!(parse_size("99999999999999999999G").is_err());
}

#[test]
fn split_suffixes() {
    assert_eq!(suffix_for(0), "aa");
    assert_eq!(suffix_for(1), "ab");
    assert_eq!(suffix_for(26), "ba");
    assert_eq!(suffix_for(675), "zz");
}

#[test]
fn translation_sets() {
    assert_eq!(expand_set("a-c"), vec!['a', 'b', 'c']);
    assert_eq!(expand_set("xyz"), vec!['x', 'y', 'z']);
    assert_eq!(expand_set("c-a"), vec!['c', '-', 'a']);
    assert_eq!(expand_set("a-cx"), vec!['a', 'b', 'c', 'x']);
    assert_eq!(expand_set(""), Vec::<char>::new());
}

#[test]
fn unexpand_lines() {
    assert_eq!(unexpand_leading("        a", 8), "\ta");
    assert_eq!(unexpand_leading("    a    b", 4), "\ta    b");
    assert_eq!(unexpand_leading("ab", 8), "ab");
    assert_eq!(unexpand_all("a       b", 8), "a\tb");
    assert_eq!(unexpand_all("ab c", 8), "ab c");
}

#[test]
fn diff_text_helpers() {
    assert_eq!(normalize_whitespace("  a \t b "), "a b");
    assert_eq!(normalize_whitespace("ab"), "ab");
    let plain = CompareOptions {
        ignore_all_space: false,
        ignore_space_change: false,
        ignore_case: false,
    };
    let icase = CompareOptions {
        ignore_all_space: false,
        ignore_space_change: false,
        ignore_case: true,
    };
    let all_space = CompareOptions {
        ignore_all_space: true,
        ignore_space_change: false,
        ignore_case: false,
    };
    let space_change = CompareOptions {
        ignore_all_space: false,
        ignore_space_change: true,
        ignore_case: false,
    };
    assert!(lines_equal("abc", "abc", &plain));
    assert!(!lines_equal("abc", "aBc", &plain));
    assert!(lines_equal("abc", "aBc", &icase));
    assert!(lines_equal("a b c", "abc", &all_space));
    assert!(lines_equal("a  b", " a b ", &space_change));
    assert!(!lines_equal("a  b", "ab", &space_change));
    let one = [4usize];
    let two = [4usize, 7];
    assert_eq!(format_range(&one), "5");
    assert_eq!(format_range(&two), "5,8");
}

#[test]
fn file_type_detection() {
    assert_eq!(detect_type(b""), "empty");
    assert_eq!(detect_type(&[0x89, 0x50, 0x4e, 0x47, 0x0d, 0x0a, 0x1a, 0x0a, 1, 2]), "PNG image data");
    assert_eq!(detect_type(b"%PDF-1.4 junk"), "PDF document");
    assert_eq!(detect_type(b"PK\x03\x04rest"), "Zip archive data");
    assert_eq!(detect_type(b"<?xml version=\"1.0\"?>"), "XML document");
    assert_eq!(detect_type(b"<!DOCTYPE HTML><html>"), "HTML document");
    assert_eq!(detect_type(b"#!/usr/bin/env python3\nprint()"), "Python script, ASCII text executable");
    assert_eq!(detect_type(b"#!/bin/sh\necho hi"), "POSIX shell script, ASCII text executable");
    assert_eq!(detect_type(b"  {\"key\": 1}"), "JSON text data");
    assert_eq!(detect_type(b"plain words"), "ASCII text");
    assert_eq!(detect_type("\u{e9}clair".as_bytes()), "UTF-8 Unicode text");
    assert_eq!(detect_type(&[0xff, 0xfe, 0x00]), "data");
}

#[test]
fn table_alignment() {
    let lines = vec!["a 1".to_string(), "bbbb 22".to_string(), "".to_string()];
    let table = format_table(&lines, "", " ");
    assert_eq!(table, vec!["a    1".to_string(), "bbbb 22".to_string(), "".to_string()]);

    let csv = vec!["x,y".to_string(), "long,z".to_string()];
    assert_eq!(format_table(&csv, ",", "|"), vec!["x   |y".to_string(), "long|z".to_string()]);

    let names = vec!["aa".to_string(), "b".to_string(), "cc".to_string()];
    // column width 4, twenty columns: everything fits one row
    assert_eq!(format_columns(&names), vec!["aa  b   cc".to_string()]);
    let empties = vec!["".to_string(), "".to_string()];
    assert_eq!(format_columns(&empties), empties);
}
