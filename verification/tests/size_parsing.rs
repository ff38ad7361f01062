use closm_probe::size_calculation::{parse_du_output, parse_mdfind_output};

#[test]
fn test_parse_du_output() {
    let output = "12345\t/Users/test/dir\n";
    assert_eq!(parse_du_output(output), 12345 * 1024);
}

#[test]
fn test_parse_du_empty_output() {
    assert_eq!(parse_du_output(""), 0);
}

#[test]
fn test_parse_du_with_spaces_in_path() {
    let output = "100\t/Users/test/path with spaces\n";
    assert_eq!(parse_du_output(output), 100 * 1024);
}

#[test]
fn test_parse_mdfind_output() {
    let output = "/Users/test/file1.txt
kMDItemFSSize = 1234
/Users/test/file2.txt
kMDItemFSSize = 5678
/Users/test/empty.txt
kMDItemFSSize = (null)
";
    assert_eq!(parse_mdfind_output(output), 1234 + 5678);
}

#[test]
fn test_parse_empty_output() {
    assert_eq!(parse_mdfind_output(""), 0);
}

#[test]
fn du_output_leading_whitespace_and_plus_sign() {
    assert_eq!(parse_du_output("  \t 7 /x"), 7 * 1024);
    assert_eq!(parse_du_output("+8\t/x"), 8 * 1024);
    assert_eq!(parse_du_output("0\t/x"), 0);
    assert_eq!(parse_du_output("008\t/x"), 8 * 1024);
}

#[test]
fn du_output_without_a_number_is_zero() {
    assert_eq!(parse_du_output("du: cannot read"), 0);
    assert_eq!(parse_du_output("12k\t/x"), 0);
    assert_eq!(parse_du_output("-5\t/x"), 0);
    assert_eq!(parse_du_output("+\t/x"), 0);
    assert_eq!(parse_du_output("   \n"), 0);
    assert_eq!(parse_du_output("1.5\t/x"), 0);
}

#[test]
fn du_output_number_too_large_for_u64_is_zero() {
    assert_eq!(parse_du_output("18446744073709551616\t/x"), 0);
    assert_eq!(parse_du_output("99999999999999999999999\t/x"), 0);
}

#[test]
fn du_output_byte_count_is_clamped() {
    assert_eq!(parse_du_output("18014398509481983\t/x"), 18014398509481983 * 1024);
    assert_eq!(parse_du_output("18014398509481984\t/x"), u64::MAX);
    assert_eq!(parse_du_output("18446744073709551615\t/x"), u64::MAX);
}

#[test]
fn du_output_splits_on_unicode_whitespace() {
    assert_eq!(parse_du_output("\u{3000}42\u{a0}/x"), 42 * 1024);
    assert_eq!("\u{3000}42\u{a0}/x".split_whitespace().next(), Some("42"));
}

#[test]
fn mdfind_output_ignores_other_lines() {
    assert_eq!(parse_mdfind_output("/a/b\nkMDItemKind = 12\n"), 0);
    assert_eq!(parse_mdfind_output(" kMDItemFSSize = 12\n"), 0);
    assert_eq!(parse_mdfind_output("kMDItemFSSize"), 0);
    assert_eq!(parse_mdfind_output("kMDItemFSSize 12"), 0);
}

#[test]
fn mdfind_output_reads_the_field_after_the_first_equals_sign() {
    assert_eq!(parse_mdfind_output("kMDItemFSSize = 12"), 12);
    assert_eq!(parse_mdfind_output("kMDItemFSSize=12"), 12);
    assert_eq!(parse_mdfind_output("kMDItemFSSize = 12 = 99"), 12);
    assert_eq!(parse_mdfind_output("kMDItemFSSize = = 99"), 0);
    assert_eq!(parse_mdfind_output("kMDItemFSSizeLogical = 5"), 5);
    assert_eq!(parse_mdfind_output("kMDItemFSSize = +5"), 5);
    assert_eq!(parse_mdfind_output("kMDItemFSSize = 5 bytes"), 0);
    assert_eq!(parse_mdfind_output("kMDItemFSSize = -5"), 0);
}

#[test]
fn mdfind_output_accepts_carriage_returns() {
    assert_eq!(parse_mdfind_output("/a\r\nkMDItemFSSize = 3\r\nkMDItemFSSize = 4\r\n"), 7);
    assert_eq!(parse_mdfind_output("kMDItemFSSize = 3\n\nkMDItemFSSize = 4"), 7);
}

#[test]
fn mdfind_output_total_is_clamped() {
    let output = "kMDItemFSSize = 18446744073709551615\nkMDItemFSSize = 1\n";
    assert_eq!(parse_mdfind_output(output), u64::MAX);
    let output = "kMDItemFSSize = 18446744073709551614\nkMDItemFSSize = 1\n";
    assert_eq!(parse_mdfind_output(output), u64::MAX);
    let output = "kMDItemFSSize = 18446744073709551616\nkMDItemFSSize = 1\n";
    assert_eq!(parse_mdfind_output(output), 1);
}

#[test]
fn index_query_of_two_files_totals_their_sizes() {
    let output = "/dir/a\nkMDItemFSSize = 100\n/dir/b\nkMDItemFSSize = 250\n";
    assert_eq!(parse_mdfind_output(output), 350);
}
