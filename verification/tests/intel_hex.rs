use intel_hex_expand::expand;
use intel_hex_expand::intel_hex::{checksum, write_data_lines, ExpandError};
use intel_hex_expand::hex::bytes_from_hex;

fn expand_text(input: &str) -> String {
    let mut output = Vec::new();
    expand(input.as_bytes(), &mut output).unwrap();
    String::from_utf8(output).unwrap()
}

#[test]
fn expands_data_records_in_sixteen_byte_rows() {
    let input = ":10010000214601360121470136007EFE09D2190140\n:00000001FF\n";

    assert_eq!(
        expand_text(input),
        "00000100: 21 46 01 36 01 21 47 01 36 00 7E FE 09 D2 19 01\r\n"
    );
}

#[test]
fn applies_extended_linear_and_segment_addresses() {
    let input = ":020000040001F9\n:0400100001020304E2\n:020000021234B6\n:02001000AABB89\n:00000001FF\n";

    assert_eq!(
        expand_text(input),
        "00010010: 01 02 03 04\r\n00012350: AA BB\r\n"
    );
}

#[test]
fn reports_malformed_records_and_preserves_plain_text() {
    let input = "header\n:123\n:0200000001FC\n:0100000001FF\n";

    assert_eq!(
        expand_text(input),
        "header\n; invalid hex line 2\n; invalid hex length at line 3\n; checksum mismatch at line 4\n00000000: 01\r\n"
    );
}

#[test]
fn stops_at_end_of_file_record() {
    let input = ":00000001FF\n:0100000001FE\n";

    assert_eq!(expand_text(input), "");
}

#[test]
fn propagates_input_errors() {
    let input = vec![b':', 0xFF, b'\n'];

    assert!(expand(&input, &mut Vec::new()).is_err());
}

#[test]
fn invalid_utf8_reports_the_error_variant_and_keeps_earlier_output() {
    let input = b"plain\n\xC3\x28\nmore\n";
    let mut output = Vec::new();
    assert_eq!(expand(input, &mut output), Err(ExpandError::InvalidUtf8));
    assert_eq!(output, b"plain\n".to_vec());
}

#[test]
fn invalid_utf8_after_end_record_is_never_read() {
    let input = b":00000001FF\n\xFF\n";
    let mut output = Vec::new();
    assert_eq!(expand(input, &mut output), Ok(()));
    assert!(output.is_empty());
}

#[test]
fn text_after_end_record_is_ignored() {
    let with_tail = ":0100000001FE\n:00000001FF\nheader\n:0100000001FE\n";
    let without_tail = ":0100000001FE\n:00000001FF\n";
    assert_eq!(expand_text(with_tail), expand_text(without_tail));
    assert_eq!(expand_text(with_tail), "00000000: 01\r\n");
}

#[test]
fn plain_text_lines_are_trimmed_and_copied() {
    assert_eq!(expand_text("  header text \t\r\n"), "header text\n");
    assert_eq!(expand_text("\u{3000}wide space\u{00A0}\n"), "wide space\n");
    assert_eq!(expand_text("caf\u{e9}\n"), "caf\u{e9}\n");
}

#[test]
fn blank_lines_are_skipped_but_counted() {
    assert_eq!(expand_text("\n   \n\r\n:12\n"), "; invalid hex line 4\n");
}

#[test]
fn crlf_lines_and_missing_final_newline() {
    let input = ":0100000001FE\r\n:0100100002ED";
    assert_eq!(expand_text(input), "00000000: 01\r\n00000010: 02\r\n");
}

#[test]
fn empty_input_gives_empty_output() {
    assert_eq!(expand_text(""), "");
}

#[test]
fn output_is_appended_after_existing_content() {
    let mut output = b"kept\n".to_vec();
    expand(b"text\n", &mut output).unwrap();
    assert_eq!(output, b"kept\ntext\n".to_vec());
}

#[test]
fn lower_case_and_plus_sign_digits_are_read() {
    assert_eq!(expand_text(":01000000ab54\n"), "00000000: AB\r\n");
    // `u8::from_str_radix` reads "+1" as 1.
    assert_eq!(expand_text(":+100000001FE\n"), "00000000: 01\r\n");
    assert_eq!(bytes_from_hex(b"+1ff"), Ok(vec![1, 0xFF]));
    assert_eq!(bytes_from_hex(b"-1"), Err(()));
}

#[test]
fn checksum_mismatch_is_reported_and_record_still_applied() {
    assert_eq!(
        expand_text(":020000040001F8\n:0100000001FE\n"),
        "; checksum mismatch at line 1\n00010000: 01\r\n"
    );
}

#[test]
fn end_record_with_bad_checksum_reports_then_stops() {
    assert_eq!(
        expand_text(":00000001FE\n:0100000001FE\n"),
        "; checksum mismatch at line 1\n"
    );
}

#[test]
fn odd_digit_count_and_non_hex_are_invalid_lines() {
    assert_eq!(expand_text(":0100000001F\n"), "; invalid hex line 1\n");
    assert_eq!(expand_text(":01000000G1FE\n"), "; invalid hex line 1\n");
    assert_eq!(expand_text(":00000001\n"), "; invalid hex line 1\n");
    assert_eq!(expand_text(":\u{e9}0000001FF\n"), "; invalid hex line 1\n");
}

#[test]
fn short_segment_and_linear_records_leave_base_unchanged() {
    assert_eq!(
        expand_text(":0100000201FC\n:0100000401FA\n:0100000001FE\n"),
        "00000000: 01\r\n"
    );
}

#[test]
fn unknown_record_types_are_ignored() {
    assert_eq!(expand_text(":0400000300001234B3\n:0100000001FE\n"), "00000000: 01\r\n");
}

#[test]
fn data_rows_split_every_sixteen_bytes() {
    let data: Vec<u8> = (0u8..20).collect();
    let mut out = Vec::new();
    write_data_lines(&mut out, 0x10000, 0x0100, &data);
    assert_eq!(
        String::from_utf8(out).unwrap(),
        "00010100: 00 01 02 03 04 05 06 07 08 09 0A 0B 0C 0D 0E 0F\r\n00010110: 10 11 12 13\r\n"
    );
}

#[test]
fn row_addresses_wrap_around() {
    let data: Vec<u8> = vec![0xAA; 17];
    let mut out = Vec::new();
    write_data_lines(&mut out, 0xFFFF0000, 0xFFF8, &data);
    assert_eq!(
        String::from_utf8(out).unwrap(),
        "FFFFFFF8: AA AA AA AA AA AA AA AA AA AA AA AA AA AA AA AA\r\n00000008: AA\r\n"
    );
}

#[test]
fn empty_data_gives_no_rows() {
    let mut out = Vec::new();
    write_data_lines(&mut out, 0, 0, &[]);
    assert!(out.is_empty());
}

#[test]
fn checksum_is_byte_sum_modulo_256() {
    assert_eq!(checksum(&[0x01, 0x00, 0x00, 0x00, 0x01, 0xFE]), 0);
    assert_eq!(checksum(&[0xFF, 0x02]), 1);
    assert_eq!(checksum(&[]), 0);
}

#[test]
fn bytes_from_hex_reads_pairs() {
    assert_eq!(bytes_from_hex(b"00ff7E"), Ok(vec![0x00, 0xFF, 0x7E]));
    assert_eq!(bytes_from_hex(b""), Ok(vec![]));
    assert_eq!(bytes_from_hex(b"123"), Err(()));
    assert_eq!(bytes_from_hex(b"zz"), Err(()));
}

#[test]
fn line_numbers_beyond_nine_are_written_in_full() {
    let mut input = String::new();
    for _ in 0..11 {
        input.push('\n');
    }
    input.push_str(":1\n");
    assert_eq!(expand_text(&input), "; invalid hex line 12\n");
}

#[test]
fn checksum_mismatch_only_adds_its_notice() {
    let good = "hdr\n:0200000401FFFA\n:0100000001FE\n";
    let bad = "hdr\n:0200000401FFFB\n:0100000001FE\n";
    assert_eq!(expand_text(good), "hdr\n01FF0000: 01\r\n");
    assert_eq!(expand_text(bad), "hdr\n; checksum mismatch at line 2\n01FF0000: 01\r\n");
}
