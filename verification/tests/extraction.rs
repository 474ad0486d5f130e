use system_stats::extract::average_matching_line;
use system_stats::rules::capture;
use system_stats::rules::Rule;

#[test]
fn no_matching_lines_is_no_data() {
    let blob = b"model name : some cpu\nflags : fpu vme\n";
    assert_eq!(average_matching_line(blob, Rule::CpuMhz), None);
}

#[test]
fn empty_blob_is_no_data() {
    assert_eq!(average_matching_line(b"", Rule::CpuMhz), None);
    assert_eq!(average_matching_line(b"", Rule::LeadingNumber), None);
}

#[test]
fn unparsable_matches_are_no_data() {
    // The only captured value is far beyond the 32-bit range, so it is
    // skipped and the count stays zero.
    let blob = b"MemTotal:    99999999999999999999 kB\n";
    assert_eq!(average_matching_line(blob, Rule::MemTotal), None);
}

#[test]
fn cpu_mhz_mean_over_cores() {
    let blob = b"cpu MHz\t\t: 1200.000\ncpu MHz\t\t: 1400.000\ncpu MHz\t\t: 1300.000\n";
    assert_eq!(average_matching_line(blob, Rule::CpuMhz), Some(1300));
}

#[test]
fn cpu_mhz_mean_truncates_toward_zero() {
    let blob = b"cpu MHz\t\t: 1200.000\ncpu MHz\t\t: 1201.000\n";
    // (1200 + 1201) / 2 rounds down to 1200
    assert_eq!(average_matching_line(blob, Rule::CpuMhz), Some(1200));
}

#[test]
fn cpu_mhz_single_line() {
    let blob = b"processor : 0\ncpu MHz         : 3500.093\nbogomips : 7000.00\n";
    assert_eq!(average_matching_line(blob, Rule::CpuMhz), Some(3500));
}

#[test]
fn cpu_mhz_capture_is_integer_part() {
    assert_eq!(capture(Rule::CpuMhz, b"cpu MHz  : 1200.57"), Some(b"1200".to_vec()));
}

#[test]
fn cpu_mhz_needs_space_before_colon() {
    assert_eq!(capture(Rule::CpuMhz, b"cpu MHz: 1200.0"), None);
}

#[test]
fn cpu_mhz_needs_decimal_point() {
    // The rule captures the digits before a decimal point; a line
    // without one does not match.
    let blob = b"cpu MHz\t\t: 1200\n";
    assert_eq!(average_matching_line(blob, Rule::CpuMhz), None);
}

#[test]
fn cpu_mhz_mean_with_crlf_endings() {
    let blob = b"cpu MHz : 100.0\r\ncpu MHz : 200.0\r\n";
    assert_eq!(average_matching_line(blob, Rule::CpuMhz), Some(150));
}

#[test]
fn leading_number_extraction() {
    assert_eq!(average_matching_line(b"1500 MHz", Rule::LeadingNumber), Some(1500));
    assert_eq!(capture(Rule::LeadingNumber, b"1500 MHz"), Some(b"1500".to_vec()));
}

#[test]
fn leading_number_skips_blanks() {
    assert_eq!(average_matching_line(b" 45 %", Rule::LeadingNumber), Some(45));
    assert_eq!(capture(Rule::LeadingNumber, b"\t38"), Some(b"38".to_vec()));
}

#[test]
fn leading_number_takes_first_run() {
    assert_eq!(capture(Rule::LeadingNumber, b"temp 67 of 100"), Some(b"67".to_vec()));
}

#[test]
fn leading_number_without_digits() {
    assert_eq!(capture(Rule::LeadingNumber, b"[N/A]"), None);
}

#[test]
fn mem_total_capture() {
    assert_eq!(capture(Rule::MemTotal, b"MemTotal:    16384000 kB"), Some(b"16384000".to_vec()));
}

#[test]
fn mem_total_matches_anywhere_in_line() {
    // The rule is unanchored: the leftmost occurrence wins.
    assert_eq!(capture(Rule::MemTotal, b"xMemTotal: 5"), Some(b"5".to_vec()));
}

#[test]
fn mem_available_capture() {
    assert_eq!(
        capture(Rule::MemAvailable, b"MemAvailable: 4096000 kB"),
        Some(b"4096000".to_vec())
    );
}

#[test]
fn load_average_capture() {
    assert_eq!(
        capture(Rule::LoadAverage, b"0.52 0.58 0.59 1/257 12345\n"),
        Some(b"0.52 0.58 0.59".to_vec())
    );
}

#[test]
fn load_average_no_match() {
    assert_eq!(capture(Rule::LoadAverage, b"nonsense"), None);
}

#[test]
fn largest_value_in_range_parses() {
    let blob = b"MemTotal: 4294967295 kB\n";
    assert_eq!(average_matching_line(blob, Rule::MemTotal), Some(4294967295));
}

#[test]
fn value_just_past_range_is_skipped() {
    let blob = b"MemTotal: 4294967296 kB\n";
    assert_eq!(average_matching_line(blob, Rule::MemTotal), None);
}

#[test]
fn capture_on_multiline_blob_uses_first_match() {
    let blob = b"MemFree: 100 kB\nMemTotal: 200 kB\nMemTotal: 300 kB\n";
    // The averaging extractor sees one value per matching line.
    assert_eq!(average_matching_line(blob, Rule::MemTotal), Some(250));
}
