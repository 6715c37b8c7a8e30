use resources::number::{
    decimal, hex_padded, number_chars, parse_i32_chars, parse_i64_chars, parse_i8_chars,
    parse_u16_chars, parse_u32, parse_u32_chars, parse_u64, parse_usize, saturating_mul_u64,
    saturating_mul_usize,
};
use resources::pci_slot::{PciSlot, PciSlotError};
use resources::text::{
    has_prefix, has_suffix, has_text, lines_chars, same_text, split_chars, split_once_chars,
    to_chars, to_text, trimmed, words_chars,
};
use resources::units::{
    cycles_delta_to_usage_fraction, max_option, ns_delta_to_usage_fraction, Fraction,
    IntegerPercentage, PercentageError,
};
use resources::util::{parse_bool, unix_as_millis, with_default};

fn chars(s: &str) -> Vec<char> {
    to_chars(s)
}

fn texts(list: Vec<Vec<char>>) -> Vec<String> {
    list.iter().map(|c| to_text(c)).collect()
}

#[test]
fn unsigned_numbers_are_read_like_rust_reads_them() {
    for s in ["0", "7", "+7", "007", "18446744073709551615", "18446744073709551616", "", "+", "-1", "1_0", " 1", "1 ", "٣"] {
        assert_eq!(parse_u64(s), s.parse::<u64>().ok(), "{s:?}");
        assert_eq!(parse_u32(s), s.parse::<u32>().ok(), "{s:?}");
        assert_eq!(parse_usize(s), s.parse::<usize>().ok(), "{s:?}");
    }
}

#[test]
fn signed_numbers_are_read_like_rust_reads_them() {
    for s in ["0", "-0", "+5", "-128", "127", "128", "-129", "2147483647", "-2147483648", "2147483648", "9223372036854775807", "-9223372036854775808", "9223372036854775808", "", "-", "--1", "-a"] {
        assert_eq!(parse_i32_chars(&chars(s)), s.parse::<i32>().ok(), "{s:?}");
        assert_eq!(parse_i8_chars(&chars(s)), s.parse::<i8>().ok(), "{s:?}");
        assert_eq!(parse_i64_chars(&chars(s)), s.parse::<i64>().ok(), "{s:?}");
    }
}

#[test]
fn hexadecimal_numbers_are_read_in_either_case() {
    for s in ["ff", "FF", "10000", "fFfF", "g", "", "+1f", "100000000"] {
        assert_eq!(parse_u32_chars(&chars(s), 16), u32::from_str_radix(s, 16).ok(), "{s:?}");
        assert_eq!(parse_u16_chars(&chars(s), 16), u16::from_str_radix(s, 16).ok(), "{s:?}");
    }
}

#[test]
fn numbers_are_written() {
    assert_eq!(decimal(0), "0");
    assert_eq!(decimal(1048576), "1048576");
    assert_eq!(to_text(&number_chars(255, 16)), "ff");
    assert_eq!(to_text(&hex_padded(0xc6, 4)), "00c6");
    assert_eq!(to_text(&hex_padded(0x12345, 4)), "12345");
}

#[test]
fn written_numbers_are_read_back() {
    for n in [0u64, 9, 10, 65535, u64::MAX] {
        assert_eq!(parse_u64(&decimal(n)), Some(n));
    }
}

#[test]
fn products_stop_at_the_largest_value() {
    assert_eq!(saturating_mul_u64(3, 1024), 3072);
    assert_eq!(saturating_mul_u64(u64::MAX, 2), u64::MAX);
    assert_eq!(saturating_mul_usize(usize::MAX, 1024), usize::MAX);
    assert_eq!(saturating_mul_usize(2, 1024), 2048);
}

#[test]
fn pci_addresses_are_read_and_written() {
    let slot = PciSlot::from_str("0000:c6:00.1").unwrap();
    assert_eq!(slot, PciSlot { domain: 0, bus: 0xc6, number: 0, function: 1 });
    assert_eq!(slot.to_string(), "0000:c6:00.1");
    assert_eq!(PciSlot::from_str("10000:0A:1f.7").unwrap().to_string(), "10000:0a:1f.7");
    assert_eq!(PciSlot::default().to_string(), "0000:00:00.0");
}

#[test]
fn malformed_pci_addresses_are_refused() {
    for s in ["", "N/A", "0000:c6:00", "0000:c6.00.1", "0000:100:00.1", "0000:zz:00.1", "0000:c6:00.1.2"] {
        assert_eq!(PciSlot::from_str(s), Err(PciSlotError), "{s:?}");
    }
}

#[test]
fn strings_are_split_like_rust_splits_them() {
    for s in ["", "a", ":", "a:b", ":a::b:", "ä:ö", "a\nb\r\nc", "a\n", "\n\n", "a\r", " a  b\tc\u{2003}d "] {
        assert_eq!(texts(split_chars(&chars(s), ':')), s.split(':').map(String::from).collect::<Vec<_>>(), "{s:?}");
        assert_eq!(texts(lines_chars(&chars(s))), s.lines().map(String::from).collect::<Vec<_>>(), "{s:?}");
        assert_eq!(texts(words_chars(&chars(s))), s.split_whitespace().map(String::from).collect::<Vec<_>>(), "{s:?}");
        assert_eq!(trimmed(s), s.trim(), "{s:?}");
        assert_eq!(
            split_once_chars(&chars(s), ':').map(|(a, b)| (to_text(&a), to_text(&b))),
            s.split_once(':').map(|(a, b)| (a.to_string(), b.to_string())),
            "{s:?}"
        );
    }
}

#[test]
fn strings_are_searched() {
    assert!(has_prefix("/snap/firefox", "/snap/"));
    assert!(!has_prefix("/sna", "/snap/"));
    assert!(has_suffix("temp1_input", "_input"));
    assert!(!has_suffix("temp1_inputs", "_input"));
    assert!(has_text("resources-exporter", "exporter"));
    assert!(has_text("anything", ""));
    assert!(!has_text("export", "exporter"));
    assert!(same_text("ü", "ü"));
    assert!(!same_text("u", "ü"));
}

#[test]
fn percentages_go_to_a_hundred() {
    assert_eq!(IntegerPercentage::try_new(100).unwrap().into_inner(), 100);
    assert_eq!(IntegerPercentage::try_new(101), Err(PercentageError));
    assert_eq!(IntegerPercentage::default().into_inner(), 0);
    assert_eq!(IntegerPercentage::try_new(25).unwrap().fraction(), Fraction { num: 25, den: 100 });
}

#[test]
fn busy_time_is_a_share_of_the_elapsed_time() {
    assert_eq!(ns_delta_to_usage_fraction(3_000_000, 1_000_000, 4), Some(Fraction { num: 2_000_000, den: 4_000_000 }));
    assert_eq!(ns_delta_to_usage_fraction(1, 2, 4), Some(Fraction { num: 0, den: 4_000_000 }));
    assert_eq!(ns_delta_to_usage_fraction(3, 1, 0), None);
    assert_eq!(cycles_delta_to_usage_fraction(30, 10, 140, 100), Some(Fraction { num: 20, den: 40 }));
    assert_eq!(cycles_delta_to_usage_fraction(30, 10, 100, 100), None);
}

#[test]
fn the_larger_share_counts() {
    let third = Some(Fraction { num: 1, den: 3 });
    let half = Some(Fraction { num: 2, den: 4 });
    assert_eq!(max_option(third, half), half);
    assert_eq!(max_option(half, third), half);
    assert_eq!(max_option(third, None), third);
    assert_eq!(max_option(None, half), half);
    assert_eq!(max_option(None, None), None);
}

#[test]
fn times_are_given_in_milliseconds() {
    assert_eq!(unix_as_millis(1_700_000_000, 123_456_789), 1_700_000_000_123);
    assert_eq!(unix_as_millis(0, 999_999), 0);
}

#[test]
fn settings_of_the_build_have_defaults() {
    assert_eq!(with_default(None, "org.gnome.Resources"), "org.gnome.Resources");
    assert_eq!(with_default(Some("org.example"), "org.gnome.Resources"), "org.example");
    assert_eq!(parse_bool("true"), Some(true));
    assert_eq!(parse_bool("false"), Some(false));
    assert_eq!(parse_bool("yes"), None);
}
