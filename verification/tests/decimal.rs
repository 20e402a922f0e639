use kryptos::decimal::parse_unsigned;

fn as_std_u16(text: &str) -> Option<u64> {
    text.parse::<u16>().ok().map(|v| v as u64)
}

fn as_std_u64(text: &str) -> Option<u64> {
    text.parse::<u64>().ok()
}

#[test]
fn plain_numbers_are_read() {
    assert_eq!(parse_unsigned("0", 10), Some(0));
    assert_eq!(parse_unsigned("7", 10), Some(7));
    assert_eq!(parse_unsigned("10", 10), Some(10));
    assert_eq!(parse_unsigned("6969", 65535), Some(6969));
    assert_eq!(parse_unsigned("65535", 65535), Some(65535));
}

#[test]
fn a_number_above_the_limit_is_not_read() {
    assert_eq!(parse_unsigned("11", 10), None);
    assert_eq!(parse_unsigned("65536", 65535), None);
    assert_eq!(parse_unsigned("100000", 65535), None);
    assert_eq!(parse_unsigned("1", 0), None);
    assert_eq!(parse_unsigned("0", 0), Some(0));
}

#[test]
fn the_largest_number_of_the_machine_is_read_and_the_next_is_not() {
    assert_eq!(parse_unsigned("18446744073709551615", u64::MAX), Some(u64::MAX));
    assert_eq!(parse_unsigned("18446744073709551616", u64::MAX), None);
    assert_eq!(parse_unsigned("18446744073709551620", u64::MAX), None);
    assert_eq!(parse_unsigned("99999999999999999999", u64::MAX), None);
    assert_eq!(parse_unsigned("184467440737095516150", u64::MAX), None);
}

#[test]
fn leading_zeros_do_not_count() {
    assert_eq!(parse_unsigned("000", 5), Some(0));
    assert_eq!(parse_unsigned("0005", 5), Some(5));
    assert_eq!(parse_unsigned("0000000000000000000000000000000042", 100), Some(42));
}

#[test]
fn one_plus_sign_may_lead() {
    assert_eq!(parse_unsigned("+5", 5), Some(5));
    assert_eq!(parse_unsigned("+0", 5), Some(0));
    assert_eq!(parse_unsigned("++5", 5), None);
    assert_eq!(parse_unsigned("+", 5), None);
    assert_eq!(parse_unsigned("5+", 5), None);
    assert_eq!(parse_unsigned("+ 5", 5), None);
}

#[test]
fn anything_but_digits_is_refused() {
    for text in [
        "", " ", "-", "-0", "-5", "5 ", " 5", "5\n", "\t5", "5a", "a5", "0x5", "5.0", "5e1", "1_0",
        "1,0", "٥", "５", "5٥", "½", "²", "5\u{0}", "\u{feff}5",
    ] {
        assert_eq!(parse_unsigned(text, u64::MAX), None, "{:?}", text);
    }
}

#[test]
fn every_port_number_is_read_as_the_standard_library_reads_it() {
    for n in 0u32..70000 {
        let text = n.to_string();
        assert_eq!(parse_unsigned(&text, u16::MAX as u64), as_std_u16(&text), "{:?}", text);
        let signed = format!("+{}", n);
        assert_eq!(parse_unsigned(&signed, u16::MAX as u64), as_std_u16(&signed), "{:?}", signed);
        let padded = format!("00{}", n);
        assert_eq!(parse_unsigned(&padded, u16::MAX as u64), as_std_u16(&padded), "{:?}", padded);
    }
}

#[test]
fn odd_words_are_read_as_the_standard_library_reads_them() {
    for text in [
        "", "+", "-", "+-1", "-+1", "++1", "+1", "-1", "-0", "+0", "0", "00", "1_000", "1 000",
        " 1", "1 ", "0x10", "1e3", "١٢٣", "１２３", "12a", "a12", "65535", "65536", "065535",
        "+65535", "+65536", "0000000000000000000000065535", "18446744073709551615",
        "18446744073709551616", "340282366920938463463374607431768211456", "\n", "1\n", "∞",
    ] {
        assert_eq!(parse_unsigned(text, u16::MAX as u64), as_std_u16(text), "{:?}", text);
        assert_eq!(parse_unsigned(text, u64::MAX), as_std_u64(text), "{:?}", text);
    }
}
