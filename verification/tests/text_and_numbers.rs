use t2rebar::number::{dec_text, hex_padded_text, hex_text, parse_numeral, IntError};
use t2rebar::text::{
    chars_of, is_white, join, pad_left, pad_right, split, split_lines, split_once, split_words,
    string_of, strip_0x, trim_text,
};

fn strings(v: Vec<Vec<char>>) -> Vec<String> {
    v.iter().map(|p| p.iter().collect::<String>()).collect()
}

#[test]
fn white_space_is_what_unicode_says() {
    for n in 0..=0x10ffff_u32 {
        if let Some(c) = char::from_u32(n) {
            assert_eq!(is_white(c), c.is_whitespace(), "{:?}", c);
        }
    }
}

#[test]
fn characters_go_out_and_come_back() {
    let s = "0000:17:00.0 — ünïcode 𝄞";
    let cs = chars_of(s);
    assert_eq!(cs.len(), s.chars().count());
    assert_eq!(string_of(&cs), s);
}

#[test]
fn trimming_and_splitting_agree_with_std() {
    for s in ["", " ", "a", "  a b\t c\n", "\u{a0}x\u{3000}", "a\r\nb\n\nc", "\n", "a\r", "\r\n\r\n"] {
        assert_eq!(trim_text(s), s.trim());
        let cs = chars_of(s);
        assert_eq!(strings(split_words(&cs)), s.split_whitespace().collect::<Vec<_>>());
        assert_eq!(strings(split_lines(&cs)), s.lines().collect::<Vec<_>>());
        assert_eq!(strings(split(&cs, 'a')), s.split('a').collect::<Vec<_>>());
        let cut = split_once(&cs, 'b').map(|(a, b)| (string_of(a), string_of(b)));
        let std_cut = s.split_once('b').map(|(a, b)| (a.to_string(), b.to_string()));
        assert_eq!(cut, std_cut);
    }
}

#[test]
fn hex_prefixes_are_stripped_repeatedly() {
    for s in ["0x1f", "1f", "0x0x1f", "0X1f", "0", "", "x0x"] {
        let cs = chars_of(s);
        assert_eq!(string_of(strip_0x(&cs)), s.trim_start_matches("0x"));
    }
}

#[test]
fn padding_and_joining_agree_with_std() {
    for s in ["", "io", "mem64 pref", "128 GiB", "a longer text"] {
        assert_eq!(pad_right(s, 11), format!("{:<11}", s));
        assert_eq!(pad_left(s, ' ', 12), format!("{:>12}", s));
    }
    let list = vec![String::from("a"), String::from("b"), String::from("c")];
    assert_eq!(join(&list, ", "), "a, b, c");
    assert_eq!(join(&Vec::new(), ", "), "");
}

#[test]
fn numerals_are_written_as_std_writes_them() {
    for n in [0, 1, 9, 10, 15, 16, 255, 256, 4096, 0x2bb1, u32::MAX as u64, u64::MAX] {
        assert_eq!(dec_text(n), format!("{}", n));
        assert_eq!(hex_text(n), format!("{:x}", n));
        assert_eq!(hex_padded_text(n, 4), format!("{:04x}", n));
        assert_eq!(hex_padded_text(n, 12), format!("{:012x}", n));
    }
}

#[test]
fn numerals_are_read_as_std_reads_them() {
    for s in ["", "+", "-", "0", "+7", "-7", "007", "255", "256", "12a", "ff", "FF", "1 ", "99999999999x"] {
        let cs = chars_of(s);
        let got = parse_numeral(&cs, 10, 255);
        match s.parse::<u8>() {
            Ok(n) => assert_eq!(got, Ok(n as u64)),
            Err(e) => assert_eq!(got.unwrap_err().message(), e.to_string()),
        }
        let got = parse_numeral(&cs, 16, 0xffff);
        match u16::from_str_radix(s, 16) {
            Ok(n) => assert_eq!(got, Ok(n as u64)),
            Err(e) => assert_eq!(got.unwrap_err().message(), e.to_string()),
        }
    }
    let cs = chars_of("ffffffffffffffff");
    assert_eq!(parse_numeral(&cs, 16, u64::MAX), Ok(u64::MAX));
    let cs = chars_of("10000000000000000");
    assert_eq!(parse_numeral(&cs, 16, u64::MAX), Err(IntError::TooLarge));
}

#[test]
fn each_numeral_error_has_its_input() {
    assert_eq!(parse_numeral(&[], 10, 9), Err(IntError::Empty));
    assert_eq!(parse_numeral(&['x'], 10, 9), Err(IntError::InvalidDigit));
    assert_eq!(parse_numeral(&['1', '0'], 10, 9), Err(IntError::TooLarge));
}
