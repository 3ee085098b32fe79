use ufrume::number::{parse_decimal, write_decimal};
use ufrume::order::descending_order;
use ufrume::text::{chars_of, contains_text, same_text, trim, until_mark, white_space};

#[test]
fn trim_takes_off_white_space_of_all_kinds() {
    assert_eq!(trim("  a b \t\n"), "a b");
    assert_eq!(trim("\u{2003}x\u{3000}\u{a0}"), "x");
    assert_eq!(trim(" \r\n "), "");
    assert_eq!(trim(""), "");
    assert_eq!(trim(trim("  y ").as_str()), "y");
}

#[test]
fn white_space_is_that_of_the_standard_library() {
    let mut u: u32 = 0;
    while u <= 0x10ffff {
        if let Some(c) = char::from_u32(u) {
            assert_eq!(white_space(c), c.is_whitespace());
        }
        u += 1;
    }
}

#[test]
fn contains_text_finds_what_the_standard_library_finds() {
    let texts = ["", "a", "ab", "abc", "caba", "ääb", "bä", "aab"];
    for text in texts {
        for pattern in texts {
            assert_eq!(contains_text(text, pattern), text.contains(pattern));
        }
    }
}

#[test]
fn same_text_compares_characters() {
    assert!(same_text("flac", "flac"));
    assert!(!same_text("flac", "Flac"));
    assert!(!same_text("", " "));
}

#[test]
fn chars_of_keeps_all_characters() {
    assert_eq!(chars_of("aé☃"), vec!['a', 'é', '☃']);
}

#[test]
fn until_mark_stops_at_the_first_mark() {
    assert_eq!(until_mark("1997-05-21", '-'), "1997");
    assert_eq!(until_mark("1997", '-'), "1997");
    assert_eq!(until_mark("-5", '-'), "");
    assert_eq!(until_mark("", '-'), "");
}

#[test]
fn parse_decimal_agrees_with_the_standard_library() {
    let texts = [
        "0", "7", "007", "+12", "65535", "65536", "", "+", "++1", "-1", " 1", "1 ", "1_0", "٣", "A1",
        "99999999999999999999999",
    ];
    for text in texts {
        assert_eq!(parse_decimal(text, u64::from(u16::MAX)), text.parse::<u16>().ok().map(u64::from));
        assert_eq!(parse_decimal(text, u64::from(u32::MAX)), text.parse::<u32>().ok().map(u64::from));
        assert_eq!(parse_decimal(text, u64::MAX), text.parse::<u64>().ok());
    }
    assert_eq!(parse_decimal("18446744073709551615", u64::MAX), Some(u64::MAX));
    assert_eq!(parse_decimal("18446744073709551616", u64::MAX), None);
}

#[test]
fn write_decimal_writes_what_parse_decimal_reads() {
    let numbers = [0u64, 9, 10, 1997, 65535, u64::MAX];
    for n in numbers {
        assert_eq!(write_decimal(n), n.to_string());
        assert_eq!(parse_decimal(write_decimal(n).as_str(), u64::MAX), Some(n));
    }
}

#[test]
fn descending_order_is_stable() {
    assert_eq!(descending_order(&vec![3, 9, 3, 9, -1]), vec![1, 3, 0, 2, 4]);
    assert_eq!(descending_order(&Vec::new()), Vec::<usize>::new());
    let keys: Vec<i128> = (0..200).map(|i: i128| (i * 7919) % 31).collect();
    let mut expected: Vec<usize> = (0..200).collect();
    expected.sort_by(|a, b| keys[*b].cmp(&keys[*a]));
    assert_eq!(descending_order(&keys), expected);
}
