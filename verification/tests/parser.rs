use bitmapd::parser::{BitmapClaim, Parser};
use bitmapd::text::{decimal_string, is_white_space_char};

fn district(number: u64) -> BitmapClaim {
    BitmapClaim::District { number }
}

fn parcel(tx_index: u64, block_number: u64) -> BitmapClaim {
    BitmapClaim::Parcel { tx_index, block_number }
}

#[test]
fn parses_district() {
    assert_eq!(Parser::parse("792435.bitmap"), district(792435));
    assert_eq!(Parser::parse("0.bitmap"), district(0));
}

#[test]
fn parses_parcel() {
    assert_eq!(Parser::parse("5.840000.bitmap"), parcel(5, 840000));
    assert_eq!(Parser::parse("0.0.bitmap"), parcel(0, 0));
}

#[test]
fn ignores_letter_case() {
    assert_eq!(Parser::parse("12.BITMAP"), district(12));
    assert_eq!(Parser::parse("3.12.BitMap"), parcel(3, 12));
    assert_eq!(Parser::parse_lowercase("12.BITMAP"), BitmapClaim::Invalid);
}

#[test]
fn ignores_surrounding_white_space() {
    assert_eq!(Parser::parse("  840000.bitmap\n"), district(840000));
    assert_eq!(Parser::parse("\t1.2.bitmap \r\n"), parcel(1, 2));
    assert_eq!(Parser::parse("\u{3000}3.bitmap\u{a0}"), district(3));
    assert_eq!(Parser::parse("3 .bitmap"), BitmapClaim::Invalid);
}

#[test]
fn strips_repeated_suffix() {
    assert_eq!(Parser::parse("7.bitmap.bitmap"), district(7));
    assert_eq!(Parser::parse("1.2.bitmap.bitmap"), parcel(1, 2));
}

#[test]
fn refuses_malformed_claims() {
    for text in [
        "",
        "bitmap",
        ".bitmap",
        "12bitmap",
        "12.bitmap.txt",
        "abc.bitmap",
        "1.2.3.bitmap",
        "5..bitmap",
        ".5.bitmap",
        "-7.bitmap",
        "+.bitmap",
        "1 2.bitmap",
        "١٢.bitmap",
    ] {
        assert_eq!(Parser::parse(text), BitmapClaim::Invalid, "{:?}", text);
    }
}

#[test]
fn numbers_follow_unsigned_parsing() {
    assert_eq!(Parser::parse("+7.bitmap"), district(7));
    assert_eq!(Parser::parse("007.bitmap"), district(7));
    assert_eq!(Parser::parse("18446744073709551615.bitmap"), district(u64::MAX));
    assert_eq!(Parser::parse("18446744073709551616.bitmap"), BitmapClaim::Invalid);
    assert_eq!(Parser::parse("99999999999999999999999.bitmap"), BitmapClaim::Invalid);
    assert_eq!(Parser::parse("1.18446744073709551616.bitmap"), BitmapClaim::Invalid);
    assert_eq!(Parser::parse("00000000000000000000000000001.bitmap"), district(1));
}

#[test]
fn district_claim_round_trip() {
    for n in [0u64, 9, 10, 792435, 840000, u64::MAX] {
        let text = format!("{}.bitmap", decimal_string(n));
        assert_eq!(Parser::parse_lowercase(&text), district(n));
    }
}

#[test]
fn parcel_claim_round_trip() {
    for (a, b) in [(0u64, 0u64), (5, 840000), (u64::MAX, 1)] {
        let text = format!("{}.{}.bitmap", decimal_string(a), decimal_string(b));
        assert_eq!(Parser::parse_lowercase(&text), parcel(a, b));
    }
}

#[test]
fn padding_law_on_examples() {
    for core in ["12.bitmap", "1.2.bitmap", "x.bitmap", ""] {
        let padded = format!(" \u{2028}{}\u{85}\t", core);
        assert_eq!(Parser::parse_lowercase(&padded), Parser::parse_lowercase(core));
    }
}

#[test]
fn white_space_matches_std() {
    for u in 0u32..=0x10FFFF {
        if let Some(c) = char::from_u32(u) {
            assert_eq!(is_white_space_char(c), c.is_whitespace(), "{:x}", u);
        }
    }
}

#[test]
fn trimmed_text_claims_the_same() {
    for text in ["  12.bitmap ", "\n1.2.bitmap\t", " x ", "\u{3000}"] {
        assert_eq!(Parser::parse_lowercase(text), Parser::parse_lowercase(text.trim()));
    }
}
