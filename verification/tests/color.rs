use i3_style::color::Color;
use i3_style::error::InvalidColorToken;

#[test]
fn parse_reads_six_digits() {
    assert_eq!(Color::parse("#00ff00"), Ok(Color { red: 0, green: 255, blue: 0, alpha: None }));
    assert_eq!(Color::parse("#1793D1"), Ok(Color::rgb(0x17, 0x93, 0xd1)));
    assert_eq!(Color::parse("#AbCdEf"), Ok(Color::rgb(0xab, 0xcd, 0xef)));
}

#[test]
fn parse_reads_eight_digits() {
    assert_eq!(
        Color::parse("#01020380"),
        Ok(Color { red: 1, green: 2, blue: 3, alpha: Some(0x80) })
    );
}

#[test]
fn parse_refuses_everything_else() {
    for bad in ["", "#", "#12345", "#1234567", "#123456789", "00ff00", "#zzzzzz", "#00ff0g", " #00ff00", "#00ff00 ", "#00ff0\u{e9}", "$bg"] {
        assert_eq!(
            Color::parse(bad),
            Err(InvalidColorToken { line: 0, column: 0, token: bad.as_bytes().to_vec() }),
            "{:?}",
            bad
        );
        assert_eq!(Color::parse_token(bad.as_bytes()), None);
    }
}

#[test]
fn to_hex_is_lowercase_and_keeps_the_alpha_channel() {
    assert_eq!(Color::rgb(0, 255, 0).to_hex(), "#00ff00");
    assert_eq!(Color::rgb(0xAB, 0xCD, 0xEF).to_hex(), "#abcdef");
    assert_eq!(Color { red: 1, green: 2, blue: 3, alpha: Some(0) }.to_hex(), "#01020300");
    assert_eq!(Color { red: 9, green: 10, blue: 16, alpha: Some(255) }.to_hex(), "#090a10ff");
    assert_eq!(Color::rgb(18, 52, 86).token(), b"#123456".to_vec());
}

#[test]
fn every_token_parses_back() {
    for v in 0..=255u8 {
        let c = Color { red: v, green: 255 - v, blue: v / 2, alpha: if v % 2 == 0 { Some(v) } else { None } };
        assert_eq!(Color::parse(&c.to_hex()), Ok(c));
        assert_eq!(Color::parse_token(&c.token()), Some(c));
        assert_eq!(c.to_hex().as_bytes(), &c.token()[..]);
    }
}
