use suono::color::Color;

#[test]
fn from_hex_red() {
    assert_eq!(Color::from_hex("ff0000"), Some(Color { r: 255, g: 0, b: 0, a: 255 }));
}

#[test]
fn from_hex_white() {
    assert_eq!(Color::from_hex("ffffff"), Some(Color { r: 255, g: 255, b: 255, a: 255 }));
}

#[test]
fn from_hex_invalid_returns_none() {
    assert_eq!(Color::from_hex("zzzzzz"), None);
    assert_eq!(Color::from_hex(""), None);
    assert_eq!(Color::from_hex("-"), None);
    assert_eq!(Color::from_hex("#112233"), None);
    assert_eq!(Color::from_hex(" 112233"), None);
}

#[test]
fn from_hex_mixed_case_and_sign() {
    assert_eq!(Color::from_hex("aBcDeF"), Some(Color { r: 0xab, g: 0xcd, b: 0xef, a: 255 }));
    assert_eq!(Color::from_hex("+0000ff"), Some(Color { r: 0, g: 0, b: 255, a: 255 }));
    assert_eq!(Color::from_hex("7"), Some(Color { r: 0, g: 0, b: 7, a: 255 }));
}

#[test]
fn from_hex_beyond_six_digits() {
    // red keeps only its low eight bits
    assert_eq!(Color::from_hex("1FFFFFF"), Some(Color { r: 255, g: 255, b: 255, a: 255 }));
    assert_eq!(Color::from_hex("7fffffff"), Some(Color { r: 255, g: 255, b: 255, a: 255 }));
    assert_eq!(Color::from_hex("80000000"), None);
}

#[test]
fn from_hex_negative_numbers() {
    assert_eq!(Color::from_hex("-1"), Some(Color { r: 0, g: 0, b: 255, a: 255 }));
    assert_eq!(Color::from_hex("-80000000"), Some(Color { r: 0, g: 0, b: 0, a: 255 }));
    assert_eq!(Color::from_hex("-80000001"), None);
    assert_eq!(Color::from_hex("-010203"), Some(Color { r: 255, g: 254, b: 253, a: 255 }));
}

#[test]
fn hex_round_trip() {
    for (r, g, b) in [(0u8, 0u8, 0u8), (1, 2, 3), (255, 128, 7), (0x11, 0x71, 0x1a)] {
        let text = format!("{:02X}{:02X}{:02X}", r, g, b);
        assert_eq!(Color::from_hex(&text), Some(Color { r, g, b, a: 255 }));
        let lower = format!("{:02x}{:02x}{:02x}", r, g, b);
        assert_eq!(Color::from_hex(&lower), Some(Color { r, g, b, a: 255 }));
    }
}

#[test]
fn named_colors() {
    assert_eq!(Color::black(), Color { r: 0, g: 0, b: 0, a: 255 });
    assert_eq!(Color::white(), Color { r: 255, g: 255, b: 255, a: 255 });
    assert_eq!(Color::transparent(), Color { r: 0, g: 0, b: 0, a: 0 });
    assert_eq!(Color::turquoise(), Color { r: 64, g: 224, b: 208, a: 255 });
}
