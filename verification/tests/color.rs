use kryon::Color;

#[test]
fn test_color_from_rgb() {
    let color = Color::rgb(26, 26, 46);
    assert_eq!(color.r(), 26);
    assert_eq!(color.g(), 26);
    assert_eq!(color.b(), 46);
    assert_eq!(color.to_hex_string(), "#1a1a2e");
}

#[test]
fn test_color_from_hex() {
    let color = Color::from_hex(0x1a1a2e);
    assert_eq!(color.to_hex_string(), "#1a1a2e");
}

#[test]
fn test_color_from_hex_str() {
    let color1 = Color::from_hex_str("#1a1a2e").unwrap();
    let color2 = Color::from_hex_str("1a1a2e").unwrap();
    assert_eq!(color1, color2);
    assert_eq!(color1.to_hex_string(), "#1a1a2e");
}

#[test]
fn test_color_constants() {
    assert_eq!(Color::black().to_hex_string(), "#000000");
    assert_eq!(Color::white().to_hex_string(), "#ffffff");
    assert_eq!(Color::red().to_hex_string(), "#ff0000");
}

#[test]
fn test_color_from_hex_str_rejects_garbage() {
    assert!(Color::from_hex_str("").is_none());
    assert!(Color::from_hex_str("#").is_none());
    assert!(Color::from_hex_str("zz00ff").is_none());
    assert!(Color::from_hex_str("#12345678901").is_none());
}

#[test]
fn test_color_masks_to_24_bits() {
    let color = Color::from_hex(0xAA123456);
    assert_eq!(color.as_hex(), 0x123456);
    let parsed = Color::from_hex_str("ff123456").unwrap();
    assert_eq!(parsed.as_hex(), 0x123456);
}
