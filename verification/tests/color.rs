use slint_omarchy::color::Rgba;

#[test]
fn parses_supported_hex_lengths() {
    assert_eq!(Rgba::parse_hex("#F00").unwrap().hex(), "#FF0000");
    assert_eq!(Rgba::parse_hex("#F008").unwrap().hex(), "#FF000088");
    assert_eq!(Rgba::parse_hex("7aa2f7").unwrap().hex(), "#7AA2F7");
    assert_eq!(Rgba::parse_hex("#11223344").unwrap().hex(), "#11223344");
    assert!(Rgba::parse_hex("#12345").is_none());
    assert!(Rgba::parse_hex("#GG0000").is_none());
}

#[test]
fn short_digits_repeat_and_alpha_defaults_to_opaque() {
    assert_eq!(
        Rgba::parse_hex("#f08"),
        Some(Rgba { r: 0xff, g: 0x00, b: 0x88, a: 0xff })
    );
    assert_eq!(
        Rgba::parse_hex("1234"),
        Some(Rgba { r: 0x11, g: 0x22, b: 0x33, a: 0x44 })
    );
    assert_eq!(
        Rgba::parse_hex("#7aa2f780"),
        Some(Rgba { r: 0x7a, g: 0xa2, b: 0xf7, a: 0x80 })
    );
}

#[test]
fn surrounding_white_space_is_ignored() {
    assert_eq!(
        Rgba::parse_hex("  #abc\n"),
        Some(Rgba { r: 0xaa, g: 0xbb, b: 0xcc, a: 0xff })
    );
    assert_eq!(
        Rgba::parse_hex("\u{3000}0a0b0c\t"),
        Some(Rgba { r: 0x0a, g: 0x0b, b: 0x0c, a: 0xff })
    );
}

#[test]
fn rejects_malformed_colours() {
    assert!(Rgba::parse_hex("").is_none());
    assert!(Rgba::parse_hex("#").is_none());
    assert!(Rgba::parse_hex("##fff").is_none());
    assert!(Rgba::parse_hex("#ff ff ff").is_none());
    assert!(Rgba::parse_hex("#12").is_none());
    assert!(Rgba::parse_hex("#1234567").is_none());
    assert!(Rgba::parse_hex("#ééé").is_none());
}

#[test]
fn hex_writes_upper_case_and_drops_opaque_alpha() {
    assert_eq!(Rgba { r: 0, g: 10, b: 255, a: 255 }.hex(), "#000AFF");
    assert_eq!(Rgba { r: 1, g: 2, b: 3, a: 0 }.hex(), "#01020300");
}

#[test]
fn written_colours_read_back_unchanged() {
    for c in [
        Rgba { r: 0, g: 0, b: 0, a: 0 },
        Rgba { r: 255, g: 255, b: 255, a: 255 },
        Rgba { r: 0x7a, g: 0xa2, b: 0xf7, a: 0x12 },
        Rgba { r: 0xf7, g: 0x76, b: 0x8e, a: 255 },
    ] {
        assert_eq!(Rgba::parse_hex(&c.hex()), Some(c));
    }
}
