use slint_omarchy::theme::{hex, mix, Theme, ThemeMode};

#[test]
fn parses_semantic_and_ansi_palettes() {
    for colors in [
        "background='#1a1b26'\nforeground='#a9b1d6'\naccent='#7aa2f7'\nred='#f7768e'\nyellow='#e0af68'\ngreen='#9ece6a'",
        "background='#1a1b26'\nforeground='#a9b1d6'\naccent='#7aa2f7'\ncolor1='#f7768e'\ncolor3='#e0af68'\ncolor2='#9ece6a'",
    ] {
        let theme = Theme::parse_colors_toml("Test", colors).unwrap().theme;
        assert_eq!(theme.background, [0x1a, 0x1b, 0x26]);
        assert_eq!(theme.accent, [0x7a, 0xa2, 0xf7]);
    }
}

#[test]
fn rejects_incomplete_or_malformed_palette() {
    assert!(Theme::parse_colors_toml("Test", "background='#123456'").is_err());
    assert!(Theme::parse_colors_toml("Test", "background='red'").is_err());
}

const BASE: &str = "background='#000000'\nforeground='#ffffff'\naccent='#7aa2f7'\nred='#f7768e'\nyellow='#e0af68'\ngreen='#9ece6a'";

#[test]
fn missing_and_malformed_colours_are_named() {
    assert_eq!(
        Theme::parse_colors_toml("Test", "background='#123456'").unwrap_err(),
        "missing foreground"
    );
    assert_eq!(
        Theme::parse_colors_toml("Test", "background='red'").unwrap_err(),
        "background must use #RRGGBB"
    );
    assert_eq!(
        Theme::parse_colors_toml("Test", "background=1").unwrap_err(),
        "background must be a color"
    );
    let no_red = "background='#000000'\nforeground='#ffffff'\naccent='#7aa2f7'\nyellow='#e0af68'\ngreen='#9ece6a'";
    assert_eq!(Theme::parse_colors_toml("Test", no_red).unwrap_err(), "missing red");
    let bad_mode = format!("{BASE}\nmode='sepia'");
    assert_eq!(
        Theme::parse_colors_toml("Test", &bad_mode).unwrap_err(),
        "mode must be dark or light"
    );
    assert!(Theme::parse_colors_toml("Test", "background = = 1").is_err());
}

#[test]
fn optional_colours_fall_back_to_mixes() {
    let parsed = Theme::parse_colors_toml("Mine", BASE).unwrap();
    let theme = parsed.theme;
    assert_eq!(parsed.mode, ThemeMode::Unstated);
    assert_eq!(theme.name, "Mine");
    assert_eq!(theme.surface, [13, 13, 13]);
    assert_eq!(theme.inset, [20, 20, 20]);
    assert_eq!(theme.border, [64, 64, 64]);
    assert_eq!(theme.muted, [191, 191, 191]);
    assert_eq!(theme.bright, [255, 255, 255]);
    assert_eq!(theme.danger, [0xf7, 0x76, 0x8e]);
}

#[test]
fn optional_colours_and_mode_are_read() {
    let contents = format!(
        "{BASE}\nmode='light'\nlighter_background='#010203'\ndark_background='#040506'\ncursor='#070809'\ncolor8='#0a0b0c'"
    );
    let parsed = Theme::parse_colors_toml("Mine", &contents).unwrap();
    assert_eq!(parsed.mode, ThemeMode::Light);
    assert_eq!(parsed.theme.surface, [1, 2, 3]);
    assert_eq!(parsed.theme.inset, [4, 5, 6]);
    assert_eq!(parsed.theme.bright, [7, 8, 9]);
    assert_eq!(parsed.theme.border, [10, 11, 12]);
    let dark = format!("{BASE}\nmode='dark'");
    assert_eq!(Theme::parse_colors_toml("Mine", &dark).unwrap().mode, ThemeMode::Dark);
}

#[test]
fn semantic_keys_win_over_ansi_keys() {
    let contents = format!("{BASE}\ncolor1='#010101'");
    let parsed = Theme::parse_colors_toml("Mine", &contents).unwrap();
    assert_eq!(parsed.theme.danger, [0xf7, 0x76, 0x8e]);
}

#[test]
fn hex_reads_only_six_digit_colours() {
    assert_eq!(hex("#1a1b26"), Some([0x1a, 0x1b, 0x26]));
    assert_eq!(hex("#FFFFFF"), Some([255, 255, 255]));
    assert_eq!(hex("1a1b26"), None);
    assert_eq!(hex("#1a1b2"), None);
    assert_eq!(hex("#1a1b2g"), None);
    assert_eq!(hex(" #1a1b26"), None);
}

#[test]
fn mix_rounds_halves_up() {
    assert_eq!(mix([0, 0, 0], [10, 30, 255], 5), [1, 2, 13]);
    assert_eq!(mix([0, 100, 200], [255, 0, 100], 25), [64, 75, 175]);
    assert_eq!(mix([9, 9, 9], [9, 9, 9], 75), [9, 9, 9]);
}

#[test]
fn built_in_themes() {
    let dark = Theme::tokyo_night();
    assert_eq!(dark.name, "Tokyo Night");
    assert_eq!(Some(dark.background), hex("#1a1b26"));
    assert_eq!(Some(dark.success), hex("#9ece6a"));
    let light = Theme::flexoki_light();
    assert_eq!(light.name, "Flexoki Light");
    assert_eq!(Some(light.background), hex("#fffcf0"));
    assert_eq!(Some(light.warning), hex("#855b00"));
}

#[test]
fn failed_loads_fall_back_to_the_dark_theme() {
    let fallback = Theme::loaded_or_default(Err("missing foreground".to_string()));
    assert_eq!(fallback, Theme::tokyo_night());
    let light = Theme::loaded_or_default(Ok(Theme::flexoki_light()));
    assert_eq!(light, Theme::flexoki_light());
}
