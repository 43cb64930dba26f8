//! Theme palettes: the two built-in themes, and the palette that an Omarchy
//! `colors.toml` describes, in either its semantic or its ANSI form.

use crate::color::{byte_text, colour_text, lemma_digits_read_alike, parsed_colour, pair_value, Rgba};
use crate::text::{
    chars_of, hex_digit_value, hex_value, is_hex, is_hex_digit, joined, lemma_upper_hex_round_trip,
    same_text,
};
use vstd::prelude::*;

verus! {

// ---------------------------------------------------------------------------
// The TOML document
// ---------------------------------------------------------------------------

#[verifier::external_type_specification]
#[verifier::external_body]
#[verifier::reject_recursive_types(K)]
#[verifier::reject_recursive_types(V)]
pub struct ExTomlMap<K, V>(toml::map::Map<K, V>);

#[verifier::external_type_specification]
#[verifier::external_body]
pub struct ExTomlValue(toml::Value);

/// What a parsed TOML table holds at its top level: every key, with its text
/// when its value is a string and `None` for any other kind of value.
pub uninterp spec fn table_entries(table: toml::map::Map<String, toml::Value>) -> Map<
    Seq<char>,
    Option<Seq<char>>,
>;

/// What the `toml` crate makes of a document: the entries of its top-level
/// table, or the text of the parse error.
pub uninterp spec fn parsed_toml(contents: Seq<char>) -> Result<
    Map<Seq<char>, Option<Seq<char>>>,
    Seq<char>,
>;

/// `str::parse::<toml::Table>` with the error turned into its text
/// (`ToString` on `toml::de::Error`): the contract claims that the result,
/// table or error text, is the one that `parsed_toml` names for the input.
#[verifier::external_body]
fn parse_table(contents: &str) -> (out: Result<toml::map::Map<String, toml::Value>, String>)
    ensures
        match out {
            Ok(table) => parsed_toml(contents@) == Ok::<
                Map<Seq<char>, Option<Seq<char>>>,
                Seq<char>,
            >(table_entries(table)),
            Err(e) => parsed_toml(contents@) == Err::<Map<Seq<char>, Option<Seq<char>>>, Seq<char>>(
                e@,
            ),
        },
{
    match contents.parse::<toml::Table>() {
        Ok(table) => Ok(table),
        Err(error) => Err(error.to_string()),
    }
}

/// `toml::map::Map::get` followed by `toml::Value::as_str`: the contract
/// claims that a key is found exactly when the table holds it, and that a
/// string value comes back as its text.
#[verifier::external_body]
fn table_text(table: &toml::map::Map<String, toml::Value>, key: &str) -> (out: Option<
    Option<String>,
>)
    ensures
        out is Some <==> table_entries(*table).contains_key(key@),
        out matches Some(v) ==> match v {
            Some(text) => table_entries(*table)[key@] == Some(text@),
            None => table_entries(*table)[key@] is None,
        },
{
    match table.get(key) {
        Some(value) => match value.as_str() {
            Some(text) => Some(Some(text.to_string())),
            None => Some(None),
        },
        None => None,
    }
}

// ---------------------------------------------------------------------------
// Colours
// ---------------------------------------------------------------------------

/// The colour that `#RRGGBB` spells, as its red, green and blue channels.
pub open spec fn rgb_value(value: Seq<char>) -> Option<Seq<u8>> {
    if value.len() == 7 && value[0] == '#' && (forall|i: int|
        1 <= i < 7 ==> is_hex_digit(#[trigger] value[i])) {
        Some(
            seq![
                (16 * hex_digit_value(value[1]) + hex_digit_value(value[2])) as u8,
                (16 * hex_digit_value(value[3]) + hex_digit_value(value[4])) as u8,
                (16 * hex_digit_value(value[5]) + hex_digit_value(value[6])) as u8,
            ],
        )
    } else {
        None
    }
}

/// Reads a colour written exactly as `#RRGGBB`.
pub fn hex(value: &str) -> (out: Option<[u8; 3]>)
    ensures
        match out {
            Some(c) => rgb_value(value@) == Some(c@),
            None => rgb_value(value@) is None,
        },
{
    let chars = chars_of(value);
    if chars.len() != 7 || chars[0] != '#' {
        return None;
    }
    let mut i: usize = 1;
    while i < 7
        invariant
            1 <= i <= 7,
            chars@ == value@,
            chars@.len() == 7,
            forall|j: int| 1 <= j < i ==> is_hex_digit(#[trigger] chars@[j]),
        decreases 7 - i,
    {
        if !is_hex(chars[i]) {
            return None;
        }
        i = i + 1;
    }
    let out = [
        hex_value(chars[1]) * 16 + hex_value(chars[2]),
        hex_value(chars[3]) * 16 + hex_value(chars[4]),
        hex_value(chars[5]) * 16 + hex_value(chars[6]),
    ];
    assert(out@ =~= rgb_value(value@).unwrap());
    Some(out)
}

/// A theme colour is read as the general colour reader reads it: a text
/// that is a theme colour `#RRGGBB` spells the same colour, opaque, for
/// [`parsed_colour`]; and an opaque colour written out by [`colour_text`]
/// is read back as its three channels.
pub proof fn lemma_theme_colours_agree(t: Seq<char>, c: Rgba)
    ensures
        rgb_value(t) matches Some(x) ==> (parsed_colour(t) matches Some(p) && x == seq![
            p.r,
            p.g,
            p.b,
        ] && p.a == 255),
        c.a == 255 ==> rgb_value(colour_text(c)) == Some(seq![c.r, c.g, c.b]),
{
    if rgb_value(t) is Some {
        let d = t.drop_first();
        assert forall|i: int| 0 <= i < d.len() implies is_hex_digit(#[trigger] d[i]) by {
            assert(d[i] == t[i + 1]);
        }
        lemma_digits_read_alike(d);
        assert(seq!['#'] + d =~= t);
        assert(pair_value(d, 0) == 16 * hex_digit_value(t[1]) + hex_digit_value(t[2]));
        assert(pair_value(d, 2) == 16 * hex_digit_value(t[3]) + hex_digit_value(t[4]));
        assert(pair_value(d, 4) == 16 * hex_digit_value(t[5]) + hex_digit_value(t[6]));
    }
    if c.a == 255 {
        let u = colour_text(c);
        assert forall|x: u8| #![auto]
            {
                &&& is_hex_digit(byte_text(x)[0])
                &&& is_hex_digit(byte_text(x)[1])
                &&& 16 * hex_digit_value(byte_text(x)[0]) + hex_digit_value(byte_text(x)[1]) == x
            } by {
            lemma_upper_hex_round_trip(x as int / 16);
            lemma_upper_hex_round_trip(x as int % 16);
        }
        assert(u[1] == byte_text(c.r)[0] && u[2] == byte_text(c.r)[1]);
        assert(u[3] == byte_text(c.g)[0] && u[4] == byte_text(c.g)[1]);
        assert(u[5] == byte_text(c.b)[0] && u[6] == byte_text(c.b)[1]);
        assert forall|i: int| 1 <= i < 7 implies is_hex_digit(#[trigger] u[i]) by {
            if i <= 2 {
                assert(u[i] == byte_text(c.r)[i - 1]);
            } else if i <= 4 {
                assert(u[i] == byte_text(c.g)[i - 3]);
            } else {
                assert(u[i] == byte_text(c.b)[i - 5]);
            }
        }
        assert(rgb_value(u).unwrap() =~= seq![c.r, c.g, c.b]);
    }
}

/// One channel moved `percent` hundredths of the way from `a` to `b`,
/// rounded to the nearest integer with halves rounded up.
pub open spec fn mixed_channel(a: int, b: int, percent: int) -> int {
    (2 * (100 * a + (b - a) * percent) + 100) / 200
}

/// The colour `percent` hundredths of the way from `a` to `b`.
pub open spec fn mixed(a: Seq<u8>, b: Seq<u8>, percent: int) -> Seq<u8> {
    seq![
        mixed_channel(a[0] as int, b[0] as int, percent) as u8,
        mixed_channel(a[1] as int, b[1] as int, percent) as u8,
        mixed_channel(a[2] as int, b[2] as int, percent) as u8,
    ]
}

fn mix_channel(a: u8, b: u8, percent: u8) -> (out: u8)
    requires
        percent <= 100,
    ensures
        out == mixed_channel(a as int, b as int, percent as int),
{
    let a32 = a as u32;
    let b32 = b as u32;
    let p = percent as u32;
    assert(a32 * (100 - p) <= 25500) by (nonlinear_arith)
        requires
            a32 <= 255,
            p <= 100,
    ;
    assert(b32 * p <= 25500) by (nonlinear_arith)
        requires
            b32 <= 255,
            p <= 100,
    ;
    let n = a32 * (100 - p) + b32 * p;
    assert(n == 100 * a32 + (b32 - a32) * p) by (nonlinear_arith)
        requires
            n == a32 * (100 - p) + b32 * p,
    ;
    assert(n <= 25500) by (nonlinear_arith)
        requires
            n == a32 * (100 - p) + b32 * p,
            a32 <= 255,
            b32 <= 255,
            p <= 100,
    ;
    let out = (2 * n + 100) / 200;
    out as u8
}

/// The colour `percent` hundredths of the way from `a` to `b`, each channel
/// rounded to the nearest integer with halves rounded up.
pub fn mix(a: [u8; 3], b: [u8; 3], percent: u8) -> (out: [u8; 3])
    requires
        percent <= 100,
    ensures
        out@ == mixed(a@, b@, percent as int),
{
    let out = [
        mix_channel(a[0], b[0], percent),
        mix_channel(a[1], b[1], percent),
        mix_channel(a[2], b[2], percent),
    ];
    assert(out@ =~= mixed(a@, b@, percent as int));
    out
}

/// A mixed channel is the exact point `percent` hundredths of the way from
/// `a` to `b` rounded to the nearest integer, halves rounded up; it lies
/// between `a` and `b`, is `a` at 0 and `b` at 100, so it is a channel value
/// again.
pub proof fn lemma_mixed_channel_rounds(a: int, b: int, percent: int)
    requires
        0 <= a <= 255,
        0 <= b <= 255,
        0 <= percent <= 100,
    ensures
        100 * mixed_channel(a, b, percent) - 50 <= 100 * a + (b - a) * percent < 100 * mixed_channel(
            a,
            b,
            percent,
        ) + 50,
        a <= b ==> a <= mixed_channel(a, b, percent) <= b,
        b <= a ==> b <= mixed_channel(a, b, percent) <= a,
        percent == 0 ==> mixed_channel(a, b, percent) == a,
        percent == 100 ==> mixed_channel(a, b, percent) == b,
{
    let x = 100 * a + (b - a) * percent;
    let out = mixed_channel(a, b, percent);
    assert(out == (2 * x + 100) / 200);
    assert(a <= b ==> 100 * a <= x <= 100 * b) by (nonlinear_arith)
        requires
            x == 100 * a + (b - a) * percent,
            0 <= percent <= 100,
    ;
    assert(b <= a ==> 100 * b <= x <= 100 * a) by (nonlinear_arith)
        requires
            x == 100 * a + (b - a) * percent,
            0 <= percent <= 100,
    ;
}

// ---------------------------------------------------------------------------
// Themes
// ---------------------------------------------------------------------------

/// A complete palette of semantic colours.
#[derive(Clone, Debug, PartialEq, Eq)]
pub struct Theme {
    pub name: String,
    pub background: [u8; 3],
    pub surface: [u8; 3],
    pub inset: [u8; 3],
    pub foreground: [u8; 3],
    pub bright: [u8; 3],
    pub accent: [u8; 3],
    pub border: [u8; 3],
    pub muted: [u8; 3],
    pub danger: [u8; 3],
    pub warning: [u8; 3],
    pub success: [u8; 3],
}

/// `t` is the built-in dark palette.
pub open spec fn is_tokyo_night(t: Theme) -> bool {
    &&& t.name@ == "Tokyo Night"@
    &&& t.background@ == seq![0x1au8, 0x1b, 0x26]
    &&& t.surface@ == seq![0x24u8, 0x28, 0x3b]
    &&& t.inset@ == seq![0x13u8, 0x14, 0x1c]
    &&& t.foreground@ == seq![0xa9u8, 0xb1, 0xd6]
    &&& t.bright@ == seq![0xc0u8, 0xca, 0xf5]
    &&& t.accent@ == seq![0x7au8, 0xa2, 0xf7]
    &&& t.border@ == seq![0x41u8, 0x48, 0x68]
    &&& t.muted@ == seq![0x73u8, 0x7a, 0xa2]
    &&& t.danger@ == seq![0xf7u8, 0x76, 0x8e]
    &&& t.warning@ == seq![0xe0u8, 0xaf, 0x68]
    &&& t.success@ == seq![0x9eu8, 0xce, 0x6a]
}

/// `t` is the built-in light palette.
pub open spec fn is_flexoki_light(t: Theme) -> bool {
    &&& t.name@ == "Flexoki Light"@
    &&& t.background@ == seq![0xffu8, 0xfc, 0xf0]
    &&& t.surface@ == seq![0xf2u8, 0xf0, 0xe5]
    &&& t.inset@ == seq![0xe6u8, 0xe4, 0xd9]
    &&& t.foreground@ == seq![0x10u8, 0x0f, 0x0f]
    &&& t.bright@ == seq![0x10u8, 0x0f, 0x0f]
    &&& t.accent@ == seq![0x20u8, 0x5e, 0xa6]
    &&& t.border@ == seq![0xb7u8, 0xb5, 0xac]
    &&& t.muted@ == seq![0x57u8, 0x56, 0x53]
    &&& t.danger@ == seq![0xafu8, 0x30, 0x29]
    &&& t.warning@ == seq![0x85u8, 0x5b, 0x00]
    &&& t.success@ == seq![0x52u8, 0x66, 0x00]
}

/// Whether a palette asks for a light or a dark interface, or leaves it open.
#[derive(Clone, Copy, Debug, PartialEq, Eq, Structural)]
pub enum ThemeMode {
    Light,
    Dark,
    Unstated,
}

/// The palette that a `colors.toml` describes, before the status colours are
/// adjusted for contrast, and the mode it asks for.
#[derive(Clone, Debug, PartialEq, Eq)]
pub struct ParsedTheme {
    pub theme: Theme,
    pub mode: ThemeMode,
}

/// The colours of a palette, in spec form.
pub struct PaletteView {
    pub background: Seq<u8>,
    pub surface: Seq<u8>,
    pub inset: Seq<u8>,
    pub foreground: Seq<u8>,
    pub bright: Seq<u8>,
    pub accent: Seq<u8>,
    pub border: Seq<u8>,
    pub muted: Seq<u8>,
    pub danger: Seq<u8>,
    pub warning: Seq<u8>,
    pub success: Seq<u8>,
    pub mode: ThemeMode,
}

/// The colour under the first of `keys` that the table holds: an error when
/// that value is not a string or not `#RRGGBB`, nothing when no key is held.
pub open spec fn colour_lookup(m: Map<Seq<char>, Option<Seq<char>>>, keys: Seq<Seq<char>>) -> Result<
    Option<Seq<u8>>,
    Seq<char>,
>
    decreases keys.len(),
{
    if keys.len() == 0 {
        Ok(None)
    } else if m.contains_key(keys[0]) {
        match m[keys[0]] {
            None => Err(keys[0] + " must be a color"@),
            Some(text) => match rgb_value(text) {
                Some(c) => Ok(Some(c)),
                None => Err(keys[0] + " must use #RRGGBB"@),
            },
        }
    } else {
        colour_lookup(m, keys.drop_first())
    }
}

/// Like [`colour_lookup`], with a missing colour an error naming the first
/// key.
pub open spec fn required_colour(m: Map<Seq<char>, Option<Seq<char>>>, keys: Seq<Seq<char>>) -> Result<
    Seq<u8>,
    Seq<char>,
> {
    match colour_lookup(m, keys) {
        Err(e) => Err(e),
        Ok(Some(c)) => Ok(c),
        Ok(None) => Err("missing "@ + keys[0]),
    }
}

/// The mode that the `mode` key asks for.
pub open spec fn mode_of(m: Map<Seq<char>, Option<Seq<char>>>) -> Result<ThemeMode, Seq<char>> {
    if !m.contains_key("mode"@) {
        Ok(ThemeMode::Unstated)
    } else if m["mode"@] == Some("light"@) {
        Ok(ThemeMode::Light)
    } else if m["mode"@] == Some("dark"@) {
        Ok(ThemeMode::Dark)
    } else {
        Err("mode must be dark or light"@)
    }
}

/// The palette that a table describes, or the first error met in the order
/// background, foreground, accent, mode, surface, inset, bright, border,
/// danger, warning, success. Optional colours default to mixes of the
/// background towards the foreground.
pub open spec fn palette_of(m: Map<Seq<char>, Option<Seq<char>>>) -> Result<PaletteView, Seq<char>> {
    match required_colour(m, seq!["background"@]) {
        Err(e) => Err(e),
        Ok(bg) => match required_colour(m, seq!["foreground"@]) {
            Err(e) => Err(e),
            Ok(fg) => match required_colour(m, seq!["accent"@]) {
                Err(e) => Err(e),
                Ok(accent) => match mode_of(m) {
                    Err(e) => Err(e),
                    Ok(mode) => match colour_lookup(m, seq!["lighter_background"@]) {
                        Err(e) => Err(e),
                        Ok(surface) => match colour_lookup(m, seq!["dark_background"@]) {
                            Err(e) => Err(e),
                            Ok(inset) => match colour_lookup(
                                m,
                                seq!["bright_foreground"@, "selection_foreground"@, "cursor"@],
                            ) {
                                Err(e) => Err(e),
                                Ok(bright) => match colour_lookup(m, seq!["muted"@, "color8"@]) {
                                    Err(e) => Err(e),
                                    Ok(border) => match required_colour(
                                        m,
                                        seq!["red"@, "color1"@],
                                    ) {
                                        Err(e) => Err(e),
                                        Ok(danger) => match required_colour(
                                            m,
                                            seq!["yellow"@, "color3"@],
                                        ) {
                                            Err(e) => Err(e),
                                            Ok(warning) => match required_colour(
                                                m,
                                                seq!["green"@, "color2"@],
                                            ) {
                                                Err(e) => Err(e),
                                                Ok(success) => Ok(
                                                    PaletteView {
                                                        background: bg,
                                                        surface: match surface {
                                                            Some(c) => c,
                                                            None => mixed(bg, fg, 5),
                                                        },
                                                        inset: match inset {
                                                            Some(c) => c,
                                                            None => mixed(bg, fg, 8),
                                                        },
                                                        foreground: fg,
                                                        bright: match bright {
                                                            Some(c) => c,
                                                            None => fg,
                                                        },
                                                        accent,
                                                        border: match border {
                                                            Some(c) => c,
                                                            None => mixed(bg, fg, 25),
                                                        },
                                                        muted: mixed(bg, fg, 75),
                                                        danger,
                                                        warning,
                                                        success,
                                                        mode,
                                                    },
                                                ),
                                            },
                                        },
                                    },
                                },
                            },
                        },
                    },
                },
            },
        },
    }
}

/// What a `colors.toml` document describes: the parse error, or the palette
/// of its table.
pub open spec fn palette_from_toml(contents: Seq<char>) -> Result<PaletteView, Seq<char>> {
    match parsed_toml(contents) {
        Err(e) => Err(e),
        Ok(m) => palette_of(m),
    }
}

/// `t` holds the colours of `p` under the name `name`.
pub open spec fn theme_matches(t: Theme, name: Seq<char>, p: PaletteView) -> bool {
    &&& t.name@ == name
    &&& t.background@ == p.background
    &&& t.surface@ == p.surface
    &&& t.inset@ == p.inset
    &&& t.foreground@ == p.foreground
    &&& t.bright@ == p.bright
    &&& t.accent@ == p.accent
    &&& t.border@ == p.border
    &&& t.muted@ == p.muted
    &&& t.danger@ == p.danger
    &&& t.warning@ == p.warning
    &&& t.success@ == p.success
}

/// The texts of a list of keys.
pub open spec fn key_texts(keys: Seq<&'static str>) -> Seq<Seq<char>> {
    keys.map_values(|k: &'static str| k@)
}

/// `out` is the outcome that `expected` describes.
pub open spec fn colour_outcome(
    out: Result<Option<[u8; 3]>, String>,
    expected: Result<Option<Seq<u8>>, Seq<char>>,
) -> bool {
    match out {
        Ok(Some(c)) => expected == Ok::<Option<Seq<u8>>, Seq<char>>(Some(c@)),
        Ok(None) => expected == Ok::<Option<Seq<u8>>, Seq<char>>(None),
        Err(e) => expected == Err::<Option<Seq<u8>>, Seq<char>>(e@),
    }
}

/// The colour under the first of `keys` that the table holds.
fn lookup_colour(table: &toml::map::Map<String, toml::Value>, keys: &Vec<&'static str>) -> (out:
    Result<Option<[u8; 3]>, String>)
    ensures
        colour_outcome(out, colour_lookup(table_entries(*table), key_texts(keys@))),
{
    let ghost m = table_entries(*table);
    let ghost all = key_texts(keys@);
    assert(all.skip(0) =~= all);
    let mut i: usize = 0;
    while i < keys.len()
        invariant
            i <= keys@.len(),
            m == table_entries(*table),
            all == key_texts(keys@),
            colour_lookup(m, all) == colour_lookup(m, all.skip(i as int)),
        decreases keys@.len() - i,
    {
        let key = keys[i];
        proof {
            assert(all.skip(i as int)[0] == key@);
            assert(all.skip(i as int).drop_first() =~= all.skip(i + 1));
        }
        match table_text(table, key) {
            Some(value) => {
                match value {
                    None => {
                        return Err(joined(key, " must be a color"));
                    },
                    Some(text) => {
                        return match hex(text.as_str()) {
                            Some(c) => Ok(Some(c)),
                            None => Err(joined(key, " must use #RRGGBB")),
                        };
                    },
                }
            },
            None => {},
        }
        i = i + 1;
    }
    assert(all.skip(i as int) =~= Seq::<Seq<char>>::empty());
    Ok(None)
}

/// `out` is the outcome that `expected` describes.
pub open spec fn required_outcome(out: Result<[u8; 3], String>, expected: Result<Seq<u8>, Seq<char>>) -> bool {
    match out {
        Ok(c) => expected == Ok::<Seq<u8>, Seq<char>>(c@),
        Err(e) => expected == Err::<Seq<u8>, Seq<char>>(e@),
    }
}

/// The colour under the first of `keys` that the table holds; its absence
/// is an error naming the first key.
fn required(table: &toml::map::Map<String, toml::Value>, keys: &Vec<&'static str>) -> (out: Result<
    [u8; 3],
    String,
>)
    requires
        keys@.len() > 0,
    ensures
        required_outcome(out, required_colour(table_entries(*table), key_texts(keys@))),
{
    match lookup_colour(table, keys) {
        Err(e) => Err(e),
        Ok(Some(c)) => Ok(c),
        Ok(None) => Err(joined("missing ", keys[0])),
    }
}

/// The mode that the `mode` key asks for.
fn mode_from(table: &toml::map::Map<String, toml::Value>) -> (out: Result<ThemeMode, String>)
    ensures
        match out {
            Ok(mode) => mode_of(table_entries(*table)) == Ok::<ThemeMode, Seq<char>>(mode),
            Err(e) => mode_of(table_entries(*table)) == Err::<ThemeMode, Seq<char>>(e@),
        },
{
    match table_text(table, "mode") {
        None => Ok(ThemeMode::Unstated),
        Some(value) => {
            let is_mode = match &value {
                Some(text) => if same_text(text.as_str(), "light") {
                    Some(ThemeMode::Light)
                } else if same_text(text.as_str(), "dark") {
                    Some(ThemeMode::Dark)
                } else {
                    None
                },
                None => None,
            };
            match is_mode {
                Some(mode) => Ok(mode),
                None => Err("mode must be dark or light".to_owned()),
            }
        },
    }
}

impl Theme {
    /// The built-in dark palette.
    pub fn tokyo_night() -> (out: Self)
        ensures
            is_tokyo_night(out),
    {
        let out = Theme {
            name: "Tokyo Night".to_owned(),
            background: [0x1a, 0x1b, 0x26],
            surface: [0x24, 0x28, 0x3b],
            inset: [0x13, 0x14, 0x1c],
            foreground: [0xa9, 0xb1, 0xd6],
            bright: [0xc0, 0xca, 0xf5],
            accent: [0x7a, 0xa2, 0xf7],
            border: [0x41, 0x48, 0x68],
            muted: [0x73, 0x7a, 0xa2],
            danger: [0xf7, 0x76, 0x8e],
            warning: [0xe0, 0xaf, 0x68],
            success: [0x9e, 0xce, 0x6a],
        };
        assert(out.background@ =~= seq![0x1au8, 0x1b, 0x26]);
        assert(out.surface@ =~= seq![0x24u8, 0x28, 0x3b]);
        assert(out.inset@ =~= seq![0x13u8, 0x14, 0x1c]);
        assert(out.foreground@ =~= seq![0xa9u8, 0xb1, 0xd6]);
        assert(out.bright@ =~= seq![0xc0u8, 0xca, 0xf5]);
        assert(out.accent@ =~= seq![0x7au8, 0xa2, 0xf7]);
        assert(out.border@ =~= seq![0x41u8, 0x48, 0x68]);
        assert(out.muted@ =~= seq![0x73u8, 0x7a, 0xa2]);
        assert(out.danger@ =~= seq![0xf7u8, 0x76, 0x8e]);
        assert(out.warning@ =~= seq![0xe0u8, 0xaf, 0x68]);
        assert(out.success@ =~= seq![0x9eu8, 0xce, 0x6a]);
        out
    }

    /// The built-in light palette.
    pub fn flexoki_light() -> (out: Self)
        ensures
            is_flexoki_light(out),
    {
        let out = Theme {
            name: "Flexoki Light".to_owned(),
            background: [0xff, 0xfc, 0xf0],
            surface: [0xf2, 0xf0, 0xe5],
            inset: [0xe6, 0xe4, 0xd9],
            foreground: [0x10, 0x0f, 0x0f],
            bright: [0x10, 0x0f, 0x0f],
            accent: [0x20, 0x5e, 0xa6],
            border: [0xb7, 0xb5, 0xac],
            muted: [0x57, 0x56, 0x53],
            danger: [0xaf, 0x30, 0x29],
            warning: [0x85, 0x5b, 0x00],
            success: [0x52, 0x66, 0x00],
        };
        assert(out.background@ =~= seq![0xffu8, 0xfc, 0xf0]);
        assert(out.surface@ =~= seq![0xf2u8, 0xf0, 0xe5]);
        assert(out.inset@ =~= seq![0xe6u8, 0xe4, 0xd9]);
        assert(out.foreground@ =~= seq![0x10u8, 0x0f, 0x0f]);
        assert(out.bright@ =~= seq![0x10u8, 0x0f, 0x0f]);
        assert(out.accent@ =~= seq![0x20u8, 0x5e, 0xa6]);
        assert(out.border@ =~= seq![0xb7u8, 0xb5, 0xac]);
        assert(out.muted@ =~= seq![0x57u8, 0x56, 0x53]);
        assert(out.danger@ =~= seq![0xafu8, 0x30, 0x29]);
        assert(out.warning@ =~= seq![0x85u8, 0x5b, 0x00]);
        assert(out.success@ =~= seq![0x52u8, 0x66, 0x00]);
        out
    }

    /// The loaded theme, or the built-in dark theme as a whole when loading
    /// failed.
    pub fn loaded_or_default(loaded: Result<Theme, String>) -> (out: Self)
        ensures
            match loaded {
                Ok(t) => out == t,
                Err(_) => is_tokyo_night(out),
            },
    {
        match loaded {
            Ok(t) => t,
            Err(_) => Self::tokyo_night(),
        }
    }

    /// Reads the palette of an Omarchy `colors.toml`, semantic keys first
    /// and ANSI `colorN` keys as fallbacks, with `name` as the theme's name.
    /// The status colours come back as written; the mode tells whether they
    /// still have to be darkened against a light background.
    pub fn parse_colors_toml(name: &str, contents: &str) -> (out: Result<ParsedTheme, String>)
        ensures
            match out {
                Ok(p) => palette_from_toml(contents@) matches Ok(v) && theme_matches(
                    p.theme,
                    name@,
                    v,
                ) && p.mode == v.mode,
                Err(e) => palette_from_toml(contents@) == Err::<PaletteView, Seq<char>>(e@),
            },
    {
        let table = match parse_table(contents) {
            Ok(table) => table,
            Err(e) => return Err(e),
        };
        let ghost m = table_entries(table);
        let background_keys: Vec<&'static str> = vec!["background"];
        assert(key_texts(background_keys@) =~= seq!["background"@]);
        let foreground_keys: Vec<&'static str> = vec!["foreground"];
        assert(key_texts(foreground_keys@) =~= seq!["foreground"@]);
        let accent_keys: Vec<&'static str> = vec!["accent"];
        assert(key_texts(accent_keys@) =~= seq!["accent"@]);
        let surface_keys: Vec<&'static str> = vec!["lighter_background"];
        assert(key_texts(surface_keys@) =~= seq!["lighter_background"@]);
        let inset_keys: Vec<&'static str> = vec!["dark_background"];
        assert(key_texts(inset_keys@) =~= seq!["dark_background"@]);
        let bright_keys: Vec<&'static str> = vec!["bright_foreground", "selection_foreground", "cursor"];
        assert(key_texts(bright_keys@) =~= seq!["bright_foreground"@, "selection_foreground"@, "cursor"@]);
        let border_keys: Vec<&'static str> = vec!["muted", "color8"];
        assert(key_texts(border_keys@) =~= seq!["muted"@, "color8"@]);
        let danger_keys: Vec<&'static str> = vec!["red", "color1"];
        assert(key_texts(danger_keys@) =~= seq!["red"@, "color1"@]);
        let warning_keys: Vec<&'static str> = vec!["yellow", "color3"];
        assert(key_texts(warning_keys@) =~= seq!["yellow"@, "color3"@]);
        let success_keys: Vec<&'static str> = vec!["green", "color2"];
        assert(key_texts(success_keys@) =~= seq!["green"@, "color2"@]);
        let background = match required(&table, &background_keys) {
            Ok(c) => c,
            Err(e) => return Err(e),
        };
        let foreground = match required(&table, &foreground_keys) {
            Ok(c) => c,
            Err(e) => return Err(e),
        };
        let accent = match required(&table, &accent_keys) {
            Ok(c) => c,
            Err(e) => return Err(e),
        };
        let mode = match mode_from(&table) {
            Ok(mode) => mode,
            Err(e) => return Err(e),
        };
        let surface = match lookup_colour(&table, &surface_keys) {
            Ok(Some(c)) => c,
            Ok(None) => mix(background, foreground, 5),
            Err(e) => return Err(e),
        };
        let inset = match lookup_colour(&table, &inset_keys) {
            Ok(Some(c)) => c,
            Ok(None) => mix(background, foreground, 8),
            Err(e) => return Err(e),
        };
        let bright = match lookup_colour(
            &table,
            &bright_keys,
        ) {
            Ok(Some(c)) => c,
            Ok(None) => foreground,
            Err(e) => return Err(e),
        };
        let border = match lookup_colour(&table, &border_keys) {
            Ok(Some(c)) => c,
            Ok(None) => mix(background, foreground, 25),
            Err(e) => return Err(e),
        };
        let muted = mix(background, foreground, 75);
        let danger = match required(&table, &danger_keys) {
            Ok(c) => c,
            Err(e) => return Err(e),
        };
        let warning = match required(&table, &warning_keys) {
            Ok(c) => c,
            Err(e) => return Err(e),
        };
        let success = match required(&table, &success_keys) {
            Ok(c) => c,
            Err(e) => return Err(e),
        };
        Ok(
            ParsedTheme {
                theme: Theme {
                    name: name.to_owned(),
                    background,
                    surface,
                    inset,
                    foreground,
                    bright,
                    accent,
                    border,
                    muted,
                    danger,
                    warning,
                    success,
                },
                mode,
            },
        )
    }
}

/// The colour written under `key`: its text read as `#RRGGBB`, when the
/// table holds a string there.
pub open spec fn colour_at(m: Map<Seq<char>, Option<Seq<char>>>, key: Seq<char>) -> Option<Seq<u8>> {
    if m.contains_key(key) {
        match m[key] {
            Some(text) => rgb_value(text),
            None => None,
        }
    } else {
        None
    }
}

proof fn lemma_lookup_decided(m: Map<Seq<char>, Option<Seq<char>>>, keys: Seq<Seq<char>>, j: int)
    requires
        0 <= j < keys.len(),
        m.contains_key(keys[j]),
        forall|i: int| 0 <= i < j ==> !m.contains_key(#[trigger] keys[i]),
    ensures
        colour_lookup(m, keys) == colour_lookup(m, seq![keys[j]]),
        colour_lookup(m, keys) matches Ok(Some(c)) ==> colour_at(m, keys[j]) == Some(c),
        colour_lookup(m, keys) is Ok ==> colour_lookup(m, keys) == Ok::<
            Option<Seq<u8>>,
            Seq<char>,
        >(colour_at(m, keys[j])) && colour_at(m, keys[j]) is Some,
    decreases keys.len(),
{
    if j > 0 {
        let rest = keys.drop_first();
        assert(!m.contains_key(keys[0]));
        assert forall|i: int| 0 <= i < j - 1 implies !m.contains_key(#[trigger] rest[i]) by {
            assert(rest[i] == keys[i + 1]);
        }
        assert(rest[j - 1] == keys[j]);
        lemma_lookup_decided(m, rest, j - 1);
    }
}

proof fn lemma_lookup_absent(m: Map<Seq<char>, Option<Seq<char>>>, keys: Seq<Seq<char>>)
    requires
        forall|i: int| 0 <= i < keys.len() ==> !m.contains_key(#[trigger] keys[i]),
    ensures
        colour_lookup(m, keys) == Ok::<Option<Seq<u8>>, Seq<char>>(None),
    decreases keys.len(),
{
    if keys.len() > 0 {
        let rest = keys.drop_first();
        assert(!m.contains_key(keys[0]));
        assert forall|i: int| 0 <= i < rest.len() implies !m.contains_key(#[trigger] rest[i]) by {
            assert(rest[i] == keys[i + 1]);
        }
        lemma_lookup_absent(m, rest);
    }
}

proof fn lemma_lookup_of_two(m: Map<Seq<char>, Option<Seq<char>>>, first: Seq<char>, second: Seq<char>)
    ensures
        m.contains_key(first) ==> colour_lookup(m, seq![first, second]) == colour_lookup(
            m,
            seq![first],
        ),
        !m.contains_key(first) && m.contains_key(second) ==> colour_lookup(m, seq![first, second])
            == colour_lookup(m, seq![second]),
        !m.contains_key(first) && !m.contains_key(second) ==> colour_lookup(m, seq![first, second])
            == Ok::<Option<Seq<u8>>, Seq<char>>(None),
{
    let keys = seq![first, second];
    if m.contains_key(first) {
        lemma_lookup_decided(m, keys, 0);
    } else if m.contains_key(second) {
        lemma_lookup_decided(m, keys, 1);
    } else {
        lemma_lookup_absent(m, keys);
    }
}

proof fn lemma_lookup_of_one(m: Map<Seq<char>, Option<Seq<char>>>, key: Seq<char>)
    ensures
        colour_lookup(m, seq![key]) is Ok ==> colour_lookup(m, seq![key]) == Ok::<
            Option<Seq<u8>>,
            Seq<char>,
        >(colour_at(m, key)),
        colour_lookup(m, seq![key]) is Ok && m.contains_key(key) ==> colour_at(m, key) is Some,
        !m.contains_key(key) ==> colour_lookup(m, seq![key]) == Ok::<Option<Seq<u8>>, Seq<char>>(
            None,
        ),
{
    if m.contains_key(key) {
        lemma_lookup_decided(m, seq![key], 0);
    } else {
        lemma_lookup_absent(m, seq![key]);
    }
}

proof fn lemma_palette_required(m: Map<Seq<char>, Option<Seq<char>>>, p: PaletteView)
    requires
        palette_of(m) == Ok::<PaletteView, Seq<char>>(p),
    ensures
        colour_at(m, "background"@) == Some(p.background),
        colour_at(m, "foreground"@) == Some(p.foreground),
        colour_at(m, "accent"@) == Some(p.accent),
        !m.contains_key("mode"@) ==> p.mode == ThemeMode::Unstated,
        m.contains_key("mode"@) && m["mode"@] == Some("light"@) ==> p.mode == ThemeMode::Light,
        m.contains_key("mode"@) && m["mode"@] == Some("dark"@) ==> p.mode == ThemeMode::Dark,
{
    lemma_lookup_of_one(m, "background"@);
    lemma_lookup_of_one(m, "foreground"@);
    lemma_lookup_of_one(m, "accent"@);
    reveal_strlit("dark");
    reveal_strlit("light");
    assert("dark"@.len() != "light"@.len());
}

proof fn lemma_palette_defaults(m: Map<Seq<char>, Option<Seq<char>>>, p: PaletteView)
    requires
        palette_of(m) == Ok::<PaletteView, Seq<char>>(p),
    ensures
        m.contains_key("lighter_background"@) ==> colour_at(m, "lighter_background"@) == Some(
            p.surface,
        ),
        !m.contains_key("lighter_background"@) ==> p.surface == mixed(p.background, p.foreground, 5),
        m.contains_key("dark_background"@) ==> colour_at(m, "dark_background"@) == Some(p.inset),
        !m.contains_key("dark_background"@) ==> p.inset == mixed(p.background, p.foreground, 8),
        p.muted == mixed(p.background, p.foreground, 75),
{
    lemma_lookup_of_one(m, "lighter_background"@);
    lemma_lookup_of_one(m, "dark_background"@);
}

proof fn lemma_palette_bright(m: Map<Seq<char>, Option<Seq<char>>>, p: PaletteView)
    requires
        palette_of(m) == Ok::<PaletteView, Seq<char>>(p),
    ensures
        m.contains_key("bright_foreground"@) ==> colour_at(m, "bright_foreground"@) == Some(
            p.bright,
        ),
        !m.contains_key("bright_foreground"@) && m.contains_key("selection_foreground"@) ==> colour_at(
            m,
            "selection_foreground"@,
        ) == Some(p.bright),
        !m.contains_key("bright_foreground"@) && !m.contains_key("selection_foreground"@)
            && m.contains_key("cursor"@) ==> colour_at(m, "cursor"@) == Some(p.bright),
        !m.contains_key("bright_foreground"@) && !m.contains_key("selection_foreground"@)
            && !m.contains_key("cursor"@) ==> p.bright == p.foreground,
{
    let bright_keys = seq!["bright_foreground"@, "selection_foreground"@, "cursor"@];
    if m.contains_key(bright_keys[0]) {
        lemma_lookup_decided(m, bright_keys, 0);
    } else if m.contains_key(bright_keys[1]) {
        lemma_lookup_decided(m, bright_keys, 1);
    } else if m.contains_key(bright_keys[2]) {
        lemma_lookup_decided(m, bright_keys, 2);
    } else {
        lemma_lookup_absent(m, bright_keys);
    }
}

proof fn lemma_palette_border(m: Map<Seq<char>, Option<Seq<char>>>, p: PaletteView)
    requires
        palette_of(m) == Ok::<PaletteView, Seq<char>>(p),
    ensures
        m.contains_key("muted"@) ==> colour_at(m, "muted"@) == Some(p.border),
        !m.contains_key("muted"@) && m.contains_key("color8"@) ==> colour_at(m, "color8"@) == Some(
            p.border,
        ),
        !m.contains_key("muted"@) && !m.contains_key("color8"@) ==> p.border == mixed(
            p.background,
            p.foreground,
            25,
        ),
{
    lemma_lookup_of_two(m, "muted"@, "color8"@);
    lemma_lookup_of_one(m, "muted"@);
    lemma_lookup_of_one(m, "color8"@);
}

proof fn lemma_palette_status(m: Map<Seq<char>, Option<Seq<char>>>, p: PaletteView)
    requires
        palette_of(m) == Ok::<PaletteView, Seq<char>>(p),
    ensures
        m.contains_key("red"@) ==> colour_at(m, "red"@) == Some(p.danger),
        !m.contains_key("red"@) ==> colour_at(m, "color1"@) == Some(p.danger),
        m.contains_key("yellow"@) ==> colour_at(m, "yellow"@) == Some(p.warning),
        !m.contains_key("yellow"@) ==> colour_at(m, "color3"@) == Some(p.warning),
        m.contains_key("green"@) ==> colour_at(m, "green"@) == Some(p.success),
        !m.contains_key("green"@) ==> colour_at(m, "color2"@) == Some(p.success),
{
    lemma_lookup_of_two(m, "red"@, "color1"@);
    lemma_lookup_of_one(m, "red"@);
    lemma_lookup_of_one(m, "color1"@);
    lemma_lookup_of_two(m, "yellow"@, "color3"@);
    lemma_lookup_of_one(m, "yellow"@);
    lemma_lookup_of_one(m, "color3"@);
    lemma_lookup_of_two(m, "green"@, "color2"@);
    lemma_lookup_of_one(m, "green"@);
    lemma_lookup_of_one(m, "color2"@);
}

/// Where each colour of a palette read from a table comes from: the
/// background, foreground and accent from their keys; the surface, inset and
/// border from `lighter_background`, `dark_background` and `muted` (else
/// `color8`), or else from the background mixed 5, 8 and 25 hundredths of
/// the way to the foreground; the muted colour is always that mix at 75
/// hundredths; the bright colour from the first of `bright_foreground`,
/// `selection_foreground` and `cursor` that the table holds, or else the
/// foreground; the danger, warning and success colours from `red`, `yellow`
/// and `green`, or, when those are absent, from `color1`, `color3` and
/// `color2`.
pub proof fn lemma_palette_colours(m: Map<Seq<char>, Option<Seq<char>>>, p: PaletteView)
    requires
        palette_of(m) == Ok::<PaletteView, Seq<char>>(p),
    ensures
        colour_at(m, "background"@) == Some(p.background),
        colour_at(m, "foreground"@) == Some(p.foreground),
        colour_at(m, "accent"@) == Some(p.accent),
        m.contains_key("lighter_background"@) ==> colour_at(m, "lighter_background"@) == Some(
            p.surface,
        ),
        !m.contains_key("lighter_background"@) ==> p.surface == mixed(p.background, p.foreground, 5),
        m.contains_key("dark_background"@) ==> colour_at(m, "dark_background"@) == Some(p.inset),
        !m.contains_key("dark_background"@) ==> p.inset == mixed(p.background, p.foreground, 8),
        m.contains_key("bright_foreground"@) ==> colour_at(m, "bright_foreground"@) == Some(
            p.bright,
        ),
        !m.contains_key("bright_foreground"@) && m.contains_key("selection_foreground"@) ==> colour_at(
            m,
            "selection_foreground"@,
        ) == Some(p.bright),
        !m.contains_key("bright_foreground"@) && !m.contains_key("selection_foreground"@)
            && m.contains_key("cursor"@) ==> colour_at(m, "cursor"@) == Some(p.bright),
        !m.contains_key("bright_foreground"@) && !m.contains_key("selection_foreground"@)
            && !m.contains_key("cursor"@) ==> p.bright == p.foreground,
        m.contains_key("muted"@) ==> colour_at(m, "muted"@) == Some(p.border),
        !m.contains_key("muted"@) && m.contains_key("color8"@) ==> colour_at(m, "color8"@) == Some(
            p.border,
        ),
        !m.contains_key("muted"@) && !m.contains_key("color8"@) ==> p.border == mixed(
            p.background,
            p.foreground,
            25,
        ),
        p.muted == mixed(p.background, p.foreground, 75),
        m.contains_key("red"@) ==> colour_at(m, "red"@) == Some(p.danger),
        !m.contains_key("red"@) ==> colour_at(m, "color1"@) == Some(p.danger),
        m.contains_key("yellow"@) ==> colour_at(m, "yellow"@) == Some(p.warning),
        !m.contains_key("yellow"@) ==> colour_at(m, "color3"@) == Some(p.warning),
        m.contains_key("green"@) ==> colour_at(m, "green"@) == Some(p.success),
        !m.contains_key("green"@) ==> colour_at(m, "color2"@) == Some(p.success),
        !m.contains_key("mode"@) ==> p.mode == ThemeMode::Unstated,
        m.contains_key("mode"@) && m["mode"@] == Some("light"@) ==> p.mode == ThemeMode::Light,
        m.contains_key("mode"@) && m["mode"@] == Some("dark"@) ==> p.mode == ThemeMode::Dark,
{
    lemma_palette_required(m, p);
    lemma_palette_defaults(m, p);
    lemma_palette_bright(m, p);
    lemma_palette_border(m, p);
    lemma_palette_status(m, p);
}

/// A table is read into a palette whenever the background, foreground and
/// accent are `#RRGGBB` strings, the mode, if given, is `light` or `dark`,
/// every optional colour key that is present holds a `#RRGGBB` string, and
/// each status colour is a `#RRGGBB` string under its semantic key or, when
/// that key is absent, under its ANSI key.
pub proof fn lemma_palette_succeeds(m: Map<Seq<char>, Option<Seq<char>>>)
    requires
        colour_at(m, "background"@) is Some,
        colour_at(m, "foreground"@) is Some,
        colour_at(m, "accent"@) is Some,
        m.contains_key("mode"@) ==> m["mode"@] == Some("light"@) || m["mode"@] == Some("dark"@),
        m.contains_key("lighter_background"@) ==> colour_at(m, "lighter_background"@) is Some,
        m.contains_key("dark_background"@) ==> colour_at(m, "dark_background"@) is Some,
        m.contains_key("bright_foreground"@) ==> colour_at(m, "bright_foreground"@) is Some,
        m.contains_key("selection_foreground"@) ==> colour_at(m, "selection_foreground"@) is Some,
        m.contains_key("cursor"@) ==> colour_at(m, "cursor"@) is Some,
        m.contains_key("muted"@) ==> colour_at(m, "muted"@) is Some,
        m.contains_key("color8"@) ==> colour_at(m, "color8"@) is Some,
        colour_at(m, "red"@) is Some || (!m.contains_key("red"@) && colour_at(m, "color1"@) is Some),
        colour_at(m, "yellow"@) is Some || (!m.contains_key("yellow"@) && colour_at(m, "color3"@) is Some),
        colour_at(m, "green"@) is Some || (!m.contains_key("green"@) && colour_at(m, "color2"@) is Some),
    ensures
        palette_of(m) is Ok,
{
    assert(required_colour(m, seq!["background"@]) is Ok) by {
        lemma_present_colour_found(m, seq!["background"@], 0);
    }
    assert(required_colour(m, seq!["foreground"@]) is Ok) by {
        lemma_present_colour_found(m, seq!["foreground"@], 0);
    }
    assert(required_colour(m, seq!["accent"@]) is Ok) by {
        lemma_present_colour_found(m, seq!["accent"@], 0);
    }
    assert(colour_lookup(m, seq!["lighter_background"@]) is Ok) by {
        lemma_optional_colour_found(m, seq!["lighter_background"@]);
    }
    assert(colour_lookup(m, seq!["dark_background"@]) is Ok) by {
        lemma_optional_colour_found(m, seq!["dark_background"@]);
    }
    assert(colour_lookup(m, seq!["bright_foreground"@, "selection_foreground"@, "cursor"@]) is Ok)
        by {
        lemma_optional_colour_found(
            m,
            seq!["bright_foreground"@, "selection_foreground"@, "cursor"@],
        );
    }
    assert(colour_lookup(m, seq!["muted"@, "color8"@]) is Ok) by {
        lemma_optional_colour_found(m, seq!["muted"@, "color8"@]);
    }
    assert(required_colour(m, seq!["red"@, "color1"@]) is Ok) by {
        lemma_status_colour_found(m, "red"@, "color1"@);
    }
    assert(required_colour(m, seq!["yellow"@, "color3"@]) is Ok) by {
        lemma_status_colour_found(m, "yellow"@, "color3"@);
    }
    assert(required_colour(m, seq!["green"@, "color2"@]) is Ok) by {
        lemma_status_colour_found(m, "green"@, "color2"@);
    }
    assert(mode_of(m) is Ok);
    lemma_palette_ok_when_parts_ok(m);
}

proof fn lemma_palette_ok_when_parts_ok(m: Map<Seq<char>, Option<Seq<char>>>)
    requires
        required_colour(m, seq!["background"@]) is Ok,
        required_colour(m, seq!["foreground"@]) is Ok,
        required_colour(m, seq!["accent"@]) is Ok,
        mode_of(m) is Ok,
        colour_lookup(m, seq!["lighter_background"@]) is Ok,
        colour_lookup(m, seq!["dark_background"@]) is Ok,
        colour_lookup(m, seq!["bright_foreground"@, "selection_foreground"@, "cursor"@]) is Ok,
        colour_lookup(m, seq!["muted"@, "color8"@]) is Ok,
        required_colour(m, seq!["red"@, "color1"@]) is Ok,
        required_colour(m, seq!["yellow"@, "color3"@]) is Ok,
        required_colour(m, seq!["green"@, "color2"@]) is Ok,
    ensures
        palette_of(m) is Ok,
{
}

proof fn lemma_status_colour_found(m: Map<Seq<char>, Option<Seq<char>>>, semantic: Seq<char>, ansi: Seq<char>)
    requires
        colour_at(m, semantic) is Some || (!m.contains_key(semantic) && colour_at(m, ansi) is Some),
    ensures
        required_colour(m, seq![semantic, ansi]) is Ok,
{
    if m.contains_key(semantic) {
        lemma_present_colour_found(m, seq![semantic, ansi], 0);
    } else {
        lemma_present_colour_found(m, seq![semantic, ansi], 1);
    }
}

proof fn lemma_present_colour_found(m: Map<Seq<char>, Option<Seq<char>>>, keys: Seq<Seq<char>>, j: int)
    requires
        0 <= j < keys.len(),
        colour_at(m, keys[j]) is Some,
        forall|i: int| 0 <= i < j ==> !m.contains_key(#[trigger] keys[i]),
    ensures
        colour_lookup(m, keys) == Ok::<Option<Seq<u8>>, Seq<char>>(colour_at(m, keys[j])),
{
    lemma_lookup_decided(m, keys, j);
    assert(seq![keys[j]][0] == keys[j]);
}

proof fn lemma_optional_colour_found(m: Map<Seq<char>, Option<Seq<char>>>, keys: Seq<Seq<char>>)
    requires
        forall|i: int| 0 <= i < keys.len() && m.contains_key(#[trigger] keys[i]) ==> colour_at(m, keys[i]) is Some,
    ensures
        colour_lookup(m, keys) is Ok,
    decreases keys.len(),
{
    if keys.len() > 0 {
        if m.contains_key(keys[0]) {
            lemma_present_colour_found(m, keys, 0);
        } else {
            let rest = keys.drop_first();
            assert forall|i: int| 0 <= i < rest.len() && m.contains_key(#[trigger] rest[i]) implies colour_at(m, rest[i]) is Some by {
                assert(rest[i] == keys[i + 1]);
            }
            lemma_optional_colour_found(m, rest);
        }
    }
}

/// The first problem in a table is the error it is refused with: without a
/// `background` key it is "missing background"; a `background` that is not
/// a string "must be a color", and one that is not `#RRGGBB` "must use
/// #RRGGBB"; with a good background and no `foreground` it is "missing
/// foreground"; and with good background, foreground and accent, a `mode`
/// other than `light` or `dark` is refused.
pub proof fn lemma_palette_errors(m: Map<Seq<char>, Option<Seq<char>>>)
    ensures
        !m.contains_key("background"@) ==> palette_of(m) == Err::<PaletteView, Seq<char>>(
            "missing "@ + "background"@,
        ),
        m.contains_key("background"@) && m["background"@] is None ==> palette_of(m) == Err::<
            PaletteView,
            Seq<char>,
        >("background"@ + " must be a color"@),
        m.contains_key("background"@) && (m["background"@] matches Some(t) && rgb_value(t) is None)
            ==> palette_of(m) == Err::<PaletteView, Seq<char>>(
            "background"@ + " must use #RRGGBB"@,
        ),
        colour_at(m, "background"@) is Some && !m.contains_key("foreground"@) ==> palette_of(m)
            == Err::<PaletteView, Seq<char>>("missing "@ + "foreground"@),
        colour_at(m, "background"@) is Some && colour_at(m, "foreground"@) is Some && colour_at(
            m,
            "accent"@,
        ) is Some && m.contains_key("mode"@) && m["mode"@] != Some("light"@) && m["mode"@] != Some(
            "dark"@,
        ) ==> palette_of(m) == Err::<PaletteView, Seq<char>>("mode must be dark or light"@),
{
    lemma_lookup_of_one(m, "background"@);
    lemma_lookup_of_one(m, "foreground"@);
    lemma_lookup_of_one(m, "accent"@);
    if colour_at(m, "background"@) is Some {
        lemma_present_colour_found(m, seq!["background"@], 0);
    }
    if colour_at(m, "foreground"@) is Some {
        lemma_present_colour_found(m, seq!["foreground"@], 0);
    }
    if colour_at(m, "accent"@) is Some {
        lemma_present_colour_found(m, seq!["accent"@], 0);
    }
}

/// A colour may be given under its semantic key or, when that key is
/// absent, under its ANSI key; a semantic key that is present decides alone.
pub proof fn lemma_semantic_or_ansi_key(
    m: Map<Seq<char>, Option<Seq<char>>>,
    semantic: Seq<char>,
    ansi: Seq<char>,
)
    ensures
        !m.contains_key(semantic) ==> colour_lookup(m, seq![semantic, ansi]) == colour_lookup(
            m,
            seq![ansi],
        ),
        m.contains_key(semantic) ==> colour_lookup(m, seq![semantic, ansi]) == colour_lookup(
            m,
            seq![semantic],
        ),
{
    let both = seq![semantic, ansi];
    assert(both.drop_first() =~= seq![ansi]);
    assert(seq![ansi].drop_first() =~= Seq::<Seq<char>>::empty());
    assert(seq![semantic].drop_first() =~= Seq::<Seq<char>>::empty());
}

} // verus!
