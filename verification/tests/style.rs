use dirdocs::style::{
    apply_word, check_pairs_apart, hex_digit, hex_pair, member_str, or_resolve, parse_color,
    parse_hex_rgb, parse_style_string, record_style, resolve, style_of, style_of_words, style_or,
    table_theme, tree_theme, try_parse_style_string, try_value_to_style, value_to_style, Color,
    Style, StyleError, Theme,
};

fn plain() -> Style {
    Style::new()
}

fn fg(c: Color) -> Style {
    Style { foreground: Some(c), ..plain() }
}

fn json(text: &str) -> serde_json::Value {
    serde_json::from_str(text).expect("valid JSON in the test")
}

#[test]
fn colors_by_name() {
    let table: &[(&str, Color)] = &[
        ("black", Color::Black),
        ("red", Color::Red),
        ("green", Color::Green),
        ("yellow", Color::Yellow),
        ("blue", Color::Blue),
        ("purple", Color::Purple),
        ("magenta", Color::Purple),
        ("cyan", Color::Cyan),
        ("white", Color::White),
        ("dark_gray", Color::Rgb(128, 128, 128)),
        ("grey", Color::Rgb(128, 128, 128)),
        ("gray", Color::Rgb(128, 128, 128)),
        ("light_black", Color::Rgb(96, 96, 96)),
        ("light_white", Color::Rgb(240, 240, 240)),
        ("light_red", Color::LightRed),
        ("light_green", Color::LightGreen),
        ("light_yellow", Color::LightYellow),
        ("light_blue", Color::LightBlue),
        ("light_purple", Color::LightPurple),
        ("light_magenta", Color::LightPurple),
        ("light_cyan", Color::LightCyan),
    ];
    for (name, color) in table {
        assert_eq!(parse_color(name), Some(*color), "{}", name);
    }
}

#[test]
fn unknown_color_names() {
    assert_eq!(parse_color(""), None);
    assert_eq!(parse_color("Red"), None);
    assert_eq!(parse_color("light_gray"), None);
    assert_eq!(parse_color("#ff0000"), None);
}

#[test]
fn hex_digits_and_pairs() {
    assert_eq!(hex_digit(b'0'), Some(0));
    assert_eq!(hex_digit(b'9'), Some(9));
    assert_eq!(hex_digit(b'a'), Some(10));
    assert_eq!(hex_digit(b'f'), Some(15));
    assert_eq!(hex_digit(b'A'), Some(10));
    assert_eq!(hex_digit(b'F'), Some(15));
    assert_eq!(hex_digit(b'g'), None);
    assert_eq!(hex_digit(b'/'), None);
    assert_eq!(hex_digit(b':'), None);
    assert_eq!(hex_digit(b'+'), None);
    assert_eq!(hex_pair(b'f', b'f'), Some(255));
    assert_eq!(hex_pair(b'0', b'0'), Some(0));
    assert_eq!(hex_pair(b'1', b'0'), Some(16));
    assert_eq!(hex_pair(b'+', b'f'), Some(15));
    assert_eq!(hex_pair(b'f', b'+'), None);
    assert_eq!(hex_pair(b'-', b'1'), None);
    assert_eq!(hex_pair(b'+', b'+'), None);
    for hi in 0u8..=255 {
        for lo in [b'0', b'7', b'c', b'E', b'+', b' ', 0xc3] {
            let text = [hi, lo];
            let want = std::str::from_utf8(&text).ok().and_then(|t| u8::from_str_radix(t, 16).ok());
            if std::str::from_utf8(&text).is_ok() {
                assert_eq!(hex_pair(hi, lo), want, "{:?}", text);
            }
        }
    }
}

#[test]
fn hex_colors() {
    assert_eq!(parse_hex_rgb("#ff8800"), Some(Color::Rgb(255, 136, 0)));
    assert_eq!(parse_hex_rgb("#000000"), Some(Color::Rgb(0, 0, 0)));
    assert_eq!(parse_hex_rgb("#ABCDEF"), Some(Color::Rgb(171, 205, 239)));
    assert_eq!(parse_hex_rgb("#+1+2+3"), Some(Color::Rgb(1, 2, 3)));
}

#[test]
fn texts_that_are_no_hex_colors() {
    assert_eq!(parse_hex_rgb("ff8800"), None);
    assert_eq!(parse_hex_rgb("#ff880"), None);
    assert_eq!(parse_hex_rgb("#ff88000"), None);
    assert_eq!(parse_hex_rgb("#gg8800"), None);
    assert_eq!(parse_hex_rgb("#ff88zz"), None);
    assert_eq!(parse_hex_rgb(""), None);
    assert_eq!(parse_hex_rgb("#"), None);
    assert_eq!(parse_hex_rgb("#\u{e9}\u{e9}\u{e9}"), None);
    assert_eq!(parse_hex_rgb("#zz\u{e9}12"), None);
}

#[test]
fn pairs_that_cannot_be_cut_apart_are_recognized() {
    assert!(check_pairs_apart("#ff8800"));
    assert!(check_pairs_apart("green"));
    assert!(check_pairs_apart("#zz\u{e9}12"));
    assert!(check_pairs_apart("#\u{e9}\u{e9}\u{e9}"));
    assert!(!check_pairs_apart("#a\u{e9}123"));
    assert!(!check_pairs_apart("#111\u{e9}1"));
    assert!(check_pairs_apart("#11\u{e9}11"));
}

#[test]
fn words_switch_attributes_and_colors() {
    assert_eq!(apply_word(plain(), "bold"), Style { bold: true, ..plain() });
    assert_eq!(apply_word(plain(), "underline"), Style { underline: true, ..plain() });
    assert_eq!(apply_word(plain(), "u"), Style { underline: true, ..plain() });
    assert_eq!(apply_word(plain(), "reverse"), Style { reverse: true, ..plain() });
    assert_eq!(apply_word(plain(), "r"), Style { reverse: true, ..plain() });
    assert_eq!(apply_word(plain(), "cyan"), fg(Color::Cyan));
    assert_eq!(apply_word(fg(Color::Red), "nonsense"), fg(Color::Red));
    assert_eq!(apply_word(fg(Color::Red), ""), fg(Color::Red));
    assert_eq!(apply_word(fg(Color::Red), "blue"), fg(Color::Blue));
}

#[test]
fn styles_from_words() {
    assert_eq!(style_of_words("green_bold"), Style { bold: true, ..fg(Color::Green) });
    assert_eq!(style_of_words("red_u_r"), Style { underline: true, reverse: true, ..fg(Color::Red) });
    assert_eq!(style_of_words("red_blue"), fg(Color::Blue));
    assert_eq!(style_of_words(""), plain());
    assert_eq!(style_of_words("___"), plain());
    // `light_red` is read word by word: neither word names a color.
    assert_eq!(style_of_words("light_red"), fg(Color::Red));
    assert_eq!(style_of_words("dark_gray_bold"), Style { bold: true, ..fg(Color::Rgb(128, 128, 128)) });
}

#[test]
fn style_texts_are_normalized() {
    assert_eq!(parse_style_string("  Green_Bold  "), Some(Style { bold: true, ..fg(Color::Green) }));
    assert_eq!(parse_style_string("#FF8800"), Some(fg(Color::Rgb(255, 136, 0))));
    assert_eq!(parse_style_string(" #ff8800\n"), Some(fg(Color::Rgb(255, 136, 0))));
    assert_eq!(parse_style_string(""), Some(plain()));
    assert_eq!(style_of("#010203"), fg(Color::Rgb(1, 2, 3)));
    assert_eq!(style_of("purple"), fg(Color::Purple));
}

#[test]
fn unreadable_style_texts_are_refused() {
    assert_eq!(try_parse_style_string("green"), Some(fg(Color::Green)));
    assert_eq!(try_parse_style_string("#A\u{c9}123"), None);
    assert_eq!(try_parse_style_string("#zz\u{e9}12"), Some(plain()));
}

#[test]
fn record_styles() {
    assert_eq!(
        record_style(Some("red".to_string()), Some("white".to_string()), Some("bu".to_string())),
        Style {
            foreground: Some(Color::Red),
            background: Some(Color::White),
            bold: true,
            underline: true,
            reverse: false,
        }
    );
    assert_eq!(record_style(None, None, None), plain());
    assert_eq!(record_style(Some("nope".to_string()), None, Some("xyz".to_string())), plain());
    assert_eq!(record_style(None, None, Some("r".to_string())), Style { reverse: true, ..plain() });
}

#[test]
fn styles_from_json() {
    assert_eq!(value_to_style(&json("\"yellow_bold\"")), Some(Style { bold: true, ..fg(Color::Yellow) }));
    assert_eq!(
        value_to_style(&json("{\"fg\": \"green\", \"bg\": \"black\", \"attr\": \"BR\"}")),
        Some(Style {
            foreground: Some(Color::Green),
            background: Some(Color::Black),
            bold: true,
            underline: false,
            reverse: true,
        })
    );
    assert_eq!(value_to_style(&json("{}")), Some(plain()));
    assert_eq!(value_to_style(&json("{\"fg\": 3, \"attr\": null}")), Some(plain()));
    assert_eq!(value_to_style(&json("{\"fg\": \"Green\"}")), Some(plain()));
    assert_eq!(value_to_style(&json("7")), None);
    assert_eq!(value_to_style(&json("null")), None);
    assert_eq!(value_to_style(&json("[\"red\"]")), None);
    assert_eq!(value_to_style(&json("true")), None);
}

#[test]
fn json_members() {
    let v = json("{\"a\": \"x\", \"b\": 2}");
    assert_eq!(member_str(&v, "a"), Some("x".to_string()));
    assert_eq!(member_str(&v, "b"), None);
    assert_eq!(member_str(&v, "c"), None);
    assert_eq!(member_str(&json("\"a\""), "a"), None);
    assert_eq!(member_str(&json("[1]"), "0"), None);
}

#[test]
fn try_value_to_style_fails_on_unreadable_strings_only() {
    assert_eq!(try_value_to_style(&json("\"red\"")), Ok(Some(fg(Color::Red))));
    assert_eq!(try_value_to_style(&json("5")), Ok(None));
    assert_eq!(try_value_to_style(&json("\"#a\u{e9}123\"")), Err(StyleError));
    assert_eq!(try_value_to_style(&json("{\"fg\": \"#a\u{e9}123\"}")), Ok(Some(plain())));
}

#[test]
fn built_in_theme() {
    let t = Theme::default_enabled(true);
    assert_eq!(t.header, Style { bold: true, ..fg(Color::Green) });
    assert_eq!(t.dir, fg(Color::Cyan));
    assert_eq!(t.file, plain());
    assert_eq!(t.filesize, fg(Color::Cyan));
    assert_eq!(t.date, fg(Color::Purple));
    assert_eq!(t.index, plain());
    assert!(t.enabled);
    assert!(!Theme::default_enabled(false).enabled);
}

#[test]
fn lookups_fall_back_in_order() {
    let cfg = json("{\"a\": \"red\", \"b\": \"blue\", \"bad\": \"#a\u{e9}123\", \"n\": 1}");
    assert_eq!(resolve(&cfg, "a"), Ok(Some(fg(Color::Red))));
    assert_eq!(resolve(&cfg, "missing"), Ok(None));
    assert_eq!(resolve(&cfg, "n"), Ok(None));
    assert_eq!(resolve(&cfg, "bad"), Err(StyleError));
    assert_eq!(or_resolve(resolve(&cfg, "a"), &cfg, "b"), Ok(Some(fg(Color::Red))));
    assert_eq!(or_resolve(resolve(&cfg, "missing"), &cfg, "b"), Ok(Some(fg(Color::Blue))));
    assert_eq!(or_resolve(resolve(&cfg, "a"), &cfg, "bad"), Ok(Some(fg(Color::Red))));
    assert_eq!(or_resolve(resolve(&cfg, "n"), &cfg, "bad"), Err(StyleError));
    assert_eq!(or_resolve(resolve(&cfg, "bad"), &cfg, "a"), Err(StyleError));
    assert_eq!(style_or(None, fg(Color::Cyan)), fg(Color::Cyan));
    assert_eq!(style_or(Some(plain()), fg(Color::Cyan)), plain());
}

#[test]
fn table_theme_from_configuration() {
    let t = table_theme(&json(
        "{\"shape_table\": \"blue_bold\", \"string\": \"white\", \"int\": \"#010203\", \"date\": {\"fg\": \"yellow\"}}",
    ))
    .unwrap();
    assert_eq!(t.header, Style { bold: true, ..fg(Color::Blue) });
    assert_eq!(t.dir, fg(Color::White));
    assert_eq!(t.filesize, fg(Color::Rgb(1, 2, 3)));
    assert_eq!(t.date, fg(Color::Yellow));
    assert_eq!(t.index, Style { bold: true, ..fg(Color::Blue) });
    assert_eq!(t.file, plain());
    assert!(t.enabled);

    let bare = table_theme(&json("{}")).unwrap();
    assert_eq!(bare, Theme::default_enabled(true));

    let own_index = table_theme(&json("{\"header\": \"red\", \"row_index\": \"green\"}")).unwrap();
    assert_eq!(own_index.header, fg(Color::Red));
    assert_eq!(own_index.index, fg(Color::Green));

    assert_eq!(table_theme(&json("{\"filesize\": \"#a\u{e9}123\"}")), Err(StyleError));
    assert!(table_theme(&json("{\"nothing\": \"#a\u{e9}123\"}")).is_ok());
}

#[test]
fn tree_theme_from_configuration() {
    let t = tree_theme(&json(
        "{\"header\": \"red\", \"shape_filepath\": \"cyan_u\", \"nothing\": \"blue\"}",
    ))
    .unwrap();
    assert_eq!(t.header, fg(Color::Red));
    assert_eq!(t.dir, Style { underline: true, ..fg(Color::Cyan) });
    assert_eq!(t.file, Style { underline: true, ..fg(Color::Cyan) });
    assert_eq!(t.filesize, fg(Color::Cyan));
    assert_eq!(t.date, fg(Color::Purple));
    assert_eq!(t.index, plain());

    let only_nothing = tree_theme(&json("{\"nothing\": \"blue\"}")).unwrap();
    assert_eq!(only_nothing.file, fg(Color::Blue));
    assert_eq!(only_nothing.dir, fg(Color::Cyan));

    assert_eq!(tree_theme(&json("[]")).unwrap(), Theme::default_enabled(true));
    assert_eq!(tree_theme(&json("{\"nothing\": \"#a\u{e9}123\"}")), Err(StyleError));
    assert!(tree_theme(&json("{\"filesize\": \"#a\u{e9}123\"}")).is_ok());
}
