use discord_theme_editor::text::replace_all;
use discord_theme_editor::theme::{
    hex_colour, injected_css, preview_css, preview_defs, preview_svg, CSSThemeProperty, Rgb,
    Theme,
};

fn plain(red: u8, green: u8, blue: u8) -> CSSThemeProperty {
    CSSThemeProperty {
        colour: Rgb { red, green, blue },
        custom_css_active: false,
        custom_css_value: String::new(),
    }
}

fn custom(value: &str) -> CSSThemeProperty {
    CSSThemeProperty {
        colour: Rgb {
            red: 1,
            green: 2,
            blue: 3,
        },
        custom_css_active: true,
        custom_css_value: value.to_string(),
    }
}

fn sample_theme() -> Theme {
    Theme {
        background_primary: plain(0x31, 0x33, 0x38),
        background_secondary: plain(0x2b, 0x2d, 0x31),
        background_secondary_alt: plain(0x23, 0x24, 0x28),
        background_tertiary: plain(0x1e, 0x1f, 0x22),
        text_normal: plain(0xdb, 0xde, 0xe1),
        text_muted: custom("linear-gradient(red, blue)"),
        text_hyperlink: plain(0x00, 0xa8, 0xfc),
        header_primary: plain(0xf2, 0xf3, 0xf5),
        header_secondary: plain(0xb5, 0xba, 0xc1),
        channels_default: plain(0x80, 0x84, 0x8e),
    }
}

#[test]
fn hex_colour_is_lowercase_two_digits_per_channel() {
    assert_eq!(hex_colour(Rgb { red: 255, green: 0, blue: 16 }), "#ff0010");
    assert_eq!(hex_colour(Rgb { red: 0, green: 0, blue: 0 }), "#000000");
    assert_eq!(hex_colour(Rgb { red: 0xab, green: 0xcd, blue: 0xef }), "#abcdef");
}

#[test]
fn hex_colour_reads_back() {
    for v in [0u8, 1, 15, 16, 127, 128, 200, 255] {
        let text = hex_colour(Rgb { red: v, green: 255 - v, blue: v / 2 });
        assert_eq!(text.len(), 7);
        assert_eq!(u8::from_str_radix(&text[1..3], 16).unwrap(), v);
        assert_eq!(u8::from_str_radix(&text[3..5], 16).unwrap(), 255 - v);
        assert_eq!(u8::from_str_radix(&text[5..7], 16).unwrap(), v / 2);
    }
}

#[test]
fn web_css_prefers_active_custom_css() {
    assert_eq!(plain(1, 2, 3).web_css(), "#010203");
    assert_eq!(custom("url(x.png)").web_css(), "url(x.png)");
    let inactive = CSSThemeProperty {
        colour: Rgb { red: 9, green: 8, blue: 7 },
        custom_css_active: false,
        custom_css_value: "ignored".to_string(),
    };
    assert_eq!(inactive.web_css(), "#090807");
}

#[test]
fn svg_css_and_defs() {
    assert_eq!(plain(0x12, 0x34, 0x56).svg_css(), "#123456");
    assert_eq!(plain(0x12, 0x34, 0x56).svg_defs(), "");
}

#[test]
fn injected_css_declares_every_variable() {
    let theme = sample_theme();
    let expected = format!(
        r#"
                const CSS = `
                    * {{
                        --background-primary: {} !important;
                        --background-secondary: {} !important;
                        --background-secondary-alt: {} !important;
                        --background-tertiary: {} !important;
                        --text-normal: {} !important;
                        --text-muted: {} !important;
                        --text-link: {} !important;
                        --header-primary: {} !important;
                        --header-secondary: {} !important;
                        --channels-default: {} !important;
                    }}
                `;
            "#,
        "#313338",
        "#2b2d31",
        "#232428",
        "#1e1f22",
        "#dbdee1",
        "linear-gradient(red, blue)",
        "#00a8fc",
        "#f2f3f5",
        "#b5bac1",
        "#80848e",
    );
    assert_eq!(injected_css(&theme), expected);
}

#[test]
fn preview_css_paints_eight_colours() {
    let theme = sample_theme();
    let expected = format!(
        r#"
        .background-primary{{ fill: {}; }}
        .background-secondary{{ fill: {}; }}
        .background-secondary-alt{{ fill: {}; }}
        .background-tertiary{{ fill: {}; }}
        .text-normal{{ fill: {}; }}
        .header-primary{{ stroke: {}; }}
        .header-secondary{{ stroke: {}; }}
        .channels-default{{ stroke: {}; }}
    "#,
        "#313338", "#2b2d31", "#232428", "#1e1f22", "#dbdee1", "#f2f3f5", "#b5bac1", "#80848e",
    );
    assert_eq!(preview_css(&theme), expected);
    assert_eq!(preview_defs(&theme), "");
}

#[test]
fn preview_svg_fills_placeholders() {
    let theme = sample_theme();
    let template = "<svg><defs>{!!!GENERATED_DEFS!!!}</defs><style>{!!!GENERATED_CSS!!!}</style>{!!!GENERATED_CSS!!!}</svg>";
    let css = preview_css(&theme);
    let expected = format!("<svg><defs></defs><style>{}</style>{}</svg>", css, css);
    assert_eq!(preview_svg(template, &theme), expected);
    assert_eq!(preview_svg("<svg/>", &theme), "<svg/>");
}

#[test]
fn replace_all_matches_std() {
    let cases = [
        ("aaaa", "aa", "b"),
        ("abcabc", "bc", "X"),
        ("", "x", "y"),
        ("héllo wörld", "ö", "o"),
        ("aaa", "aa", "aaa"),
        ("no match here", "zz", "!"),
    ];
    for (s, p, w) in cases {
        assert_eq!(replace_all(s, p, w), s.replace(p, w));
    }
}
