use discord_theme_editor::css_gradients::{parse_css_gradient, parse_direction, parse_stop, Direction};
use discord_theme_editor::text::{
    chars_of, ends_with, is_separator, is_whitespace_char, split_pieces, split_whitespace,
    str_eq, strip_prefix, strip_suffix_char, trim, Separator,
};

const WHITE_SPACE: [char; 25] = [
    '\u{9}', '\u{a}', '\u{b}', '\u{c}', '\u{d}', ' ', '\u{85}', '\u{a0}', '\u{1680}', '\u{2000}',
    '\u{2001}', '\u{2002}', '\u{2003}', '\u{2004}', '\u{2005}', '\u{2006}', '\u{2007}',
    '\u{2008}', '\u{2009}', '\u{200a}', '\u{2028}', '\u{2029}', '\u{202f}', '\u{205f}',
    '\u{3000}',
];

#[test]
fn whitespace_agrees_with_char_is_whitespace() {
    for c in WHITE_SPACE {
        assert!(is_whitespace_char(c));
    }
    for u in 0u32..0x3100 {
        if let Some(c) = char::from_u32(u) {
            assert_eq!(is_whitespace_char(c), c.is_whitespace(), "{:x}", u);
        }
    }
    assert!(!is_whitespace_char('\u{200b}'));
    assert!(!is_whitespace_char('x'));
}

#[test]
fn trim_agrees_with_str_trim() {
    for s in ["", "  ", " a ", "\u{3000}b c\t\n", "no-space", "\u{a0}x\u{2028}"] {
        assert_eq!(trim(s), s.trim());
    }
}

#[test]
fn split_whitespace_agrees_with_std() {
    for s in ["", "   ", "to top left", "  to    top\tleft  ", "a\u{2003}b", "é ü"] {
        let ours = split_whitespace(s);
        let theirs: Vec<&str> = s.split_whitespace().collect();
        assert_eq!(ours, theirs);
    }
}

#[test]
fn split_on_commas_agrees_with_std() {
    for s in ["", ",", "a,b", "a,,b,", " red , blue 50% ,green"] {
        let ours = split_pieces(s, Separator::Comma);
        let theirs: Vec<&str> = s.split(',').collect();
        assert_eq!(ours, theirs);
    }
    assert!(is_separator(Separator::Comma, ','));
    assert!(!is_separator(Separator::Comma, ' '));
    assert!(is_separator(Separator::Whitespace, ' '));
}

#[test]
fn comparisons_and_stripping() {
    assert!(str_eq("to", "to"));
    assert!(!str_eq("to", "top"));
    assert!(!str_eq("ab", "ac"));
    assert!(ends_with("45deg", "deg"));
    assert!(ends_with("deg", "deg"));
    assert!(!ends_with("eg", "deg"));
    assert_eq!(strip_prefix("linear-gradient(x", "linear-gradient("), Some("x"));
    assert_eq!(strip_prefix("linear", "linear-gradient("), None);
    assert_eq!(strip_suffix_char("a)", ')'), Some("a"));
    assert_eq!(strip_suffix_char("a", ')'), None);
    assert_eq!(strip_suffix_char("", ')'), None);
    assert_eq!(chars_of("héllo"), vec!['h', 'é', 'l', 'l', 'o']);
}

#[test]
fn parsing_depends_only_on_words() {
    assert_eq!(parse_direction(" to\u{2003}bottom\tright "), parse_direction("to bottom right"));
    assert_eq!(parse_stop("\n red \t 5% "), parse_stop("red 5%"));
}

#[test]
fn stop_parts_are_single_words() {
    let stop = parse_stop("  #aabbcc\t\t12px ").unwrap();
    assert_eq!(stop.colour, "#aabbcc");
    assert_eq!(stop.offset, Some("12px"));
    let g = parse_css_gradient("radial-gradient( a  1% ,\u{3000}b\u{a0}2% )").unwrap();
    for s in &g.stops {
        assert!(!s.colour.is_empty() && !s.colour.contains(char::is_whitespace));
        if let Some(o) = s.offset {
            assert!(!o.is_empty() && !o.contains(char::is_whitespace));
        }
    }
    assert_eq!(g.stops.len(), 2);
}

#[test]
fn rotation_is_one_angle_word() {
    assert_eq!(parse_direction("  0.5turn  "), Some(Direction::Rotation("0.5turn")));
    assert_eq!(parse_direction("deg"), Some(Direction::Rotation("deg")));
}
