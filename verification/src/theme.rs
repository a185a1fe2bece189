//! The colours of a Discord theme and the CSS texts made from them: the CSS
//! value of each colour, the style sheet injected into Discord, and the one
//! that colours the preview picture.

use vstd::prelude::*;
use vstd::string::*;

use crate::text::{replace_all, replaced};

verus! {

/// A colour as three 8-bit channels.
#[derive(Clone, Copy, PartialEq, Eq, Debug)]
pub struct Rgb {
    pub red: u8,
    pub green: u8,
    pub blue: u8,
}

/// The lowercase hexadecimal digit of `n`, for `n < 16`.
pub open spec fn hex_digit(n: u8) -> char {
    "0123456789abcdef"@[n as int]
}

/// The two lowercase hexadecimal digits of `b`, most significant first.
pub open spec fn hex_byte(b: u8) -> Seq<char> {
    seq![hex_digit(b / 16), hex_digit(b % 16)]
}

/// The CSS notation `#rrggbb` of a colour.
pub open spec fn hex_text(c: Rgb) -> Seq<char> {
    seq!['#'] + hex_byte(c.red) + hex_byte(c.green) + hex_byte(c.blue)
}

/// The value of the hexadecimal digit `c`, lowercase or uppercase; -1 for a
/// character that is no hexadecimal digit.
pub open spec fn hex_value(c: char) -> int {
    if '0' <= c && c <= '9' {
        c as int - '0' as int
    } else if 'a' <= c && c <= 'f' {
        c as int - 'a' as int + 10
    } else if 'A' <= c && c <= 'F' {
        c as int - 'A' as int + 10
    } else {
        -1
    }
}

/// Each digit of [`hex_digit`] has the value it stands for.
proof fn lemma_hex_digit_value(n: u8)
    requires
        n < 16,
    ensures
        hex_value(hex_digit(n)) == n,
{
    reveal_strlit("0123456789abcdef");
    let d = "0123456789abcdef"@;
    assert(d[0] == '0' && d[1] == '1' && d[2] == '2' && d[3] == '3' && d[4] == '4' && d[5] == '5'
        && d[6] == '6' && d[7] == '7' && d[8] == '8' && d[9] == '9' && d[10] == 'a' && d[11]
        == 'b' && d[12] == 'c' && d[13] == 'd' && d[14] == 'e' && d[15] == 'f');
}

/// Reading the notation `#rrggbb` of a colour back, two hexadecimal digits
/// per channel, gives that colour.
pub proof fn law_hex_text_reads_back(c: Rgb)
    ensures
        hex_text(c).len() == 7,
        hex_text(c)[0] == '#',
        16 * hex_value(hex_text(c)[1]) + hex_value(hex_text(c)[2]) == c.red,
        16 * hex_value(hex_text(c)[3]) + hex_value(hex_text(c)[4]) == c.green,
        16 * hex_value(hex_text(c)[5]) + hex_value(hex_text(c)[6]) == c.blue,
{
    lemma_hex_digit_value(c.red / 16);
    lemma_hex_digit_value(c.red % 16);
    lemma_hex_digit_value(c.green / 16);
    lemma_hex_digit_value(c.green % 16);
    lemma_hex_digit_value(c.blue / 16);
    lemma_hex_digit_value(c.blue % 16);
    let t = hex_text(c);
    assert(t[1] == hex_digit(c.red / 16) && t[2] == hex_digit(c.red % 16));
    assert(t[3] == hex_digit(c.green / 16) && t[4] == hex_digit(c.green % 16));
    assert(t[5] == hex_digit(c.blue / 16) && t[6] == hex_digit(c.blue % 16));
}

/// Appends the two hexadecimal digits of `b` to `out`.
fn push_hex_byte(out: &mut String, b: u8)
    ensures
        final(out)@ == old(out)@ + hex_byte(b),
{
    let digits = "0123456789abcdef";
    proof {
        reveal_strlit("0123456789abcdef");
    }
    let hi = (b / 16) as usize;
    let lo = (b % 16) as usize;
    out.append(digits.substring_char(hi, hi + 1));
    out.append(digits.substring_char(lo, lo + 1));
    assert(out@ =~= old(out)@ + hex_byte(b));
}

/// The CSS notation `#rrggbb` of `colour`, in lowercase hexadecimal.
pub fn hex_colour(colour: Rgb) -> (s: String)
    ensures
        s@ == hex_text(colour),
{
    let mut s = String::from_str("#");
    proof {
        reveal_strlit("#");
    }
    push_hex_byte(&mut s, colour.red);
    push_hex_byte(&mut s, colour.green);
    push_hex_byte(&mut s, colour.blue);
    s
}


/// One themed colour: a plain colour, or a custom CSS value that replaces
/// it where custom CSS is active.
pub struct CSSThemeProperty {
    pub colour: Rgb,
    pub custom_css_active: bool,
    pub custom_css_value: String,
}

/// The CSS value that Discord is given for `p`.
pub open spec fn web_css_text(p: CSSThemeProperty) -> Seq<char> {
    if p.custom_css_active {
        p.custom_css_value@
    } else {
        hex_text(p.colour)
    }
}

impl CSSThemeProperty {
    /// The SVG definitions that the preview needs for this colour: none.
    pub fn svg_defs(&self) -> (defs: String)
        ensures
            defs@ == Seq::<char>::empty(),
    {
        String::new()
    }

    /// The SVG paint of this colour in the preview, `#rrggbb`; custom CSS
    /// cannot be shown there.
    pub fn svg_css(&self) -> (css: String)
        requires
            !self.custom_css_active,
        ensures
            css@ == hex_text(self.colour),
    {
        hex_colour(self.colour)
    }

    /// The CSS value of this colour for Discord: the custom CSS where it is
    /// active, else `#rrggbb`.
    pub fn web_css(&self) -> (css: String)
        ensures
            css@ == web_css_text(*self),
    {
        if self.custom_css_active {
            self.custom_css_value.clone()
        } else {
            hex_colour(self.colour)
        }
    }
}

/// The colours of a theme.
pub struct Theme {
    pub background_primary: CSSThemeProperty,
    pub background_secondary: CSSThemeProperty,
    pub background_secondary_alt: CSSThemeProperty,
    pub background_tertiary: CSSThemeProperty,
    pub text_normal: CSSThemeProperty,
    pub text_muted: CSSThemeProperty,
    pub text_hyperlink: CSSThemeProperty,
    pub header_primary: CSSThemeProperty,
    pub header_secondary: CSSThemeProperty,
    pub channels_default: CSSThemeProperty,
}

/// One declaration `--name: value !important;` of the injected style sheet,
/// on a line of its own.
pub open spec fn declaration(name: Seq<char>, value: Seq<char>) -> Seq<char> {
    "\n                        --"@ + name + ": "@ + value + " !important;"@
}

/// The script text that defines the style sheet `CSS` which overrides
/// Discord's colour variables with the colours of `t`.
pub open spec fn injected_css_text(t: Theme) -> Seq<char> {
    "\n                const CSS = `\n                    * {"@
        + declaration("background-primary"@, web_css_text(t.background_primary))
        + declaration("background-secondary"@, web_css_text(t.background_secondary))
        + declaration("background-secondary-alt"@, web_css_text(t.background_secondary_alt))
        + declaration("background-tertiary"@, web_css_text(t.background_tertiary))
        + declaration("text-normal"@, web_css_text(t.text_normal))
        + declaration("text-muted"@, web_css_text(t.text_muted))
        + declaration("text-link"@, web_css_text(t.text_hyperlink))
        + declaration("header-primary"@, web_css_text(t.header_primary))
        + declaration("header-secondary"@, web_css_text(t.header_secondary))
        + declaration("channels-default"@, web_css_text(t.channels_default))
        + "\n                    }\n                `;\n            "@
}

/// The CSS value of a property for Discord, from its fields: the custom CSS
/// where it is active, else its colour as `#rrggbb`.
pub open spec fn property_value(p: CSSThemeProperty) -> Seq<char> {
    if p.custom_css_active {
        p.custom_css_value@
    } else {
        hex_text(p.colour)
    }
}

/// The web CSS of a property is its custom CSS, exactly as written, whenever
/// custom CSS is active, and its colour as `#rrggbb` otherwise.
pub proof fn law_web_css_value(p: CSSThemeProperty)
    ensures
        p.custom_css_active ==> web_css_text(p) == p.custom_css_value@,
        !p.custom_css_active ==> web_css_text(p) == hex_text(p.colour),
{
}

/// Whether `piece` stands somewhere in `text`.
pub open spec fn occurs_in(piece: Seq<char>, text: Seq<char>) -> bool {
    exists|i: int|
        0 <= i && i + piece.len() <= text.len() && #[trigger] text.subrange(i, i + piece.len())
            == piece
}

/// The texts of `parts`, one after the other.
pub open spec fn joined(parts: Seq<Seq<char>>) -> Seq<char>
    decreases parts.len(),
{
    if parts.len() == 0 {
        Seq::empty()
    } else {
        joined(parts.drop_last()) + parts.last()
    }
}

/// A part of a joined text stands between the parts before it and those
/// after it.
proof fn lemma_joined_at(parts: Seq<Seq<char>>, k: int)
    requires
        0 <= k < parts.len(),
    ensures
        joined(parts) == joined(parts.take(k)) + parts[k] + joined(parts.skip(k + 1)),
    decreases parts.len(),
{
    let init = parts.drop_last();
    if k == parts.len() - 1 {
        assert(parts.take(k) =~= init);
        assert(parts.skip(k + 1) =~= Seq::<Seq<char>>::empty());
        assert(joined(parts.take(k)) + parts[k] + Seq::<char>::empty() =~= joined(parts));
    } else {
        lemma_joined_at(init, k);
        assert(init.take(k) =~= parts.take(k));
        assert(parts.skip(k + 1).drop_last() =~= init.skip(k + 1));
        assert(parts.skip(k + 1).last() == parts.last());
        assert(init[k] == parts[k]);
        assert(joined(parts) =~= joined(parts.take(k)) + parts[k] + joined(parts.skip(k + 1)));
    }
}

/// A text stands in any text that is made of it, with others before and
/// after.
proof fn lemma_occurs_between(a: Seq<char>, b: Seq<char>, c: Seq<char>)
    ensures
        occurs_in(b, a + b + c),
{
    let t = a + b + c;
    assert(t.subrange(a.len() as int, (a.len() + b.len()) as int) =~= b);
}

/// The declaration `--name: value !important;` without its line break and
/// indentation.
pub open spec fn declared(name: Seq<char>, value: Seq<char>) -> Seq<char> {
    "--"@ + name + ": "@ + value + " !important;"@
}

/// A declaration of the style sheet is its line break and indentation, then
/// `--name: value !important;`.
proof fn lemma_declaration_parts(name: Seq<char>, value: Seq<char>)
    ensures
        declaration(name, value) == "\n                        "@ + declared(name, value),
{
    reveal_strlit("\n                        --");
    reveal_strlit("\n                        ");
    reveal_strlit("--");
    assert("\n                        --"@ =~= "\n                        "@ + "--"@);
    assert(declaration(name, value) =~= "\n                        "@ + declared(name, value));
}

/// The parts of the injected script text, in order.
pub open spec fn injected_css_parts(t: Theme) -> Seq<Seq<char>> {
    seq![
        "\n                const CSS = `\n                    * {"@,
        declaration("background-primary"@, web_css_text(t.background_primary)),
        declaration("background-secondary"@, web_css_text(t.background_secondary)),
        declaration("background-secondary-alt"@, web_css_text(t.background_secondary_alt)),
        declaration("background-tertiary"@, web_css_text(t.background_tertiary)),
        declaration("text-normal"@, web_css_text(t.text_normal)),
        declaration("text-muted"@, web_css_text(t.text_muted)),
        declaration("text-link"@, web_css_text(t.text_hyperlink)),
        declaration("header-primary"@, web_css_text(t.header_primary)),
        declaration("header-secondary"@, web_css_text(t.header_secondary)),
        declaration("channels-default"@, web_css_text(t.channels_default)),
        "\n                    }\n                `;\n            "@,
    ]
}

/// A declaration of the injected script text stands in it.
proof fn lemma_declaration_occurs(t: Theme, k: int, name: Seq<char>, value: Seq<char>)
    requires
        1 <= k <= 10,
        injected_css_parts(t)[k] == declaration(name, value),
    ensures
        occurs_in(declared(name, value), injected_css_text(t)),
{
    let parts = injected_css_parts(t);
    reveal_with_fuel(joined, 13);
    assert(joined(parts) =~= injected_css_text(t));
    lemma_joined_at(parts, k);
    lemma_declaration_parts(name, value);
    let before = joined(parts.take(k)) + "\n                        "@;
    let after = joined(parts.skip(k + 1));
    assert(injected_css_text(t) =~= before + declared(name, value) + after);
    lemma_occurs_between(before, declared(name, value), after);
}

/// The injected style sheet declares each of Discord's ten colour variables
/// with the value of its property: the property's custom CSS where that is
/// active, its colour as `#rrggbb` otherwise.
#[verifier::spinoff_prover]
#[verifier::rlimit(80)]
pub proof fn law_injected_css_declares_every_variable(t: Theme)
    ensures
        occurs_in(
            declared("background-primary"@, property_value(t.background_primary)),
            injected_css_text(t),
        ),
        occurs_in(
            declared("background-secondary"@, property_value(t.background_secondary)),
            injected_css_text(t),
        ),
        occurs_in(
            declared("background-secondary-alt"@, property_value(t.background_secondary_alt)),
            injected_css_text(t),
        ),
        occurs_in(
            declared("background-tertiary"@, property_value(t.background_tertiary)),
            injected_css_text(t),
        ),
        occurs_in(declared("text-normal"@, property_value(t.text_normal)), injected_css_text(t)),
        occurs_in(declared("text-muted"@, property_value(t.text_muted)), injected_css_text(t)),
        occurs_in(declared("text-link"@, property_value(t.text_hyperlink)), injected_css_text(t)),
        occurs_in(
            declared("header-primary"@, property_value(t.header_primary)),
            injected_css_text(t),
        ),
        occurs_in(
            declared("header-secondary"@, property_value(t.header_secondary)),
            injected_css_text(t),
        ),
        occurs_in(
            declared("channels-default"@, property_value(t.channels_default)),
            injected_css_text(t),
        ),
{
    assert(occurs_in(declared("background-primary"@, property_value(t.background_primary)), injected_css_text(t))) by {
        assert(web_css_text(t.background_primary) == property_value(t.background_primary));
        assert(injected_css_parts(t)[1] == declaration("background-primary"@, property_value(t.background_primary)));
        lemma_declaration_occurs(t, 1, "background-primary"@, property_value(t.background_primary));
    }
    assert(occurs_in(declared("background-secondary"@, property_value(t.background_secondary)), injected_css_text(t))) by {
        assert(web_css_text(t.background_secondary) == property_value(t.background_secondary));
        assert(injected_css_parts(t)[2] == declaration("background-secondary"@, property_value(t.background_secondary)));
        lemma_declaration_occurs(t, 2, "background-secondary"@, property_value(t.background_secondary));
    }
    assert(occurs_in(declared("background-secondary-alt"@, property_value(t.background_secondary_alt)), injected_css_text(t))) by {
        assert(web_css_text(t.background_secondary_alt) == property_value(t.background_secondary_alt));
        assert(injected_css_parts(t)[3] == declaration("background-secondary-alt"@, property_value(t.background_secondary_alt)));
        lemma_declaration_occurs(t, 3, "background-secondary-alt"@, property_value(t.background_secondary_alt));
    }
    assert(occurs_in(declared("background-tertiary"@, property_value(t.background_tertiary)), injected_css_text(t))) by {
        assert(web_css_text(t.background_tertiary) == property_value(t.background_tertiary));
        assert(injected_css_parts(t)[4] == declaration("background-tertiary"@, property_value(t.background_tertiary)));
        lemma_declaration_occurs(t, 4, "background-tertiary"@, property_value(t.background_tertiary));
    }
    assert(occurs_in(declared("text-normal"@, property_value(t.text_normal)), injected_css_text(t))) by {
        assert(web_css_text(t.text_normal) == property_value(t.text_normal));
        assert(injected_css_parts(t)[5] == declaration("text-normal"@, property_value(t.text_normal)));
        lemma_declaration_occurs(t, 5, "text-normal"@, property_value(t.text_normal));
    }
    assert(occurs_in(declared("text-muted"@, property_value(t.text_muted)), injected_css_text(t))) by {
        assert(web_css_text(t.text_muted) == property_value(t.text_muted));
        assert(injected_css_parts(t)[6] == declaration("text-muted"@, property_value(t.text_muted)));
        lemma_declaration_occurs(t, 6, "text-muted"@, property_value(t.text_muted));
    }
    assert(occurs_in(declared("text-link"@, property_value(t.text_hyperlink)), injected_css_text(t))) by {
        assert(web_css_text(t.text_hyperlink) == property_value(t.text_hyperlink));
        assert(injected_css_parts(t)[7] == declaration("text-link"@, property_value(t.text_hyperlink)));
        lemma_declaration_occurs(t, 7, "text-link"@, property_value(t.text_hyperlink));
    }
    assert(occurs_in(declared("header-primary"@, property_value(t.header_primary)), injected_css_text(t))) by {
        assert(web_css_text(t.header_primary) == property_value(t.header_primary));
        assert(injected_css_parts(t)[8] == declaration("header-primary"@, property_value(t.header_primary)));
        lemma_declaration_occurs(t, 8, "header-primary"@, property_value(t.header_primary));
    }
    assert(occurs_in(declared("header-secondary"@, property_value(t.header_secondary)), injected_css_text(t))) by {
        assert(web_css_text(t.header_secondary) == property_value(t.header_secondary));
        assert(injected_css_parts(t)[9] == declaration("header-secondary"@, property_value(t.header_secondary)));
        lemma_declaration_occurs(t, 9, "header-secondary"@, property_value(t.header_secondary));
    }
    assert(occurs_in(declared("channels-default"@, property_value(t.channels_default)), injected_css_text(t))) by {
        assert(web_css_text(t.channels_default) == property_value(t.channels_default));
        assert(injected_css_parts(t)[10] == declaration("channels-default"@, property_value(t.channels_default)));
        lemma_declaration_occurs(t, 10, "channels-default"@, property_value(t.channels_default));
    }
}

/// Appends the declaration of `name` with the CSS value of `p`.
fn push_declaration(out: &mut String, name: &str, p: &CSSThemeProperty)
    ensures
        final(out)@ == old(out)@ + declaration(name@, web_css_text(*p)),
{
    let value = p.web_css();
    out.append("\n                        --");
    out.append(name);
    out.append(": ");
    out.append(value.as_str());
    out.append(" !important;");
    assert(out@ =~= old(out)@ + declaration(name@, web_css_text(*p)));
}

/// The script text that defines the style sheet injected into Discord.
pub fn injected_css(theme: &Theme) -> (css: String)
    ensures
        css@ == injected_css_text(*theme),
{
    let mut css = String::from_str("\n                const CSS = `\n                    * {");
    push_declaration(&mut css, "background-primary", &theme.background_primary);
    push_declaration(&mut css, "background-secondary", &theme.background_secondary);
    push_declaration(&mut css, "background-secondary-alt", &theme.background_secondary_alt);
    push_declaration(&mut css, "background-tertiary", &theme.background_tertiary);
    push_declaration(&mut css, "text-normal", &theme.text_normal);
    push_declaration(&mut css, "text-muted", &theme.text_muted);
    push_declaration(&mut css, "text-link", &theme.text_hyperlink);
    push_declaration(&mut css, "header-primary", &theme.header_primary);
    push_declaration(&mut css, "header-secondary", &theme.header_secondary);
    push_declaration(&mut css, "channels-default", &theme.channels_default);
    css.append("\n                    }\n                `;\n            ");
    css
}

/// One rule `.selector{ property: value; }` of the preview style sheet, on a
/// line of its own.
pub open spec fn preview_rule(selector: Seq<char>, property: Seq<char>, value: Seq<char>) -> Seq<
    char,
> {
    "\n        ."@ + selector + "{ "@ + property + ": "@ + value + "; }"@
}

/// Whether every colour that the preview paints is a plain colour.
pub open spec fn previewable(t: Theme) -> bool {
    &&& !t.background_primary.custom_css_active
    &&& !t.background_secondary.custom_css_active
    &&& !t.background_secondary_alt.custom_css_active
    &&& !t.background_tertiary.custom_css_active
    &&& !t.text_normal.custom_css_active
    &&& !t.header_primary.custom_css_active
    &&& !t.header_secondary.custom_css_active
    &&& !t.channels_default.custom_css_active
}

/// Whether every colour that the preview paints is a plain colour.
pub fn previewable_theme(theme: &Theme) -> (b: bool)
    ensures
        b == previewable(*theme),
{
    !theme.background_primary.custom_css_active && !theme.background_secondary.custom_css_active
        && !theme.background_secondary_alt.custom_css_active
        && !theme.background_tertiary.custom_css_active && !theme.text_normal.custom_css_active
        && !theme.header_primary.custom_css_active && !theme.header_secondary.custom_css_active
        && !theme.channels_default.custom_css_active
}

/// The style sheet that paints the preview picture in the colours of `t`.
pub open spec fn preview_css_text(t: Theme) -> Seq<char> {
    preview_rule("background-primary"@, "fill"@, hex_text(t.background_primary.colour))
        + preview_rule("background-secondary"@, "fill"@, hex_text(t.background_secondary.colour))
        + preview_rule(
        "background-secondary-alt"@,
        "fill"@,
        hex_text(t.background_secondary_alt.colour),
    ) + preview_rule("background-tertiary"@, "fill"@, hex_text(t.background_tertiary.colour))
        + preview_rule("text-normal"@, "fill"@, hex_text(t.text_normal.colour)) + preview_rule(
        "header-primary"@,
        "stroke"@,
        hex_text(t.header_primary.colour),
    ) + preview_rule("header-secondary"@, "stroke"@, hex_text(t.header_secondary.colour))
        + preview_rule("channels-default"@, "stroke"@, hex_text(t.channels_default.colour))
        + "\n    "@
}

/// Appends the preview rule of `selector` that paints `property` in the
/// colour of `p`.
fn push_preview_rule(out: &mut String, selector: &str, property: &str, p: &CSSThemeProperty)
    requires
        !p.custom_css_active,
    ensures
        final(out)@ == old(out)@ + preview_rule(selector@, property@, hex_text(p.colour)),
{
    let value = p.svg_css();
    out.append("\n        .");
    out.append(selector);
    out.append("{ ");
    out.append(property);
    out.append(": ");
    out.append(value.as_str());
    out.append("; }");
    assert(out@ =~= old(out)@ + preview_rule(selector@, property@, hex_text(p.colour)));
}

/// The style sheet of the preview picture; every colour it paints must be a
/// plain colour.
pub fn preview_css(theme: &Theme) -> (css: String)
    requires
        previewable(*theme),
    ensures
        css@ == preview_css_text(*theme),
{
    let mut css = String::new();
    push_preview_rule(&mut css, "background-primary", "fill", &theme.background_primary);
    push_preview_rule(&mut css, "background-secondary", "fill", &theme.background_secondary);
    push_preview_rule(
        &mut css,
        "background-secondary-alt",
        "fill",
        &theme.background_secondary_alt,
    );
    push_preview_rule(&mut css, "background-tertiary", "fill", &theme.background_tertiary);
    push_preview_rule(&mut css, "text-normal", "fill", &theme.text_normal);
    push_preview_rule(&mut css, "header-primary", "stroke", &theme.header_primary);
    push_preview_rule(&mut css, "header-secondary", "stroke", &theme.header_secondary);
    push_preview_rule(&mut css, "channels-default", "stroke", &theme.channels_default);
    css.append("\n    ");
    assert(css@ =~= preview_css_text(*theme));
    css
}


/// The SVG definitions of the colours that the preview uses, one after the
/// other.
pub fn preview_defs(theme: &Theme) -> (defs: String)
    ensures
        defs@ == Seq::<char>::empty(),
{
    let mut defs = String::new();
    defs.append(theme.background_tertiary.svg_defs().as_str());
    defs.append(theme.background_secondary.svg_defs().as_str());
    defs.append(theme.background_tertiary.svg_defs().as_str());
    defs.append(theme.text_normal.svg_defs().as_str());
    defs.append(theme.text_muted.svg_defs().as_str());
    defs.append(theme.text_hyperlink.svg_defs().as_str());
    defs.append(theme.header_primary.svg_defs().as_str());
    defs.append(theme.header_secondary.svg_defs().as_str());
    assert(defs@ =~= Seq::<char>::empty());
    defs
}

/// The preview picture: the SVG `template` with its definitions placeholder
/// and its style placeholder filled in for `t`.
pub open spec fn preview_svg_text(template: Seq<char>, t: Theme) -> Seq<char> {
    replaced(
        replaced(template, "{!!!GENERATED_DEFS!!!}"@, Seq::empty()),
        "{!!!GENERATED_CSS!!!}"@,
        preview_css_text(t),
    )
}

/// Fills the placeholders of the preview's SVG `template` for `theme`.
pub fn preview_svg(template: &str, theme: &Theme) -> (svg: String)
    requires
        previewable(*theme),
    ensures
        svg@ == preview_svg_text(template@, *theme),
{
    let defs = preview_defs(theme);
    let css = preview_css(theme);
    proof {
        reveal_strlit("{!!!GENERATED_DEFS!!!}");
        reveal_strlit("{!!!GENERATED_CSS!!!}");
    }
    let with_defs = replace_all(template, "{!!!GENERATED_DEFS!!!}", defs.as_str());
    replace_all(with_defs.as_str(), "{!!!GENERATED_CSS!!!}", css.as_str())
}

} // verus!
