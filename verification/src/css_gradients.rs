//! Parsing of CSS `linear-gradient(..)` and `radial-gradient(..)` values into
//! their kind, optional direction and colour stops.

use vstd::prelude::*;

use crate::text::{
    ends_with, has_prefix, has_suffix, lemma_split_by_nonempty, split_by, split_pieces,
    split_whitespace, str_eq, strip_prefix, strip_suffix_char, strs_view, trim, trimmed, words,
    Separator, is_single_word, lemma_trimmed_idempotent, lemma_words_are_single,
    lemma_split_without_separator, lemma_split_at_separator, lemma_two_words, is_white_space,
    separates, trim_start, trim_end,
};

verus! {

/// The shape of a gradient.
#[derive(Debug, PartialEq, Eq, Clone, Copy)]
pub enum GradientType {
    Linear,
    Radial,
}

/// The direction of a linear gradient: a side, a corner, or an angle kept
/// as written (such as `45deg`).
#[derive(Debug, PartialEq, Eq)]
pub enum Direction<'s> {
    Left,
    Right,
    Top,
    Bottom,
    TopLeft,
    TopRight,
    BottomLeft,
    BottomRight,
    Rotation(&'s str),
}

/// A colour stop: a colour and an optional offset such as `50%`.
#[derive(Debug, PartialEq, Eq)]
pub struct Stop<'s> {
    pub offset: Option<&'s str>,
    pub colour: &'s str,
}

/// A parsed gradient.
#[derive(Debug, PartialEq, Eq)]
pub struct Gradient<'s> {
    pub gradient_type: GradientType,
    pub direction: Option<Direction<'s>>,
    pub stops: Vec<Stop<'s>>,
}

/// A [`Direction`] with its text taken as characters.
pub enum DirectionModel {
    Left,
    Right,
    Top,
    Bottom,
    TopLeft,
    TopRight,
    BottomLeft,
    BottomRight,
    Rotation(Seq<char>),
}

/// A [`Stop`] with its texts taken as characters.
pub struct StopModel {
    pub offset: Option<Seq<char>>,
    pub colour: Seq<char>,
}

/// A [`Gradient`] with its texts taken as characters.
pub struct GradientModel {
    pub gradient_type: GradientType,
    pub direction: Option<DirectionModel>,
    pub stops: Seq<StopModel>,
}

impl<'s> View for Direction<'s> {
    type V = DirectionModel;

    open spec fn view(&self) -> DirectionModel {
        match self {
            Direction::Left => DirectionModel::Left,
            Direction::Right => DirectionModel::Right,
            Direction::Top => DirectionModel::Top,
            Direction::Bottom => DirectionModel::Bottom,
            Direction::TopLeft => DirectionModel::TopLeft,
            Direction::TopRight => DirectionModel::TopRight,
            Direction::BottomLeft => DirectionModel::BottomLeft,
            Direction::BottomRight => DirectionModel::BottomRight,
            Direction::Rotation(a) => DirectionModel::Rotation(a@),
        }
    }
}

impl<'s> View for Stop<'s> {
    type V = StopModel;

    open spec fn view(&self) -> StopModel {
        StopModel {
            offset: match self.offset {
                Some(o) => Some(o@),
                None => None,
            },
            colour: self.colour@,
        }
    }
}

/// The models of a sequence of stops.
pub open spec fn stops_view(stops: Seq<Stop>) -> Seq<StopModel> {
    stops.map_values(|s: Stop| s@)
}

/// The model of an optional stop.
pub open spec fn stop_view(s: Option<Stop>) -> Option<StopModel> {
    match s {
        Some(s) => Some(s@),
        None => None,
    }
}

/// The model of an optional direction.
pub open spec fn direction_view(d: Option<Direction>) -> Option<DirectionModel> {
    match d {
        Some(d) => Some(d@),
        None => None,
    }
}

impl<'s> View for Gradient<'s> {
    type V = GradientModel;

    open spec fn view(&self) -> GradientModel {
        GradientModel {
            gradient_type: self.gradient_type,
            direction: direction_view(self.direction),
            stops: stops_view(self.stops@),
        }
    }
}

/// The side named by `w` after `to`.
pub open spec fn side(w: Seq<char>) -> Option<DirectionModel> {
    if w == "left"@ {
        Some(DirectionModel::Left)
    } else if w == "right"@ {
        Some(DirectionModel::Right)
    } else if w == "top"@ {
        Some(DirectionModel::Top)
    } else if w == "bottom"@ {
        Some(DirectionModel::Bottom)
    } else {
        None
    }
}

/// The corner named by `v` and `h` after `to`.
pub open spec fn corner(v: Seq<char>, h: Seq<char>) -> Option<DirectionModel> {
    if v == "top"@ && h == "left"@ {
        Some(DirectionModel::TopLeft)
    } else if v == "top"@ && h == "right"@ {
        Some(DirectionModel::TopRight)
    } else if v == "bottom"@ && h == "left"@ {
        Some(DirectionModel::BottomLeft)
    } else if v == "bottom"@ && h == "right"@ {
        Some(DirectionModel::BottomRight)
    } else {
        None
    }
}

/// Whether `w` ends in one of the CSS angle units.
pub open spec fn has_angle_unit(w: Seq<char>) -> bool {
    ||| has_suffix(w, "deg"@)
    ||| has_suffix(w, "rad"@)
    ||| has_suffix(w, "grad"@)
    ||| has_suffix(w, "turn"@)
}

/// The direction that `s` denotes: `to` and a side, `to` and a corner, or a
/// single word with an angle unit; words may be separated by any amount of
/// whitespace, and nothing else may follow.
pub open spec fn direction_of(s: Seq<char>) -> Option<DirectionModel> {
    let w = words(s);
    if w.len() == 0 {
        None
    } else if w[0] == "to"@ {
        if w.len() == 2 {
            side(w[1])
        } else if w.len() == 3 {
            corner(w[1], w[2])
        } else {
            None
        }
    } else if w.len() == 1 && has_angle_unit(w[0]) {
        Some(DirectionModel::Rotation(w[0]))
    } else {
        None
    }
}

/// The stop that `s` denotes: a colour word, optionally followed by an
/// offset word, and nothing more.
pub open spec fn stop_of(s: Seq<char>) -> Option<StopModel> {
    let w = words(s);
    if w.len() == 1 {
        Some(StopModel { offset: None, colour: w[0] })
    } else if w.len() == 2 {
        Some(StopModel { offset: Some(w[1]), colour: w[0] })
    } else {
        None
    }
}

/// Decides which side `w` names.
fn side_named(w: &str) -> (d: Option<Direction<'static>>)
    ensures
        direction_view(d) == side(w@),
{
    if str_eq(w, "left") {
        Some(Direction::Left)
    } else if str_eq(w, "right") {
        Some(Direction::Right)
    } else if str_eq(w, "top") {
        Some(Direction::Top)
    } else if str_eq(w, "bottom") {
        Some(Direction::Bottom)
    } else {
        None
    }
}

/// Decides which corner `v` and `h` name.
fn corner_named(v: &str, h: &str) -> (d: Option<Direction<'static>>)
    ensures
        direction_view(d) == corner(v@, h@),
{
    if str_eq(v, "top") && str_eq(h, "left") {
        Some(Direction::TopLeft)
    } else if str_eq(v, "top") && str_eq(h, "right") {
        Some(Direction::TopRight)
    } else if str_eq(v, "bottom") && str_eq(h, "left") {
        Some(Direction::BottomLeft)
    } else if str_eq(v, "bottom") && str_eq(h, "right") {
        Some(Direction::BottomRight)
    } else {
        None
    }
}

/// Parses a gradient direction such as `to top left` or `45deg`.
pub fn parse_direction<'s>(dir_value: &'s str) -> (d: Option<Direction<'s>>)
    ensures
        direction_view(d) == direction_of(dir_value@),
{
    let parts = split_whitespace(dir_value);
    let ghost w = words(dir_value@);
    assert(w.len() == parts@.len());
    if parts.len() == 0 {
        return None;
    }
    assert(w[0] == parts@[0]@);
    if str_eq(parts[0], "to") {
        if parts.len() == 2 {
            assert(w[1] == parts@[1]@);
            side_named(parts[1])
        } else if parts.len() == 3 {
            assert(w[1] == parts@[1]@);
            assert(w[2] == parts@[2]@);
            corner_named(parts[1], parts[2])
        } else {
            None
        }
    } else if parts.len() == 1 && (ends_with(parts[0], "deg") || ends_with(parts[0], "rad")
        || ends_with(parts[0], "grad") || ends_with(parts[0], "turn")) {
        Some(Direction::Rotation(parts[0]))
    } else {
        None
    }
}

/// Parses a colour stop such as `red` or `#00ff00 10px`.
pub fn parse_stop<'s>(stop_value: &'s str) -> (r: Option<Stop<'s>>)
    ensures
        stop_view(r) == stop_of(stop_value@),
{
    let parts = split_whitespace(stop_value);
    let ghost w = words(stop_value@);
    assert(w.len() == parts@.len());
    if parts.len() == 1 {
        assert(w[0] == parts@[0]@);
        Some(Stop { offset: None, colour: parts[0] })
    } else if parts.len() == 2 {
        assert(w[0] == parts@[0]@);
        assert(w[1] == parts@[1]@);
        Some(Stop { offset: Some(parts[1]), colour: parts[0] })
    } else {
        None
    }
}


/// The stops denoted by the comma-separated `pieces` that follow the first
/// one: each piece, trimmed, that is a stop, in order; the others are left out.
pub open spec fn stops_of(pieces: Seq<Seq<char>>) -> Seq<StopModel>
    decreases pieces.len(),
{
    if pieces.len() == 0 {
        Seq::empty()
    } else {
        let init = stops_of(pieces.drop_last());
        match stop_of(trimmed(pieces.last())) {
            Some(st) => init.push(st),
            None => init,
        }
    }
}

/// The gradient of kind `kind` whose arguments are `args`: the first
/// comma-separated argument is its direction where it denotes one, else its
/// first stop where it denotes one; every later argument that denotes a stop
/// adds that stop.
pub open spec fn gradient_from(kind: GradientType, args: Seq<char>) -> GradientModel {
    let pieces = split_by(args, Separator::Comma);
    let first = trimmed(pieces[0]);
    let direction = direction_of(first);
    let lead = if direction is None && stop_of(first) is Some {
        seq![stop_of(first)->0]
    } else {
        Seq::empty()
    };
    GradientModel {
        gradient_type: kind,
        direction,
        stops: lead + stops_of(pieces.skip(1)),
    }
}

/// The gradient that the CSS value `s` denotes: after trimming,
/// `linear-gradient(` or `radial-gradient(`, the arguments, and `)`.
pub open spec fn gradient_of(s: Seq<char>) -> Option<GradientModel> {
    let t = trimmed(s);
    if t.len() == 0 || t.last() != ')' {
        None
    } else if has_prefix(t.drop_last(), "linear-gradient("@) {
        Some(gradient_from(GradientType::Linear, t.drop_last().skip("linear-gradient("@.len() as int)))
    } else if has_prefix(t.drop_last(), "radial-gradient("@) {
        Some(gradient_from(GradientType::Radial, t.drop_last().skip("radial-gradient("@.len() as int)))
    } else {
        None
    }
}

/// The model of an optional gradient.
pub open spec fn gradient_view(g: Option<Gradient>) -> Option<GradientModel> {
    match g {
        Some(g) => Some(g@),
        None => None,
    }
}

/// Builds the gradient of kind `kind` from its argument text `args`.
fn gradient_from_args<'s>(kind: GradientType, args: &'s str) -> (g: Gradient<'s>)
    ensures
        g@ == gradient_from(kind, args@),
{
    let pieces = split_pieces(args, Separator::Comma);
    let ghost all = split_by(args@, Separator::Comma);
    proof {
        lemma_split_by_nonempty(args@, Separator::Comma);
    }
    assert(all[0] == pieces@[0]@);
    let first = trim(pieces[0]);
    let direction = parse_direction(first);
    let mut stops: Vec<Stop<'s>> = Vec::new();
    if direction.is_none() {
        if let Some(st) = parse_stop(first) {
            stops.push(st);
        }
    }
    let ghost lead = stops_view(stops@);
    let ghost f = trimmed(all[0]);
    assert(lead =~= (if direction_of(f) is None && stop_of(f) is Some {
        seq![stop_of(f)->0]
    } else {
        Seq::<StopModel>::empty()
    }));
    let mut k: usize = 1;
    assert(all.skip(1).take(0) =~= Seq::<Seq<char>>::empty());
    assert(stops_view(stops@) =~= lead + stops_of(all.skip(1).take(0)));
    while k < pieces.len()
        invariant
            all == strs_view(pieces@),
            1 <= k <= pieces.len(),
            stops_view(stops@) == lead + stops_of(all.skip(1).take(k - 1)),
        decreases pieces.len() - k,
    {
        let piece = trim(pieces[k]);
        let found = parse_stop(piece);
        let ghost before = stops_view(stops@);
        assert(all.skip(1).take(k as int).drop_last() =~= all.skip(1).take(k - 1));
        assert(all.skip(1).take(k as int).last() == pieces@[k as int]@);
        match found {
            Some(st) => {
                stops.push(st);
                assert(stops_view(stops@) =~= before.push(st@));
                assert(before.push(st@) =~= lead + stops_of(all.skip(1).take(k - 1)).push(st@));
            },
            None => {},
        }
        k = k + 1;
    }
    assert(all.skip(1).take(pieces.len() - 1) =~= all.skip(1));
    Gradient { gradient_type: kind, direction, stops }
}

/// Parses a CSS gradient value such as `linear-gradient(to top, red, blue 50%)`.
pub fn parse_css_gradient<'s>(css_value: &'s str) -> (g: Option<Gradient<'s>>)
    ensures
        gradient_view(g) == gradient_of(css_value@),
{
    let t = trim(css_value);
    let inner = match strip_suffix_char(t, ')') {
        Some(inner) => inner,
        None => return None,
    };
    if let Some(args) = strip_prefix(inner, "linear-gradient(") {
        Some(gradient_from_args(GradientType::Linear, args))
    } else if let Some(args) = strip_prefix(inner, "radial-gradient(") {
        Some(gradient_from_args(GradientType::Radial, args))
    } else {
        None
    }
}

/// Directions and stops depend only on the words of the text: any amount of
/// whitespace between, before or after the words gives the same result.
pub proof fn law_parsing_depends_only_on_words(s: Seq<char>, t: Seq<char>)
    requires
        words(s) == words(t),
    ensures
        direction_of(s) == direction_of(t),
        stop_of(s) == stop_of(t),
{
}

/// Whitespace around a gradient value does not change what it denotes.
pub proof fn law_gradient_ignores_surrounding_whitespace(s: Seq<char>)
    ensures
        gradient_of(trimmed(s)) == gradient_of(s),
{
    lemma_trimmed_idempotent(s);
}

/// The colour and the offset of a stop are each a single word: non-empty and
/// free of whitespace.
pub proof fn law_stop_parts_are_single_words(s: Seq<char>)
    ensures
        stop_of(s) matches Some(st) ==> is_single_word(st.colour) && (st.offset matches Some(
            o,
        ) ==> is_single_word(o)),
{
    lemma_words_are_single(s);
}

/// An angle direction is a single word that ends in an angle unit.
pub proof fn law_rotation_is_one_angle_word(s: Seq<char>)
    ensures
        direction_of(s) matches Some(DirectionModel::Rotation(a)) ==> is_single_word(a)
            && has_angle_unit(a),
{
    lemma_words_are_single(s);
    if direction_of(s) is Some {
        if let DirectionModel::Rotation(a) = direction_of(s)->0 {
            assert(a == words(s)[0]);
        }
    }
}

/// Every stop in the result of `stops_of` is the stop of one of the pieces.
proof fn lemma_stops_of_members(pieces: Seq<Seq<char>>)
    ensures
        forall|i: int|
            0 <= i < stops_of(pieces).len() ==> exists|k: int|
                0 <= k < pieces.len() && stop_of(trimmed(pieces[k])) == Some(
                    #[trigger] stops_of(pieces)[i],
                ),
    decreases pieces.len(),
{
    if pieces.len() > 0 {
        lemma_stops_of_members(pieces.drop_last());
        let init = stops_of(pieces.drop_last());
        assert forall|i: int| 0 <= i < stops_of(pieces).len() implies exists|k: int|
            0 <= k < pieces.len() && stop_of(trimmed(pieces[k])) == Some(
                #[trigger] stops_of(pieces)[i],
            ) by {
            if i < init.len() {
                assert(stops_of(pieces)[i] == init[i]);
                let k = choose|k: int|
                    0 <= k < pieces.drop_last().len() && stop_of(trimmed(pieces.drop_last()[k]))
                        == Some(init[i]);
                assert(pieces[k] == pieces.drop_last()[k]);
            } else {
                assert(pieces[pieces.len() - 1] == pieces.last());
            }
        }
    }
}

/// Every stop of a parsed gradient has a single-word colour and, where it has
/// one, a single-word offset.
pub proof fn law_gradient_stops_are_single_words(s: Seq<char>)
    ensures
        gradient_of(s) matches Some(g) ==> forall|i: int|
            0 <= i < g.stops.len() ==> is_single_word((#[trigger] g.stops[i]).colour) && (
            g.stops[i].offset matches Some(o) ==> is_single_word(o)),
{
    if let Some(g) = gradient_of(s) {
        let t = trimmed(s);
        let args = if has_prefix(t.drop_last(), "linear-gradient("@) {
            t.drop_last().skip("linear-gradient("@.len() as int)
        } else {
            t.drop_last().skip("radial-gradient("@.len() as int)
        };
        let pieces = split_by(args, Separator::Comma);
        let rest = pieces.skip(1);
        let first = trimmed(pieces[0]);
        lemma_stops_of_members(rest);
        law_stop_parts_are_single_words(first);
        let lead_len = g.stops.len() - stops_of(rest).len();
        assert forall|i: int| 0 <= i < g.stops.len() implies is_single_word(
            (#[trigger] g.stops[i]).colour,
        ) && (g.stops[i].offset matches Some(o) ==> is_single_word(o)) by {
            if i < lead_len {
                assert(stop_of(first) == Some(g.stops[i]));
            } else {
                assert(g.stops[i] == stops_of(rest)[i - lead_len]);
                let k = choose|k: int|
                    0 <= k < rest.len() && stop_of(trimmed(rest[k])) == Some(
                        stops_of(rest)[i - lead_len],
                    );
                law_stop_parts_are_single_words(trimmed(rest[k]));
            }
        }
    }
}

/// A stop is decided by its words alone: one word is a colour, two words are
/// a colour and an offset, and any other number of words is no stop.
pub proof fn law_stop_decided_by_word_count(s: Seq<char>)
    ensures
        words(s).len() == 1 ==> stop_of(s) == Some(StopModel { offset: None, colour: words(s)[0] }),
        words(s).len() == 2 ==> stop_of(s) == Some(
            StopModel { offset: Some(words(s)[1]), colour: words(s)[0] },
        ),
        words(s).len() != 1 && words(s).len() != 2 ==> stop_of(s) is None,
{
}

/// Any word is a colour stop, and any word, whitespace and another word is
/// the stop of that colour at that offset, whatever the words hold.
pub proof fn law_words_make_a_stop(colour: Seq<char>, w: char, offset: Seq<char>)
    requires
        is_single_word(colour),
        is_single_word(offset),
        is_white_space(w),
    ensures
        stop_of(colour) == Some(StopModel { offset: None, colour }),
        stop_of(colour + seq![w] + offset) == Some(StopModel { offset: Some(offset), colour }),
{
    lemma_two_words(colour, w, offset);
}

/// The text `linear-gradient(f,rest)`.
pub open spec fn linear_gradient_text(f: Seq<char>, rest: Seq<char>) -> Seq<char> {
    "linear-gradient("@ + f + seq![','] + rest + seq![')']
}

/// The parts of `linear-gradient(f,rest)`: its kind is linear, its first
/// argument is `f`, and its later arguments are the pieces of `rest`.
proof fn lemma_linear_gradient_parts(f: Seq<char>, rest: Seq<char>)
    requires
        forall|i: int| 0 <= i < f.len() ==> f[i] != ',',
    ensures
        ({
            let args = f + seq![','] + rest;
            &&& gradient_of(linear_gradient_text(f, rest)) == Some(
                gradient_from(GradientType::Linear, args),
            )
            &&& split_by(args, Separator::Comma)[0] == f
            &&& split_by(args, Separator::Comma).skip(1) == split_by(rest, Separator::Comma)
        }),
{
    let p = "linear-gradient("@;
    reveal_strlit("linear-gradient(");
    let s = linear_gradient_text(f, rest);
    let args = f + seq![','] + rest;
    assert(s[0] == 'l');
    assert(trim_start(s) == s);
    assert(s.last() == ')');
    assert(trim_end(s) == s);
    assert(s.drop_last() =~= p + args);
    assert((p + args).take(p.len() as int) =~= p);
    assert((p + args).skip(p.len() as int) =~= args);
    assert forall|i: int| 0 <= i < f.len() implies !separates(Separator::Comma, #[trigger] f[i]) by {}
    lemma_split_without_separator(f, Separator::Comma);
    lemma_split_at_separator(f, ',', rest, Separator::Comma);
    assert((seq![f] + split_by(rest, Separator::Comma)).skip(1) =~= split_by(rest, Separator::Comma));
}

/// Where the first argument of a gradient denotes a direction, that is the
/// gradient's direction, and its stops are exactly the stops of the later
/// arguments: the first argument is never taken as a stop.
pub proof fn law_direction_argument_is_not_a_stop(f: Seq<char>, rest: Seq<char>)
    requires
        forall|i: int| 0 <= i < f.len() ==> f[i] != ',',
        direction_of(trimmed(f)) is Some,
    ensures
        gradient_of(linear_gradient_text(f, rest)) == Some(
            GradientModel {
                gradient_type: GradientType::Linear,
                direction: direction_of(trimmed(f)),
                stops: stops_of(split_by(rest, Separator::Comma)),
            },
        ),
{
    lemma_linear_gradient_parts(f, rest);
    let pieces = split_by(rest, Separator::Comma);
    assert(Seq::<StopModel>::empty() + stops_of(pieces) =~= stops_of(pieces));
}

/// Where the first argument of a gradient denotes no direction but a stop,
/// the gradient has no direction and that stop comes first, before the stops
/// of the later arguments.
pub proof fn law_first_argument_stop(f: Seq<char>, rest: Seq<char>)
    requires
        forall|i: int| 0 <= i < f.len() ==> f[i] != ',',
        direction_of(trimmed(f)) is None,
        stop_of(trimmed(f)) is Some,
    ensures
        gradient_of(linear_gradient_text(f, rest)) == Some(
            GradientModel {
                gradient_type: GradientType::Linear,
                direction: None,
                stops: seq![stop_of(trimmed(f))->0] + stops_of(split_by(rest, Separator::Comma)),
            },
        ),
{
    lemma_linear_gradient_parts(f, rest);
}

/// Converts a CSS gradient value into an SVG gradient definition.
///
/// Only values that are not gradients are handled: for them there is no
/// definition. Turning a parsed gradient into SVG is not provided, and such
/// values are outside what this function accepts.
pub fn css_to_svg_def(css_value: &str) -> (def: Option<String>)
    requires
        gradient_of(css_value@) is None,
    ensures
        def is None,
{
    match parse_css_gradient(css_value) {
        Some(_) => None,
        None => None,
    }
}

} // verus!
