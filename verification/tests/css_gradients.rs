use discord_theme_editor::css_gradients::{
    css_to_svg_def, parse_css_gradient, parse_direction, parse_stop, Direction, Gradient,
    GradientType, Stop,
};

#[test]
fn parse_simple_linear_gradient() {
    assert_eq!(
        parse_css_gradient("linear-gradient(red, blue, green)"),
        Some(Gradient {
            gradient_type: GradientType::Linear,
            direction: None,
            stops: vec!(
                Stop {
                    offset: None,
                    colour: "red"
                },
                Stop {
                    offset: None,
                    colour: "blue"
                },
                Stop {
                    offset: None,
                    colour: "green"
                },
            ),
        })
    );
}

#[test]
fn parse_linear_gradient_with_direction() {
    assert_eq!(
        parse_css_gradient("linear-gradient(to top left, #ff0000, #00ff00 85%, #0000ff)"),
        Some(Gradient {
            gradient_type: GradientType::Linear,
            direction: Some(Direction::TopLeft),
            stops: vec!(
                Stop {
                    offset: None,
                    colour: "#ff0000"
                },
                Stop {
                    offset: Some("85%"),
                    colour: "#00ff00"
                },
                Stop {
                    offset: None,
                    colour: "#0000ff"
                },
            ),
        })
    );
}

#[test]
fn parse_sided_direction() {
    assert_eq!(parse_direction("to left"), Some(Direction::Left));
    assert_eq!(parse_direction("to right"), Some(Direction::Right));
    assert_eq!(parse_direction("to top"), Some(Direction::Top));
    assert_eq!(parse_direction("to bottom"), Some(Direction::Bottom));

    assert_eq!(parse_direction("to    left"), Some(Direction::Left));

    assert_eq!(parse_direction("to nowhere"), None);
}

#[test]
fn parse_corner_direction() {
    assert_eq!(parse_direction("to top left"), Some(Direction::TopLeft));
    assert_eq!(parse_direction("to top right"), Some(Direction::TopRight));
    assert_eq!(
        parse_direction("to bottom left"),
        Some(Direction::BottomLeft)
    );
    assert_eq!(
        parse_direction("to bottom right"),
        Some(Direction::BottomRight)
    );

    assert_eq!(parse_direction("to    top  left"), Some(Direction::TopLeft));

    assert_eq!(parse_direction("to be free"), None);
}

#[test]
fn parse_rotational_direction() {
    assert_eq!(parse_direction("45deg"), Some(Direction::Rotation("45deg")));
    assert_eq!(
        parse_direction("3.1416rad"),
        Some(Direction::Rotation("3.1416rad"))
    );
    assert_eq!(
        parse_direction("-50grad"),
        Some(Direction::Rotation("-50grad"))
    );
    assert_eq!(
        parse_direction("1.75turn"),
        Some(Direction::Rotation("1.75turn"))
    );
}

#[test]
fn parse_colour_stop() {
    assert_eq!(
        parse_stop("red"),
        Some(Stop {
            offset: None,
            colour: "red"
        })
    );

    assert_eq!(
        parse_stop("#00ff00"),
        Some(Stop {
            offset: None,
            colour: "#00ff00"
        })
    );

    assert_eq!(parse_stop("red 50% blue"), None);
}

#[test]
fn parse_colour_length_stop() {
    assert_eq!(
        parse_stop("red 50%"),
        Some(Stop {
            offset: Some("50%"),
            colour: "red"
        })
    );
    assert_eq!(
        parse_stop("purple -5%"),
        Some(Stop {
            offset: Some("-5%"),
            colour: "purple"
        })
    );

    assert_eq!(
        parse_stop("#00ff00 10px"),
        Some(Stop {
            offset: Some("10px"),
            colour: "#00ff00"
        })
    );

    assert_eq!(parse_stop("1% green red"), None);
}

#[test]
fn parse_simple_radial_gradient() {
    assert_eq!(
        parse_css_gradient("radial-gradient(black, purple)"),
        Some(Gradient {
            gradient_type: GradientType::Radial,
            direction: None,
            stops: vec!(
                Stop {
                    offset: None,
                    colour: "black"
                },
                Stop {
                    offset: None,
                    colour: "purple"
                },
            ),
        })
    );
}

#[test]
fn gradient_ignores_surrounding_whitespace() {
    assert_eq!(
        parse_css_gradient("  \tlinear-gradient(45deg,red 10%,  blue)\n "),
        Some(Gradient {
            gradient_type: GradientType::Linear,
            direction: Some(Direction::Rotation("45deg")),
            stops: vec!(
                Stop {
                    offset: Some("10%"),
                    colour: "red"
                },
                Stop {
                    offset: None,
                    colour: "blue"
                },
            ),
        })
    );
}

#[test]
fn gradient_drops_pieces_that_are_not_stops() {
    assert_eq!(
        parse_css_gradient("linear-gradient(to nowhere, red 1% 2%, , blue)"),
        Some(Gradient {
            gradient_type: GradientType::Linear,
            direction: None,
            stops: vec!(
                Stop {
                    offset: Some("nowhere"),
                    colour: "to"
                },
                Stop {
                    offset: None,
                    colour: "blue"
                },
            ),
        })
    );
}

#[test]
fn gradient_with_no_arguments() {
    assert_eq!(
        parse_css_gradient("radial-gradient()"),
        Some(Gradient {
            gradient_type: GradientType::Radial,
            direction: None,
            stops: vec!(),
        })
    );
}

#[test]
fn not_a_gradient() {
    assert_eq!(parse_css_gradient("red"), None);
    assert_eq!(parse_css_gradient("linear-gradient(red, blue"), None);
    assert_eq!(parse_css_gradient("conic-gradient(red, blue)"), None);
    assert_eq!(parse_css_gradient(""), None);
}

#[test]
fn direction_edge_cases() {
    assert_eq!(parse_direction(""), None);
    assert_eq!(parse_direction("to"), None);
    assert_eq!(parse_direction("to top left extra"), None);
    assert_eq!(parse_direction("45deg 10deg"), None);
    assert_eq!(parse_direction("to left top"), None);
    assert_eq!(parse_direction("45"), None);
    assert_eq!(parse_direction("\u{3000}to\u{a0}right\u{2028}"), Some(Direction::Right));
}

#[test]
fn stop_edge_cases() {
    assert_eq!(parse_stop(""), None);
    assert_eq!(parse_stop("   "), None);
}

#[test]
fn svg_def_of_a_value_that_is_not_a_gradient() {
    assert_eq!(css_to_svg_def("#ff00ff"), None);
}
