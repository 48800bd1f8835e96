use yew_ansi::cursor::CharCursor;
use yew_ansi::graphic_rendition::{parse_sgrs, ColorEffect, ColorName, Sgr, SgrEffect};
use yew_ansi::segments::get_sgr_segments;
use yew_ansi::sequences::{get_markers, parse_decimal, read_next_sequence, Csi, Escape, Marker};

fn parse(s: &str) -> Option<Escape> {
    let s = s.replace("CSI ", "\u{001b} [");
    Escape::parse(&mut CharCursor::new(&s))
}

fn parse_sgr(s: &str) -> Vec<Sgr> {
    match parse(s) {
        Some(Escape::Csi(Csi::Sgr(sgr))) => sgr,
        _ => panic!("expected sgr"),
    }
}

fn sgr_marker(sgrs: Vec<Sgr>) -> Marker<'static> {
    Marker::Sequence(Escape::Csi(Csi::Sgr(sgrs)))
}

fn default_effect() -> SgrEffect {
    SgrEffect::default()
}

#[test]
fn parsing() {
    assert_eq!(
        parse_sgr("CSI 32 m"),
        vec![Sgr::ColorFgName(ColorName::Green)]
    );
    assert_eq!(
        parse_sgr("CSI 32;1m"),
        vec![Sgr::ColorFgName(ColorName::Green), Sgr::Bold]
    );
}

#[test]
fn marking() {
    let markers = get_markers("Hello \u{001b} [33mWorld").collect();
    assert_eq!(
        markers,
        vec![
            Marker::Text("Hello "),
            Marker::Sequence(Escape::Csi(Csi::Sgr(vec![Sgr::ColorFgName(
                ColorName::Yellow
            )]))),
            Marker::Text("World"),
        ]
    )
}

#[test]
fn read_next_sequence_splits_at_the_escape() {
    let (pre, esc, post) = read_next_sequence("Hello \u{001b}[32mWorld");
    assert_eq!(pre, "Hello ");
    assert_eq!(
        esc,
        Some(Escape::Csi(Csi::Sgr(vec![Sgr::ColorFgName(
            ColorName::Green
        )])))
    );
    assert_eq!(post, "World");
}

#[test]
fn read_next_sequence_without_escape_returns_everything_first() {
    let (pre, esc, post) = read_next_sequence("no escapes here");
    assert_eq!(pre, "no escapes here");
    assert_eq!(esc, None);
    assert_eq!(post, "");
}

#[test]
fn markers_of_a_longer_text() {
    let markers = get_markers("Hello \u{001b}[32mWorld\u{001b}[39;1m!").collect();
    assert_eq!(
        markers,
        vec![
            Marker::Text("Hello "),
            sgr_marker(vec![Sgr::ColorFgName(ColorName::Green)]),
            Marker::Text("World"),
            sgr_marker(vec![Sgr::ResetColorFg, Sgr::Bold]),
            Marker::Text("!"),
        ]
    );
}

#[test]
fn segments_of_a_longer_text() {
    let mut segments = get_sgr_segments("Hello \u{001b}[32mWorld\u{001b}[39;1m!");
    assert_eq!(segments.next(), Some((default_effect(), "Hello ")));
    assert_eq!(
        segments.next(),
        Some((
            SgrEffect {
                fg: ColorEffect::Name(ColorName::Green),
                ..default_effect()
            },
            "World"
        ))
    );
    assert_eq!(
        segments.next(),
        Some((
            SgrEffect {
                bold: true,
                ..default_effect()
            },
            "!"
        ))
    );
    assert_eq!(segments.next(), None);
    assert_eq!(segments.next(), None);
}

#[test]
fn empty_input_has_no_markers_and_no_segments() {
    assert_eq!(get_markers("").collect(), vec![]);
    assert_eq!(get_sgr_segments("").collect(), vec![]);
    assert_eq!(get_markers("").next(), None);
}

#[test]
fn pure_text_is_one_marker_and_one_segment() {
    assert_eq!(get_markers("hello").collect(), vec![Marker::Text("hello")]);
    assert_eq!(
        get_sgr_segments("hello").collect(),
        vec![(default_effect(), "hello")]
    );
}

#[test]
fn single_attribute_applies_to_what_follows() {
    assert_eq!(
        get_sgr_segments("A\x1b[32mB").collect(),
        vec![
            (default_effect(), "A"),
            (
                SgrEffect {
                    fg: ColorEffect::Name(ColorName::Green),
                    ..default_effect()
                },
                "B"
            ),
        ]
    );
}

#[test]
fn reset_clears_bold() {
    assert_eq!(
        get_sgr_segments("\x1b[1mA\x1b[0mB").collect(),
        vec![
            (
                SgrEffect {
                    bold: true,
                    ..default_effect()
                },
                "A"
            ),
            (default_effect(), "B"),
        ]
    );
}

#[test]
fn malformed_sequence_is_dropped() {
    let markers = get_markers("A\x1b[9999zB").collect();
    assert_eq!(markers, vec![Marker::Text("A"), Marker::Text("B")]);
    let text: String = get_sgr_segments("A\x1b[9999zB")
        .collect()
        .iter()
        .map(|segment| segment.1)
        .collect();
    assert_eq!(text, "AB");
}

#[test]
fn truncated_sequences_are_dropped() {
    assert_eq!(get_markers("A\x1b").collect(), vec![Marker::Text("A")]);
    assert_eq!(get_markers("A\x1b[").collect(), vec![Marker::Text("A")]);
    assert_eq!(get_markers("A\x1b[31").collect(), vec![Marker::Text("A")]);
    assert_eq!(get_markers("\x1b\x1b[1m").collect(), vec![sgr_marker(vec![Sgr::Bold])]);
    assert_eq!(get_markers("\x1b").collect(), vec![]);
}

#[test]
fn escape_without_control_sequence_takes_only_its_intermediates() {
    assert_eq!(
        get_markers("a\x1b  xb").collect(),
        vec![Marker::Text("a"), Marker::Text("xb")]
    );
}

#[test]
fn final_character_may_be_wide() {
    // the character read in place of a final one is dropped whole
    assert_eq!(
        get_markers("a\x1b[1\u{e9}b").collect(),
        vec![Marker::Text("a"), Marker::Text("b")]
    );
    assert_eq!(
        get_markers("h\u{e9}llo \x1b[3mw\u{f6}rld").collect(),
        vec![
            Marker::Text("h\u{e9}llo "),
            sgr_marker(vec![Sgr::Italic]),
            Marker::Text("w\u{f6}rld"),
        ]
    );
}

#[test]
fn trailing_separator_adds_no_parameter() {
    assert_eq!(parse_sgr("CSI 1;m"), vec![Sgr::Bold]);
    assert_eq!(parse_sgr("CSI m"), vec![]);
    // an empty parameter between separators is one, and is no number
    assert_eq!(parse("CSI 1;;2m"), None);
    assert_eq!(parse("CSI ;m"), None);
    assert_eq!(parse("CSI ;1m"), None);
}

#[test]
fn read_params_keeps_the_raw_slices() {
    let mut cursor = CharCursor::new("1;m");
    assert_eq!(Csi::read_params(&mut cursor), Some(('m', vec!["1"])));
    let mut cursor = CharCursor::new("1;;2 H rest");
    assert_eq!(
        Csi::read_params(&mut cursor),
        Some(('H', vec!["1", "", "2"]))
    );
    assert_eq!(cursor.remainder(), " rest");
    let mut cursor = CharCursor::new(";x");
    assert_eq!(Csi::read_params(&mut cursor), Some(('x', vec![""])));
    let mut cursor = CharCursor::new("12;3?");
    assert_eq!(Csi::read_params(&mut cursor), None);
    assert_eq!(cursor.position(), 5);
    let mut cursor = CharCursor::new("12 \u{7f}z");
    assert_eq!(Csi::read_params(&mut cursor), None);
    assert_eq!(cursor.remainder(), "z");
}

#[test]
fn parameters_that_are_no_numbers_fail_the_sequence() {
    assert_eq!(parse("CSI 1:2m"), None);
    assert_eq!(parse("CSI ?25m"), None);
    assert_eq!(parse("CSI 99999999999999999999999999m"), None);
    assert_eq!(parse("CSI 1z"), None);
    assert_eq!(parse("no escape"), None);
}

#[test]
fn parse_decimal_values() {
    assert_eq!(parse_decimal("0"), Some(0));
    assert_eq!(parse_decimal("007"), Some(7));
    assert_eq!(parse_decimal("1234"), Some(1234));
    assert_eq!(parse_decimal(""), None);
    assert_eq!(parse_decimal("12a"), None);
    assert_eq!(parse_decimal("+1"), None);
    let max = usize::MAX.to_string();
    assert_eq!(parse_decimal(&max), Some(usize::MAX));
    let mut over = max.clone();
    over.push('0');
    assert_eq!(parse_decimal(&over), None);
    assert_eq!(parse_decimal("18446744073709551616"), None);
}

#[test]
fn unknown_parameter_is_skipped() {
    assert_eq!(parse_sgrs(&[1, 999, 3]), vec![Sgr::Bold, Sgr::Italic]);
    assert_eq!(parse_sgr("CSI 1;999;3m"), vec![Sgr::Bold, Sgr::Italic]);
    let mut effect = default_effect();
    effect.apply_sgrs(&parse_sgrs(&[1, 999, 3]));
    assert_eq!(
        effect,
        SgrEffect {
            bold: true,
            italic: true,
            ..default_effect()
        }
    );
}

fn marker_texts(input: &str) -> String {
    let mut text = String::new();
    for marker in get_markers(input).collect() {
        if let Marker::Text(span) = marker {
            text.push_str(span);
        }
    }
    text
}

fn segment_texts(input: &str) -> String {
    let mut text = String::new();
    for (_, span) in get_sgr_segments(input).collect() {
        text.push_str(span);
    }
    text
}

#[test]
fn texts_rebuild_the_input_without_escapes() {
    let cases = [
        ("", ""),
        ("plain", "plain"),
        ("a\x1b[1mb\x1b[zc\x1b", "abc"),
        ("\x1b[31;1mred\x1b[0m and \x1b[38;5;200mpink\x1b[m.", "red and pink."),
        ("x\x1b !\"[1;2 /my", "xy"),
        ("x\x1b[12;", "x"),
        ("x\x1b#y", "xy"),
        ("\u{e9}\x1b[1m\u{20ac}\x1b[\u{1f600}!", "\u{e9}\u{20ac}!"),
        ("tab\there\x1b\x1b\x1b[4mz", "tab\therez"),
    ];
    for (input, expected) in cases {
        assert_eq!(marker_texts(input), expected);
        assert_eq!(segment_texts(input), expected);
    }
}

#[test]
fn text_markers_are_never_empty_and_hold_no_introducer() {
    let input = "\x1b[1m\x1b[2mab\x1b\x1bcd\x1b[xyz\x1b";
    let markers = get_markers(input).collect();
    assert_eq!(
        markers,
        vec![
            sgr_marker(vec![Sgr::Bold]),
            sgr_marker(vec![Sgr::Dim]),
            Marker::Text("ab"),
            Marker::Text("cd"),
            Marker::Text("yz"),
        ]
    );
    for marker in markers {
        if let Marker::Text(span) = marker {
            assert!(!span.is_empty());
            assert!(!span.contains('\x1b'));
        }
    }
}

#[test]
fn style_carries_over_dropped_sequences() {
    assert_eq!(
        get_sgr_segments("\x1b[1;3ma\x1b[?25hb\x1b[23mc").collect(),
        vec![
            (
                SgrEffect {
                    bold: true,
                    italic: true,
                    ..default_effect()
                },
                "a"
            ),
            (
                SgrEffect {
                    bold: true,
                    italic: true,
                    ..default_effect()
                },
                "b"
            ),
            (
                SgrEffect {
                    bold: true,
                    ..default_effect()
                },
                "c"
            ),
        ]
    );
}

#[test]
fn markers_end_for_good() {
    let mut markers = get_markers("a\x1b[1m");
    assert_eq!(markers.next(), Some(Marker::Text("a")));
    assert_eq!(markers.next(), Some(sgr_marker(vec![Sgr::Bold])));
    assert_eq!(markers.next(), None);
    assert_eq!(markers.next(), None);
}

#[test]
fn sequence_without_parameters_changes_nothing() {
    assert_eq!(
        get_sgr_segments("\x1b[1ma\x1b[mb").collect(),
        vec![
            (
                SgrEffect {
                    bold: true,
                    ..default_effect()
                },
                "a"
            ),
            (
                SgrEffect {
                    bold: true,
                    ..default_effect()
                },
                "b"
            ),
        ]
    );
}
