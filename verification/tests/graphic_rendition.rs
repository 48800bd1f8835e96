use yew_ansi::graphic_rendition::{parse_sgrs, ColorEffect, ColorName, Sgr, SgrEffect};

fn rgb(r: u32, g: u32, b: u32) -> u32 {
    (r << 16) + (g << 8) + b
}

#[test]
fn palette_of_named_colours() {
    assert_eq!(ColorName::Black.rgb(false), rgb(128, 128, 128));
    assert_eq!(ColorName::Red.rgb(false), rgb(255, 0, 0));
    assert_eq!(ColorName::Green.rgb(false), rgb(0, 255, 0));
    assert_eq!(ColorName::Yellow.rgb(false), rgb(255, 255, 0));
    assert_eq!(ColorName::Blue.rgb(false), rgb(0, 0, 255));
    assert_eq!(ColorName::Magenta.rgb(false), rgb(255, 0, 255));
    assert_eq!(ColorName::Cyan.rgb(false), rgb(0, 255, 255));
    assert_eq!(ColorName::White.rgb(false), rgb(255, 255, 255));
    assert_eq!(ColorName::Black.rgb(true), rgb(1, 1, 1));
    assert_eq!(ColorName::Red.rgb(true), rgb(222, 56, 43));
    assert_eq!(ColorName::Green.rgb(true), rgb(57, 181, 74));
    assert_eq!(ColorName::Yellow.rgb(true), rgb(255, 199, 6));
    assert_eq!(ColorName::Blue.rgb(true), rgb(0, 111, 184));
    assert_eq!(ColorName::Magenta.rgb(true), rgb(118, 38, 113));
    assert_eq!(ColorName::Cyan.rgb(true), rgb(44, 181, 233));
    assert_eq!(ColorName::White.rgb(true), rgb(204, 204, 204));
}

#[test]
fn colour_names() {
    assert_eq!(ColorName::Black.name(), "black");
    assert_eq!(ColorName::Magenta.name(), "magenta");
    assert_eq!(ColorName::White.name(), "white");
}

#[test]
fn colour_from_the_last_digit_of_a_code() {
    assert_eq!(ColorName::from_code(0), Some(ColorName::Black));
    assert_eq!(ColorName::from_code(37), Some(ColorName::White));
    assert_eq!(ColorName::from_code(94), Some(ColorName::Blue));
    assert_eq!(ColorName::from_code(8), None);
    assert_eq!(ColorName::from_code(39), None);
}

#[test]
fn simple_codes() {
    assert_eq!(
        parse_sgrs(&[0, 1, 2, 3, 4, 7, 22, 23, 24, 27, 39, 49]),
        vec![
            Sgr::Reset,
            Sgr::Bold,
            Sgr::Dim,
            Sgr::Italic,
            Sgr::Underline,
            Sgr::Reverse,
            Sgr::BoldOff,
            Sgr::ItalicOff,
            Sgr::UnderlineOff,
            Sgr::ReverseOff,
            Sgr::ResetColorFg,
            Sgr::ResetColorBg,
        ]
    );
}

#[test]
fn named_colour_codes() {
    assert_eq!(
        parse_sgrs(&[30, 37, 40, 47, 90, 97, 100, 107]),
        vec![
            Sgr::ColorFgName(ColorName::Black),
            Sgr::ColorFgName(ColorName::White),
            Sgr::ColorBgName(ColorName::Black),
            Sgr::ColorBgName(ColorName::White),
            Sgr::ColorFgNameBright(ColorName::Black),
            Sgr::ColorFgNameBright(ColorName::White),
            Sgr::ColorBgNameBright(ColorName::Black),
            Sgr::ColorBgNameBright(ColorName::White),
        ]
    );
}

#[test]
fn unknown_codes_add_nothing() {
    assert_eq!(parse_sgrs(&[]), vec![]);
    assert_eq!(parse_sgrs(&[5, 8, 21, 38, 98, 108, 999]), vec![]);
    assert_eq!(parse_sgrs(&[1, 999, 3]), vec![Sgr::Bold, Sgr::Italic]);
}

#[test]
fn truecolor_packs_its_channels() {
    assert_eq!(
        parse_sgrs(&[38, 2, 10, 20, 30]),
        vec![Sgr::ColorFgRgb((10 << 16) + (20 << 8) + 30)]
    );
    assert_eq!(
        parse_sgrs(&[48, 2, 255, 255, 255, 1]),
        vec![Sgr::ColorBgRgb(0xff_ffff), Sgr::Bold]
    );
    assert_eq!(
        Sgr::from_rgb(256, 0, 0, false),
        Some(Sgr::ColorFgRgb(1 << 24))
    );
    assert_eq!(Sgr::from_rgb(0xffff, 0xff, 0xff, true), Some(Sgr::ColorBgRgb(0xffff_ffff)));
    assert_eq!(Sgr::from_rgb(0x1_0000, 0, 0, false), None);
    assert_eq!(Sgr::from_rgb(0xffff, 0x100, 0, false), None);
    assert_eq!(Sgr::from_rgb(0, 0, usize::MAX, false), None);
}

#[test]
fn palette_boundaries() {
    assert_eq!(
        parse_sgrs(&[38, 5, 0]),
        vec![Sgr::ColorFgName(ColorName::Black)]
    );
    assert_eq!(
        parse_sgrs(&[38, 5, 7]),
        vec![Sgr::ColorFgName(ColorName::White)]
    );
    assert_eq!(
        parse_sgrs(&[48, 5, 8]),
        vec![Sgr::ColorBgNameBright(ColorName::Black)]
    );
    assert_eq!(
        parse_sgrs(&[48, 5, 15]),
        vec![Sgr::ColorBgNameBright(ColorName::White)]
    );
    assert_eq!(parse_sgrs(&[38, 5, 16]), vec![Sgr::ColorFgRgb(0)]);
    assert_eq!(
        parse_sgrs(&[38, 5, 231]),
        vec![Sgr::ColorFgRgb(rgb(210, 210, 210))]
    );
    assert_eq!(parse_sgrs(&[38, 5, 232]), vec![Sgr::ColorFgRgb(0)]);
    assert_eq!(
        parse_sgrs(&[38, 5, 255]),
        vec![Sgr::ColorFgRgb(rgb(230, 230, 230))]
    );
    assert_eq!(
        parse_sgrs(&[38, 5, 67]),
        vec![Sgr::ColorFgRgb(rgb(42, 84, 126))]
    );
    assert_eq!(Sgr::from_palette(256, false), None);
}

#[test]
fn extended_colour_takes_its_arguments_along() {
    // a selector that is not known takes nothing with it
    assert_eq!(parse_sgrs(&[38, 9, 1]), vec![Sgr::Bold]);
    // a palette index out of range is taken and dropped
    assert_eq!(parse_sgrs(&[38, 5, 256, 1]), vec![Sgr::Bold]);
    // channels without room in 32 bits are taken and dropped
    assert_eq!(parse_sgrs(&[38, 2, 70000, 0, 0, 3]), vec![Sgr::Italic]);
    // a colour cut short takes what is left
    assert_eq!(parse_sgrs(&[1, 38, 2, 1, 2]), vec![Sgr::Bold]);
    assert_eq!(parse_sgrs(&[1, 48, 5]), vec![Sgr::Bold]);
    assert_eq!(parse_sgrs(&[1, 48]), vec![Sgr::Bold]);
}

#[test]
fn from_params_reports_where_it_stopped() {
    assert_eq!(Sgr::from_params(&[1, 2], 0), (Some(Sgr::Bold), 1));
    assert_eq!(Sgr::from_params(&[1, 2], 2), (None, 2));
    assert_eq!(
        Sgr::from_params(&[38, 2, 1, 2, 3, 4], 0),
        (Some(Sgr::ColorFgRgb(rgb(1, 2, 3))), 5)
    );
    assert_eq!(Sgr::from_params(&[38, 2, 1], 0), (None, 3));
    assert_eq!(Sgr::from_params(&[999], 0), (None, 1));
    assert_eq!(Sgr::from_params(&[1], 5), (None, 5));
    assert_eq!(Sgr::color_rgb(&[5, 1], 7, false), (None, 7));
    assert_eq!(Sgr::color_rgb(&[2, 1, 2, 3], 0, false), (Some(Sgr::ColorFgRgb(rgb(1, 2, 3))), 4));
    assert_eq!(Sgr::color_rgb(&[7, 1], 0, false), (None, 1));
    assert_eq!(
        Sgr::color_rgb(&[5, 1], 0, true),
        (Some(Sgr::ColorBgName(ColorName::Red)), 2)
    );
}

#[test]
fn colour_effect_values() {
    assert_eq!(ColorEffect::Unset.rgb(), None);
    assert_eq!(ColorEffect::Name(ColorName::Red).rgb(), Some(0xff0000));
    assert_eq!(
        ColorEffect::NameBright(ColorName::Red).rgb(),
        Some(rgb(222, 56, 43))
    );
    assert_eq!(ColorEffect::Rgb(0x123456).rgb(), Some(0x123456));
    assert_eq!(ColorEffect::default(), ColorEffect::Unset);
    assert_eq!(ColorEffect::from_sgr(&Sgr::Bold), ColorEffect::Unset);
    assert_eq!(
        ColorEffect::from_sgr(&Sgr::ColorBgRgb(7)),
        ColorEffect::Rgb(7)
    );
}

#[test]
fn each_parameter_changes_its_attribute() {
    let mut effect = SgrEffect::default();
    effect.apply_sgr(&Sgr::Bold);
    effect.apply_sgr(&Sgr::Dim);
    effect.apply_sgr(&Sgr::Italic);
    effect.apply_sgr(&Sgr::Underline);
    effect.apply_sgr(&Sgr::Reverse);
    effect.apply_sgr(&Sgr::ColorFgName(ColorName::Red));
    effect.apply_sgr(&Sgr::ColorBgNameBright(ColorName::Blue));
    assert_eq!(
        effect,
        SgrEffect {
            bold: true,
            dim: true,
            italic: true,
            underline: true,
            reverse: true,
            fg: ColorEffect::Name(ColorName::Red),
            bg: ColorEffect::NameBright(ColorName::Blue),
        }
    );
    effect.apply_sgr(&Sgr::BoldOff);
    assert!(!effect.bold && !effect.dim && effect.italic);
    effect.apply_sgr(&Sgr::ItalicOff);
    effect.apply_sgr(&Sgr::UnderlineOff);
    effect.apply_sgr(&Sgr::ReverseOff);
    effect.apply_sgr(&Sgr::ResetColorFg);
    assert_eq!(
        effect,
        SgrEffect {
            bg: ColorEffect::NameBright(ColorName::Blue),
            ..SgrEffect::default()
        }
    );
    effect.apply_sgr(&Sgr::ColorFgRgb(5));
    effect.apply_sgr(&Sgr::ResetColorBg);
    assert_eq!(
        effect,
        SgrEffect {
            fg: ColorEffect::Rgb(5),
            ..SgrEffect::default()
        }
    );
}

#[test]
fn reset_gives_the_default_style() {
    let mut effect = SgrEffect {
        bold: true,
        dim: true,
        italic: true,
        underline: true,
        reverse: true,
        fg: ColorEffect::Rgb(1),
        bg: ColorEffect::Name(ColorName::Cyan),
    };
    effect.apply_sgr(&Sgr::Reset);
    assert_eq!(effect, SgrEffect::default());
    let mut effect = SgrEffect::default();
    effect.apply_sgrs(&[Sgr::Bold, Sgr::Reset, Sgr::Italic]);
    assert_eq!(
        effect,
        SgrEffect {
            italic: true,
            ..SgrEffect::default()
        }
    );
}

#[test]
fn later_parameters_override_earlier_ones() {
    let mut effect = SgrEffect::default();
    effect.apply_sgrs(&[
        Sgr::ColorFgName(ColorName::Red),
        Sgr::ColorFgName(ColorName::Blue),
        Sgr::Bold,
        Sgr::BoldOff,
    ]);
    assert_eq!(
        effect,
        SgrEffect {
            fg: ColorEffect::Name(ColorName::Blue),
            ..SgrEffect::default()
        }
    );
    let mut in_two = SgrEffect::default();
    in_two.apply_sgrs(&[Sgr::ColorFgName(ColorName::Red)]);
    in_two.apply_sgrs(&[Sgr::ColorFgName(ColorName::Blue), Sgr::Bold, Sgr::BoldOff]);
    assert_eq!(in_two, effect);
}
