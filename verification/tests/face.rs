use yew_ansi::face::{color_text, options_text};
use yew_ansi::graphic_rendition::{ColorEffect, ColorName, SgrEffect};
use yew_ansi::hex::push_hex;

#[test]
fn options_in_fixed_order() {
    assert_eq!(options_text(&SgrEffect::default()), "+");
    let all = SgrEffect {
        bold: true,
        dim: true,
        italic: true,
        underline: true,
        reverse: true,
        fg: ColorEffect::Unset,
        bg: ColorEffect::Unset,
    };
    assert_eq!(options_text(&all), "+iubrd");
    let some = SgrEffect {
        bold: true,
        dim: true,
        ..SgrEffect::default()
    };
    assert_eq!(options_text(&some), "+bd");
}

#[test]
fn colours_by_name_and_by_value() {
    assert_eq!(color_text(&ColorEffect::Unset), "");
    assert_eq!(color_text(&ColorEffect::Name(ColorName::Cyan)), "cyan");
    assert_eq!(
        color_text(&ColorEffect::NameBright(ColorName::Yellow)),
        "bright-yellow"
    );
    assert_eq!(color_text(&ColorEffect::Rgb(0xff00aa)), "rgb:FF00AA");
    assert_eq!(color_text(&ColorEffect::Rgb(0xa0b)), "rgb:A0B");
    assert_eq!(color_text(&ColorEffect::Rgb(0)), "rgb:0");
    assert_eq!(color_text(&ColorEffect::Rgb(u32::MAX)), "rgb:FFFFFFFF");
}

#[test]
fn hexadecimal_digits_with_padding() {
    let cases: [(u32, usize, bool); 10] = [
        (0xab, 10, false),
        (u32::MAX, 12, true),
        (0, 0, false),
        (0, 1, true),
        (0x1f, 6, false),
        (0xabcdef, 6, true),
        (0x1234567, 6, false),
        (0xdeadbeef, 8, false),
        (0xf, 8, true),
        (0x10, 2, false),
    ];
    for (code, width, upper) in cases {
        let mut text = String::from("#");
        push_hex(&mut text, code, width, upper);
        let expected = if upper {
            format!("#{:0width$X}", code, width = width)
        } else {
            format!("#{:0width$x}", code, width = width)
        };
        assert_eq!(text, expected);
    }
}
