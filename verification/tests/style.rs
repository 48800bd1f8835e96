use yew_ansi::graphic_rendition::{ColorEffect, ColorName, SgrEffect};
use yew_ansi::style::{color_property_text, ClassStyle, InlineStyle, StyleBuilder};

#[test]
fn push_class_separates_with_a_space() {
    let mut style = ClassStyle::default();
    assert_eq!(style.class, None);
    style.push_class("a");
    assert_eq!(style.class.as_deref(), Some("a"));
    style.push_class("b ");
    assert_eq!(style.class.as_deref(), Some("a b "));
    style.push_class("c");
    assert_eq!(style.class.as_deref(), Some("a b c"));
    assert_eq!(style.style, None);
}

#[test]
fn push_class_of_nothing_still_makes_a_list() {
    let mut style = ClassStyle::default();
    style.push_class("");
    assert_eq!(style.class.as_deref(), Some(""));
    style.push_class("x");
    assert_eq!(style.class.as_deref(), Some("x"));
}

#[test]
fn push_style_separates_with_a_semicolon() {
    let mut style = ClassStyle::default();
    style.push_style("color:red");
    assert_eq!(style.style.as_deref(), Some("color:red"));
    style.push_style("top:0;");
    assert_eq!(style.style.as_deref(), Some("color:red;top:0;"));
    style.push_style("left:0");
    assert_eq!(style.style.as_deref(), Some("color:red;top:0;left:0"));
    assert_eq!(style.class, None);
}

#[test]
fn colour_property_in_six_digits() {
    assert_eq!(color_property_text("color:#", 0), "color:#000000;");
    assert_eq!(color_property_text("color:#", 0xff00), "color:#00ff00;");
    assert_eq!(color_property_text("color:#", 0xabcdef), "color:#abcdef;");
    assert_eq!(color_property_text("x", 0x1234567), "x1234567;");
    assert_eq!(color_property_text("", 0xffff_ffff), "ffffffff;");
    assert_eq!(color_property_text("", 0x1000_0000), "10000000;");
    assert_eq!(color_property_text("", 0x9a0b0c), format!("{:06x};", 0x9a0b0c));
}

#[test]
fn default_style_builds_nothing() {
    let style = SgrEffect::default().to_class_style::<InlineStyle>();
    assert_eq!(style, ClassStyle::default());
}

#[test]
fn inline_style_in_fixed_order() {
    let effect = SgrEffect {
        bold: true,
        dim: true,
        italic: true,
        underline: true,
        reverse: true,
        fg: ColorEffect::Name(ColorName::Green),
        bg: ColorEffect::Rgb(0x10203),
    };
    let style = effect.to_class_style::<InlineStyle>();
    assert_eq!(style.class, None);
    assert_eq!(
        style.style.as_deref(),
        Some(
            "font-weight:bold;font-style:italic;text-decoration:underline;color:#00ff00;background-color:#010203;"
        )
    );
}

#[test]
fn inline_style_of_single_attributes() {
    let bold = SgrEffect {
        bold: true,
        ..SgrEffect::default()
    };
    assert_eq!(
        bold.to_class_style::<InlineStyle>().style.as_deref(),
        Some("font-weight:bold;")
    );
    let green = SgrEffect {
        fg: ColorEffect::Name(ColorName::Green),
        ..SgrEffect::default()
    };
    assert_eq!(
        green.to_class_style::<InlineStyle>().style.as_deref(),
        Some("color:#00ff00;")
    );
}

#[test]
fn builder_steps_by_hand() {
    let mut builder = InlineStyle::empty();
    builder.underline();
    builder.bg_color(&ColorEffect::Unset);
    builder.fg_color(&ColorEffect::NameBright(ColorName::Black));
    let style = builder.finish();
    assert_eq!(
        style.style.as_deref(),
        Some("text-decoration:underline;color:#010101;")
    );
}

#[test]
fn styled_segments_of_a_text() {
    let styled = yew_ansi::segments::styled_segments::<InlineStyle>(
        "Hello \u{001b}[32mWorld\u{001b}[39;1m!",
    );
    assert_eq!(styled.len(), 3);
    assert_eq!(styled[0], (ClassStyle::default(), String::from("Hello ")));
    assert_eq!(styled[1].0.style.as_deref(), Some("color:#00ff00;"));
    assert_eq!(styled[1].1, "World");
    assert_eq!(styled[2].0.style.as_deref(), Some("font-weight:bold;"));
    assert_eq!(styled[2].1, "!");
    assert_eq!(yew_ansi::segments::styled_segments::<InlineStyle>(""), vec![]);
}
