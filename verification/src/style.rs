//! Class names and inline styles for a resolved style, and the builders that
//! write them.
use crate::graphic_rendition::{ColorEffect, SgrEffect};
use crate::hex::{push_hex, spec_hex};
use vstd::prelude::*;
use vstd::string::*;

verus! {

/// What a [`ClassStyle`] holds: the text of its classes and of its inline
/// style, each where there is one.
pub ghost struct ClassStyleModel {
    pub class: Option<Seq<char>>,
    pub style: Option<Seq<char>>,
}

/// Combination of classes and inline styles.
///
/// While it is possible to use inline styles only, it is not doable
/// with just classes due to the amount of RGB colour values.
#[derive(Clone, Debug, PartialEq, Eq)]
pub struct ClassStyle {
    pub class: Option<String>,
    pub style: Option<String>,
}

/// The text of an optional string.
pub open spec fn text_of(s: Option<String>) -> Option<Seq<char>> {
    match s {
        Some(text) => Some(text@),
        None => None,
    }
}

impl View for ClassStyle {
    type V = ClassStyleModel;

    open spec fn view(&self) -> ClassStyleModel {
        ClassStyleModel { class: text_of(self.class), style: text_of(self.style) }
    }
}

impl Default for ClassStyle {
    fn default() -> (style: ClassStyle)
        ensures
            style@ == (ClassStyleModel { class: None, style: None }),
    {
        ClassStyle { class: None, style: None }
    }
}

/// A list with one more entry: `new` behind what was there, with the
/// delimiter between the two unless the list was empty or ended in one.
pub open spec fn pushed(current: Option<Seq<char>>, new: Seq<char>, delimiter: char) -> Seq<char> {
    let list = match current {
        Some(text) => text,
        None => Seq::empty(),
    };
    if list.len() > 0 && list.last() != delimiter {
        list.push(delimiter) + new
    } else {
        list + new
    }
}

/// `str::ends_with` for a single character: true where the text is not empty
/// and its last character is `c`.
#[verifier::external_body]
fn ends_with_char(text: &str, c: char) -> (found: bool)
    ensures
        found == (text@.len() > 0 && text@.last() == c),
{
    text.ends_with(c)
}

/// Adds an entry to a delimited list.
fn push_entry(current: Option<String>, new: &str, delimiter: char, delimiter_text: &str) -> (list: String)
    requires
        delimiter_text@ == seq![delimiter],
    ensures
        list@ == pushed(text_of(current), new@, delimiter),
{
    let mut list: String = match current {
        Some(text) => text,
        None => String::new(),
    };
    if !list.as_str().is_empty() && !ends_with_char(list.as_str(), delimiter) {
        list.append(delimiter_text);
        proof {
            assert(text_of(current)->0.push(delimiter) =~= text_of(current)->0 + seq![delimiter]);
        }
    }
    list.append(new);
    list
}

impl ClassStyle {
    /// Push a new class to the classes.
    /// This function doesn't validate the given string in any way.
    pub fn push_class(&mut self, new: &str)
        ensures
            final(self)@.class == Some(pushed(old(self)@.class, new@, ' ')),
            final(self)@.style == old(self)@.style,
    {
        proof {
            reveal_strlit(" ");
            assert(" "@ =~= seq![' ']);
        }
        let class = push_entry(self.class.take(), new, ' ', " ");
        self.class = Some(class);
    }

    /// Push a new property to the style.
    /// This function doesn't validate the given string in any way.
    pub fn push_style(&mut self, new: &str)
        ensures
            final(self)@.style == Some(pushed(old(self)@.style, new@, ';')),
            final(self)@.class == old(self)@.class,
    {
        proof {
            reveal_strlit(";");
            assert(";"@ =~= seq![';']);
        }
        let style = push_entry(self.style.take(), new, ';', ";");
        self.style = Some(style);
    }
}

/// Builder for [`ClassStyle`].
///
/// A builder says what each of its steps does to a model of its state; the
/// steps are then held to that.
pub trait StyleBuilder: Sized {
    /// What the builder's state is taken to be in contracts.
    type Model;

    /// The model of this builder's state.
    spec fn model(&self) -> Self::Model;

    /// The model of a builder that has recorded nothing.
    spec fn empty_model() -> Self::Model;

    /// The model after bold was recorded.
    spec fn bold_model(m: Self::Model) -> Self::Model;

    /// The model after italic was recorded.
    spec fn italic_model(m: Self::Model) -> Self::Model;

    /// The model after underline was recorded.
    spec fn underline_model(m: Self::Model) -> Self::Model;

    /// The model after a foreground colour was recorded.
    spec fn fg_model(m: Self::Model, color: ColorEffect) -> Self::Model;

    /// The model after a background colour was recorded.
    spec fn bg_model(m: Self::Model, color: ColorEffect) -> Self::Model;

    /// What a builder in the given state finishes as.
    spec fn finish_model(m: Self::Model) -> ClassStyleModel;

    /// A builder that has recorded nothing.
    fn empty() -> (builder: Self)
        ensures
            builder.model() == Self::empty_model(),
    ;

    /// Finish building and create a `ClassStyle`.
    fn finish(self) -> (style: ClassStyle)
        ensures
            style@ == Self::finish_model(self.model()),
    ;

    /// Apply bold.
    fn bold(&mut self)
        ensures
            final(self).model() == Self::bold_model(old(self).model()),
    ;

    /// Apply italic.
    fn italic(&mut self)
        ensures
            final(self).model() == Self::italic_model(old(self).model()),
    ;

    /// Apply underline.
    fn underline(&mut self)
        ensures
            final(self).model() == Self::underline_model(old(self).model()),
    ;

    /// Set the foreground colour.
    fn fg_color(&mut self, color: &ColorEffect)
        ensures
            final(self).model() == Self::fg_model(old(self).model(), *color),
    ;

    /// Set the background colour.
    fn bg_color(&mut self, color: &ColorEffect)
        ensures
            final(self).model() == Self::bg_model(old(self).model(), *color),
    ;
}

/// The state of a builder that was handed a style step by step: bold, italic
/// and underline where they are set, in this order, then the foreground and
/// the background colour.
pub open spec fn spec_built<B: StyleBuilder>(effect: SgrEffect) -> B::Model {
    let start = B::empty_model();
    let bold = if effect.bold {
        B::bold_model(start)
    } else {
        start
    };
    let italic = if effect.italic {
        B::italic_model(bold)
    } else {
        bold
    };
    let underline = if effect.underline {
        B::underline_model(italic)
    } else {
        italic
    };
    B::bg_model(B::fg_model(underline, effect.fg), effect.bg)
}

impl SgrEffect {
    /// Hands this style to a builder of the given kind, step by step, and
    /// returns what the builder finishes as.
    pub fn to_class_style<B: StyleBuilder>(&self) -> (style: ClassStyle)
        ensures
            style@ == B::finish_model(spec_built::<B>(*self)),
    {
        let mut builder = B::empty();
        if self.bold {
            builder.bold();
        }
        if self.italic {
            builder.italic();
        }
        if self.underline {
            builder.underline();
        }
        builder.fg_color(&self.fg);
        builder.bg_color(&self.bg);
        builder.finish()
    }
}

/// The inline style property that sets a colour: the property's name up to
/// the number sign, the colour in at least six lower-case hexadecimal digits,
/// and a semicolon.
pub open spec fn color_property(name: Seq<char>, code: u32) -> Seq<char> {
    name + spec_hex(code, 6, false) + ";"@
}

/// Writes the property that sets a colour.
pub fn color_property_text(name: &str, code: u32) -> (text: String)
    ensures
        text@ == color_property(name@, code),
{
    let mut text: String = String::from_str(name);
    push_hex(&mut text, code, 6, false);
    text.append(";");
    text
}

/// The model of an inline style with one more property.
pub open spec fn with_property(m: ClassStyleModel, property: Seq<char>) -> ClassStyleModel {
    ClassStyleModel { class: m.class, style: Some(pushed(m.style, property, ';')) }
}

/// The model of an inline style with a colour property, where the colour is set.
pub open spec fn with_color(m: ClassStyleModel, name: Seq<char>, color: ColorEffect) -> ClassStyleModel {
    match color.spec_rgb() {
        Some(code) => with_property(m, color_property(name, code as u32)),
        None => m,
    }
}

/// Style builder using only inline style attributes.
#[derive(Clone, Debug)]
pub struct InlineStyle(ClassStyle);

impl Default for InlineStyle {
    fn default() -> (builder: InlineStyle)
        ensures
            builder.model() == (ClassStyleModel { class: None, style: None }),
    {
        InlineStyle(ClassStyle::default())
    }
}

impl StyleBuilder for InlineStyle {
    type Model = ClassStyleModel;

    closed spec fn model(&self) -> ClassStyleModel {
        self.0@
    }

    open spec fn empty_model() -> ClassStyleModel {
        ClassStyleModel { class: None, style: None }
    }

    open spec fn bold_model(m: ClassStyleModel) -> ClassStyleModel {
        with_property(m, "font-weight:bold;"@)
    }

    open spec fn italic_model(m: ClassStyleModel) -> ClassStyleModel {
        with_property(m, "font-style:italic;"@)
    }

    open spec fn underline_model(m: ClassStyleModel) -> ClassStyleModel {
        with_property(m, "text-decoration:underline;"@)
    }

    open spec fn fg_model(m: ClassStyleModel, color: ColorEffect) -> ClassStyleModel {
        with_color(m, "color:#"@, color)
    }

    open spec fn bg_model(m: ClassStyleModel, color: ColorEffect) -> ClassStyleModel {
        with_color(m, "background-color:#"@, color)
    }

    open spec fn finish_model(m: ClassStyleModel) -> ClassStyleModel {
        m
    }

    fn empty() -> (builder: InlineStyle) {
        InlineStyle(ClassStyle::default())
    }

    fn finish(self) -> (style: ClassStyle) {
        self.0
    }

    fn bold(&mut self) {
        self.0.push_style("font-weight:bold;");
    }

    fn italic(&mut self) {
        self.0.push_style("font-style:italic;");
    }

    fn underline(&mut self) {
        self.0.push_style("text-decoration:underline;");
    }

    fn fg_color(&mut self, color: &ColorEffect) {
        if let Some(code) = color.rgb() {
            let property = color_property_text("color:#", code);
            self.0.push_style(property.as_str());
        }
    }

    fn bg_color(&mut self, color: &ColorEffect) {
        if let Some(code) = color.rgb() {
            let property = color_property_text("background-color:#", code);
            self.0.push_style(property.as_str());
        }
    }
}

} // verus!
