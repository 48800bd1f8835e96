//! A resolved style written as the attribute letters and the colour names of
//! an editor's face.
use crate::graphic_rendition::{ColorEffect, ColorName, SgrEffect};
use crate::hex::{push_hex, spec_hex};
use vstd::prelude::*;
use vstd::string::*;

verus! {

/// `letter` where `set` holds, else nothing.
pub open spec fn letter_if(set: bool, letter: Seq<char>) -> Seq<char> {
    if set {
        letter
    } else {
        Seq::empty()
    }
}

/// The attributes of a style: a plus sign, then one letter for each
/// attribute that is set, in the order italic, underline, bold, reverse, dim.
pub open spec fn spec_options(effect: SgrEffect) -> Seq<char> {
    "+"@ + letter_if(effect.italic, "i"@) + letter_if(effect.underline, "u"@) + letter_if(effect.bold, "b"@)
        + letter_if(effect.reverse, "r"@) + letter_if(effect.dim, "d"@)
}

/// A colour by its name, by its name behind `bright-`, or by `rgb:` and its
/// value in upper-case hexadecimal digits; nothing where no colour is set.
pub open spec fn spec_color(color: ColorEffect) -> Seq<char> {
    match color {
        ColorEffect::Name(name) => name.spec_name(),
        ColorEffect::NameBright(name) => "bright-"@ + name.spec_name(),
        ColorEffect::Rgb(code) => "rgb:"@ + spec_hex(code, 1, true),
        ColorEffect::Unset => Seq::empty(),
    }
}

/// Adds `letter` to `text` where `set` holds.
fn push_if(text: &mut String, set: bool, letter: &str)
    ensures
        final(text)@ == old(text)@ + letter_if(set, letter@),
{
    if set {
        text.append(letter);
    } else {
        proof {
            assert(text@ + Seq::<char>::empty() =~= text@);
        }
    }
}

/// Writes the attributes of a style.
pub fn options_text(effect: &SgrEffect) -> (text: String)
    ensures
        text@ == spec_options(*effect),
{
    let mut text: String = String::from_str("+");
    push_if(&mut text, effect.italic, "i");
    push_if(&mut text, effect.underline, "u");
    push_if(&mut text, effect.bold, "b");
    push_if(&mut text, effect.reverse, "r");
    push_if(&mut text, effect.dim, "d");
    text
}

/// Writes a colour.
pub fn color_text(color: &ColorEffect) -> (text: String)
    ensures
        text@ == spec_color(*color),
{
    match color {
        ColorEffect::Name(name) => String::from_str(name.name()),
        ColorEffect::NameBright(name) => {
            let mut text: String = String::from_str("bright-");
            text.append(name.name());
            text
        },
        ColorEffect::Rgb(code) => {
            let mut text: String = String::from_str("rgb:");
            push_hex(&mut text, *code, 1, true);
            text
        },
        ColorEffect::Unset => String::new(),
    }
}

} // verus!
