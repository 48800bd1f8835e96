//! Select Graphic Rendition parameters and the style they add up to.
use vstd::prelude::*;

verus! {

/// The 24-bit colour value with the given red, green and blue parts.
pub open spec fn pack_rgb(r: int, g: int, b: int) -> int {
    r * 65536 + g * 256 + b
}

/// Packs three channels into one 24-bit colour value.
fn pack(r: u8, g: u8, b: u8) -> (rgb: u32)
    ensures
        rgb == pack_rgb(r as int, g as int, b as int),
{
    (r as u32) * 65536 + (g as u32) * 256 + (b as u32)
}

/// The eight standard ANSI colours.
#[derive(Clone, Copy, Debug, PartialEq, Eq, Structural)]
pub enum ColorName {
    Black,
    Red,
    Green,
    Yellow,
    Blue,
    Magenta,
    Cyan,
    White,
}

impl ColorName {
    /// The colour that the last decimal digit of `code` selects: digits 0 to 7
    /// name the eight colours in order, 8 and 9 name none.
    pub open spec fn spec_from_code(code: int) -> Option<ColorName> {
        let digit = code % 10;
        if digit == 0 {
            Some(ColorName::Black)
        } else if digit == 1 {
            Some(ColorName::Red)
        } else if digit == 2 {
            Some(ColorName::Green)
        } else if digit == 3 {
            Some(ColorName::Yellow)
        } else if digit == 4 {
            Some(ColorName::Blue)
        } else if digit == 5 {
            Some(ColorName::Magenta)
        } else if digit == 6 {
            Some(ColorName::Cyan)
        } else if digit == 7 {
            Some(ColorName::White)
        } else {
            None
        }
    }

    /// The fixed palette: the 24-bit value of each colour, normal and bright.
    pub open spec fn spec_rgb(self, bright: bool) -> int {
        if bright {
            match self {
                ColorName::Black => pack_rgb(1, 1, 1),
                ColorName::Red => pack_rgb(222, 56, 43),
                ColorName::Green => pack_rgb(57, 181, 74),
                ColorName::Yellow => pack_rgb(255, 199, 6),
                ColorName::Blue => pack_rgb(0, 111, 184),
                ColorName::Magenta => pack_rgb(118, 38, 113),
                ColorName::Cyan => pack_rgb(44, 181, 233),
                ColorName::White => pack_rgb(204, 204, 204),
            }
        } else {
            match self {
                ColorName::Black => pack_rgb(128, 128, 128),
                ColorName::Red => pack_rgb(255, 0, 0),
                ColorName::Green => pack_rgb(0, 255, 0),
                ColorName::Yellow => pack_rgb(255, 255, 0),
                ColorName::Blue => pack_rgb(0, 0, 255),
                ColorName::Magenta => pack_rgb(255, 0, 255),
                ColorName::Cyan => pack_rgb(0, 255, 255),
                ColorName::White => pack_rgb(255, 255, 255),
            }
        }
    }

    /// The colour's lower-case English name.
    pub open spec fn spec_name(self) -> Seq<char> {
        match self {
            ColorName::Black => "black"@,
            ColorName::Red => "red"@,
            ColorName::Green => "green"@,
            ColorName::Yellow => "yellow"@,
            ColorName::Blue => "blue"@,
            ColorName::Magenta => "magenta"@,
            ColorName::Cyan => "cyan"@,
            ColorName::White => "white"@,
        }
    }

    /// Selects a colour by the last decimal digit of an SGR code.
    pub fn from_code(code: usize) -> (color: Option<ColorName>)
        ensures
            color == Self::spec_from_code(code as int),
    {
        let digit: usize = code % 10;
        if digit == 0 {
            Some(ColorName::Black)
        } else if digit == 1 {
            Some(ColorName::Red)
        } else if digit == 2 {
            Some(ColorName::Green)
        } else if digit == 3 {
            Some(ColorName::Yellow)
        } else if digit == 4 {
            Some(ColorName::Blue)
        } else if digit == 5 {
            Some(ColorName::Magenta)
        } else if digit == 6 {
            Some(ColorName::Cyan)
        } else if digit == 7 {
            Some(ColorName::White)
        } else {
            None
        }
    }

    /// Get the 24-bit colour code.
    pub fn rgb(self, bright: bool) -> (rgb: u32)
        ensures
            rgb == self.spec_rgb(bright),
    {
        if bright {
            match self {
                ColorName::Black => pack(1, 1, 1),
                ColorName::Red => pack(222, 56, 43),
                ColorName::Green => pack(57, 181, 74),
                ColorName::Yellow => pack(255, 199, 6),
                ColorName::Blue => pack(0, 111, 184),
                ColorName::Magenta => pack(118, 38, 113),
                ColorName::Cyan => pack(44, 181, 233),
                ColorName::White => pack(204, 204, 204),
            }
        } else {
            match self {
                ColorName::Black => pack(128, 128, 128),
                ColorName::Red => pack(255, 0, 0),
                ColorName::Green => pack(0, 255, 0),
                ColorName::Yellow => pack(255, 255, 0),
                ColorName::Blue => pack(0, 0, 255),
                ColorName::Magenta => pack(255, 0, 255),
                ColorName::Cyan => pack(0, 255, 255),
                ColorName::White => pack(255, 255, 255),
            }
        }
    }

    /// The colour's lower-case English name.
    pub fn name(self) -> (name: &'static str)
        ensures
            name@ == self.spec_name(),
    {
        match self {
            ColorName::Black => "black",
            ColorName::Red => "red",
            ColorName::Green => "green",
            ColorName::Yellow => "yellow",
            ColorName::Blue => "blue",
            ColorName::Magenta => "magenta",
            ColorName::Cyan => "cyan",
            ColorName::White => "white",
        }
    }
}

/// Select Graphic Rendition parameter.
#[derive(Clone, Copy, Debug, PartialEq, Eq, Structural)]
#[non_exhaustive]
pub enum Sgr {
    Reset,
    Bold,
    Dim,
    BoldOff,
    Italic,
    ItalicOff,
    Underline,
    UnderlineOff,
    Reverse,
    ReverseOff,
    ColorFgRgb(u32),
    ColorFgName(ColorName),
    ColorFgNameBright(ColorName),
    ResetColorFg,
    ColorBgRgb(u32),
    ColorBgName(ColorName),
    ColorBgNameBright(ColorName),
    ResetColorBg,
}

/// Distance between two neighbouring levels of a channel in the colour cube.
pub open spec fn cube_step() -> int {
    255int / 6
}

/// Distance between two neighbouring levels of the grayscale ramp.
pub open spec fn gray_step() -> int {
    255int / 24
}

/// The parameter at `at`, if the list is that long.
pub open spec fn param_at(params: Seq<usize>, at: int) -> Option<int> {
    if 0 <= at < params.len() {
        Some(params[at] as int)
    } else {
        None
    }
}

impl Sgr {
    /// A named colour for the foreground or the background, normal or bright.
    pub open spec fn spec_from_color_code(code: int, background: bool, bright: bool) -> Option<Sgr> {
        match ColorName::spec_from_code(code) {
            Some(color) => Some(
                match (background, bright) {
                    (false, false) => Sgr::ColorFgName(color),
                    (false, true) => Sgr::ColorFgNameBright(color),
                    (true, false) => Sgr::ColorBgName(color),
                    (true, true) => Sgr::ColorBgNameBright(color),
                },
            ),
            None => None,
        }
    }

    /// An explicit colour from its three channels; none where the packed value
    /// has no room in 32 bits.
    pub open spec fn spec_from_rgb(r: int, g: int, b: int, background: bool) -> Option<Sgr> {
        let rgb = pack_rgb(r, g, b);
        if rgb > u32::MAX {
            None
        } else if background {
            Some(Sgr::ColorBgRgb(rgb as u32))
        } else {
            Some(Sgr::ColorFgRgb(rgb as u32))
        }
    }

    /// What an index into the 256-colour palette selects: the eight colours,
    /// their bright variants, a 6 by 6 by 6 colour cube, then 24 grays.
    pub open spec fn spec_palette(n: int, background: bool) -> Option<Sgr> {
        if 0 <= n <= 7 {
            Self::spec_from_color_code(n, background, false)
        } else if 8 <= n <= 15 {
            Self::spec_from_color_code(n - 8, background, true)
        } else if 16 <= n <= 231 {
            let cell = n - 16;
            Self::spec_from_rgb(
                (cell / 36) * cube_step(),
                ((cell % 36) / 6) * cube_step(),
                (cell % 6) * cube_step(),
                background,
            )
        } else if 232 <= n <= 255 {
            let level = (n - 232) * gray_step();
            Self::spec_from_rgb(level, level, level, background)
        } else {
            None
        }
    }

    /// The extended colour that the parameters from `at` on describe: selector
    /// 2 with three channels, or selector 5 with a palette index.
    pub open spec fn spec_color_rgb(params: Seq<usize>, at: int, background: bool) -> Option<Sgr> {
        match param_at(params, at) {
            Some(selector) => if selector == 2 {
                match (param_at(params, at + 1), param_at(params, at + 2), param_at(params, at + 3)) {
                    (Some(r), Some(g), Some(b)) => Self::spec_from_rgb(r, g, b, background),
                    _ => None,
                }
            } else if selector == 5 {
                match param_at(params, at + 1) {
                    Some(n) => Self::spec_palette(n, background),
                    None => None,
                }
            } else {
                None
            },
            None => None,
        }
    }

    /// How many parameters an extended colour takes up from `at` on, its
    /// selector included, in a list that is long enough.
    pub open spec fn spec_color_width(params: Seq<usize>, at: int) -> int {
        match param_at(params, at) {
            Some(selector) => if selector == 2 {
                4
            } else if selector == 5 {
                2
            } else {
                1
            },
            None => 0,
        }
    }

    /// The index of the first parameter after an extended colour whose
    /// selector stands at `at`: the colour takes its selector and arguments, as
    /// far as the list reaches.
    pub open spec fn spec_color_next(params: Seq<usize>, at: int) -> int {
        if at < 0 || at >= params.len() {
            at
        } else if at + Self::spec_color_width(params, at) <= params.len() {
            at + Self::spec_color_width(params, at)
        } else {
            params.len() as int
        }
    }

    /// The index of the first parameter after the one that starts at `at`. An
    /// extended colour takes its selector and arguments along.
    pub open spec fn spec_next(params: Seq<usize>, at: int) -> int {
        if at < 0 || at >= params.len() {
            at
        } else if params[at] == 38 || params[at] == 48 {
            Self::spec_color_next(params, at + 1)
        } else {
            at + 1
        }
    }

    /// The parameter that starts at `at`, where its code is a known one and its
    /// arguments are well formed.
    pub open spec fn spec_from_params(params: Seq<usize>, at: int) -> Option<Sgr> {
        match param_at(params, at) {
            None => None,
            Some(code) => if code == 0 {
                Some(Sgr::Reset)
            } else if code == 1 {
                Some(Sgr::Bold)
            } else if code == 2 {
                Some(Sgr::Dim)
            } else if code == 3 {
                Some(Sgr::Italic)
            } else if code == 4 {
                Some(Sgr::Underline)
            } else if code == 7 {
                Some(Sgr::Reverse)
            } else if code == 22 {
                Some(Sgr::BoldOff)
            } else if code == 23 {
                Some(Sgr::ItalicOff)
            } else if code == 24 {
                Some(Sgr::UnderlineOff)
            } else if code == 27 {
                Some(Sgr::ReverseOff)
            } else if 30 <= code <= 37 {
                Self::spec_from_color_code(code, false, false)
            } else if code == 38 {
                Self::spec_color_rgb(params, at + 1, false)
            } else if code == 39 {
                Some(Sgr::ResetColorFg)
            } else if 40 <= code <= 47 {
                Self::spec_from_color_code(code, true, false)
            } else if code == 48 {
                Self::spec_color_rgb(params, at + 1, true)
            } else if code == 49 {
                Some(Sgr::ResetColorBg)
            } else if 90 <= code <= 97 {
                Self::spec_from_color_code(code, false, true)
            } else if 100 <= code <= 107 {
                Self::spec_from_color_code(code, true, true)
            } else {
                None
            },
        }
    }

    /// Builds the named-colour parameter for a code whose last digit selects
    /// the colour.
    pub fn from_color_code(code: usize, background: bool, bright: bool) -> (sgr: Option<Sgr>)
        ensures
            sgr == Self::spec_from_color_code(code as int, background, bright),
    {
        match ColorName::from_code(code) {
            Some(color) => Some(
                match (background, bright) {
                    (false, false) => Sgr::ColorFgName(color),
                    (false, true) => Sgr::ColorFgNameBright(color),
                    (true, false) => Sgr::ColorBgName(color),
                    (true, true) => Sgr::ColorBgNameBright(color),
                },
            ),
            None => None,
        }
    }

    /// Builds the explicit-colour parameter from three channels.
    pub fn from_rgb(r: usize, g: usize, b: usize, background: bool) -> (sgr: Option<Sgr>)
        ensures
            sgr == Self::spec_from_rgb(r as int, g as int, b as int, background),
    {
        if r > 0xffff || g > 0xff_ffff || b > 0xffff_ffff {
            return None;
        }
        let wide: u64 = (r as u64) * 65536 + (g as u64) * 256 + (b as u64);
        if wide > 0xffff_ffff {
            return None;
        }
        let rgb: u32 = wide as u32;
        if background {
            Some(Sgr::ColorBgRgb(rgb))
        } else {
            Some(Sgr::ColorFgRgb(rgb))
        }
    }

    /// Resolves an index into the 256-colour palette.
    pub fn from_palette(n: usize, background: bool) -> (sgr: Option<Sgr>)
        ensures
            sgr == Self::spec_palette(n as int, background),
    {
        if n <= 7 {
            Self::from_color_code(n, background, false)
        } else if n <= 15 {
            Self::from_color_code(n - 8, background, true)
        } else if n <= 231 {
            let step: usize = 0xff / 6;
            let cell: usize = n - 16;
            let r: usize = (cell / 36) * step;
            let g: usize = ((cell % 36) / 6) * step;
            let b: usize = (cell % 6) * step;
            Self::from_rgb(r, g, b, background)
        } else if n <= 255 {
            let step: usize = 0xff / 24;
            let level: usize = (n - 232) * step;
            Self::from_rgb(level, level, level, background)
        } else {
            None
        }
    }

    /// Parses the extended colour whose selector stands at `at`. Returns the
    /// colour, if it is well formed, and the index of the first parameter that
    /// it did not take.
    pub fn color_rgb(params: &[usize], at: usize, background: bool) -> (res: (Option<Sgr>, usize))
        ensures
            res.0 == Self::spec_color_rgb(params@, at as int, background),
            res.1 == Self::spec_color_next(params@, at as int),
    {
        let len: usize = params.len();
        if at >= len {
            return (None, at);
        }
        let selector: usize = params[at];
        if selector == 2 {
            if len - at < 4 {
                return (None, len);
            }
            (Self::from_rgb(params[at + 1], params[at + 2], params[at + 3], background), at + 4)
        } else if selector == 5 {
            if len - at < 2 {
                return (None, len);
            }
            (Self::from_palette(params[at + 1], background), at + 2)
        } else {
            (None, at + 1)
        }
    }

    /// Parse a single SGR parameter from the parameters, starting at `at`.
    /// This takes only as many items as are required to complete the SGR, and
    /// returns the index of the first that it did not take.
    pub fn from_params(params: &[usize], at: usize) -> (res: (Option<Sgr>, usize))
        ensures
            res.0 == Self::spec_from_params(params@, at as int),
            res.1 == Self::spec_next(params@, at as int),
            at < params@.len() ==> at < res.1 <= params@.len(),
    {
        if at >= params.len() {
            return (None, at);
        }
        let code: usize = params[at];
        let next: usize = at + 1;
        if code == 0 {
            (Some(Sgr::Reset), next)
        } else if code == 1 {
            (Some(Sgr::Bold), next)
        } else if code == 2 {
            (Some(Sgr::Dim), next)
        } else if code == 3 {
            (Some(Sgr::Italic), next)
        } else if code == 4 {
            (Some(Sgr::Underline), next)
        } else if code == 7 {
            (Some(Sgr::Reverse), next)
        } else if code == 22 {
            (Some(Sgr::BoldOff), next)
        } else if code == 23 {
            (Some(Sgr::ItalicOff), next)
        } else if code == 24 {
            (Some(Sgr::UnderlineOff), next)
        } else if code == 27 {
            (Some(Sgr::ReverseOff), next)
        } else if 30 <= code && code <= 37 {
            (Self::from_color_code(code, false, false), next)
        } else if code == 38 {
            Self::color_rgb(params, next, false)
        } else if code == 39 {
            (Some(Sgr::ResetColorFg), next)
        } else if 40 <= code && code <= 47 {
            (Self::from_color_code(code, true, false), next)
        } else if code == 48 {
            Self::color_rgb(params, next, true)
        } else if code == 49 {
            (Some(Sgr::ResetColorBg), next)
        } else if 90 <= code && code <= 97 {
            (Self::from_color_code(code, false, true), next)
        } else if 100 <= code && code <= 107 {
            (Self::from_color_code(code, true, true), next)
        } else {
            (None, next)
        }
    }
}

/// The parameters that a list of SGR codes describes from `at` on, in order.
/// A code that is not known, or an extended colour that is not well formed,
/// adds nothing; the codes after it still count.
pub open spec fn spec_parse_sgrs(params: Seq<usize>, at: int) -> Seq<Sgr>
    decreases params.len() - at,
{
    if at < 0 || at >= params.len() {
        Seq::empty()
    } else {
        let rest = spec_parse_sgrs(params, Sgr::spec_next(params, at));
        match Sgr::spec_from_params(params, at) {
            Some(sgr) => seq![sgr] + rest,
            None => rest,
        }
    }
}

/// Parse all SGR parameters in the given list of codes.
pub fn parse_sgrs(params: &[usize]) -> (sgrs: Vec<Sgr>)
    ensures
        sgrs@ == spec_parse_sgrs(params@, 0),
{
    let mut sgrs: Vec<Sgr> = Vec::new();
    let mut at: usize = 0;
    while at < params.len()
        invariant
            at <= params@.len(),
            sgrs@ + spec_parse_sgrs(params@, at as int) == spec_parse_sgrs(params@, 0),
        decreases params@.len() - at,
    {
        let (sgr, next) = Sgr::from_params(params, at);
        let ghost before = sgrs@;
        if let Some(sgr) = sgr {
            sgrs.push(sgr);
        }
        proof {
            let rest = spec_parse_sgrs(params@, next as int);
            match Sgr::spec_from_params(params@, at as int) {
                Some(s) => {
                    assert(before.push(s) + rest =~= before + (seq![s] + rest));
                },
                None => {},
            }
        }
        at = next;
    }
    proof {
        assert(sgrs@ + Seq::<Sgr>::empty() =~= sgrs@);
    }
    sgrs
}

/// Describes the color effect of multiple SGR parameters.
#[derive(Clone, Copy, Debug, PartialEq, Eq, Structural)]
pub enum ColorEffect {
    Unset,
    Name(ColorName),
    NameBright(ColorName),
    Rgb(u32),
}

impl ColorEffect {
    /// The 24-bit value of the colour, where one is set.
    pub open spec fn spec_rgb(self) -> Option<int> {
        match self {
            ColorEffect::Unset => None,
            ColorEffect::Name(named) => Some(named.spec_rgb(false)),
            ColorEffect::NameBright(named) => Some(named.spec_rgb(true)),
            ColorEffect::Rgb(rgb) => Some(rgb as int),
        }
    }

    /// The colour that a parameter sets; none for one that sets no colour.
    pub open spec fn spec_from_sgr(sgr: Sgr) -> ColorEffect {
        match sgr {
            Sgr::ColorFgRgb(rgb) => ColorEffect::Rgb(rgb),
            Sgr::ColorBgRgb(rgb) => ColorEffect::Rgb(rgb),
            Sgr::ColorFgName(name) => ColorEffect::Name(name),
            Sgr::ColorBgName(name) => ColorEffect::Name(name),
            Sgr::ColorFgNameBright(name) => ColorEffect::NameBright(name),
            Sgr::ColorBgNameBright(name) => ColorEffect::NameBright(name),
            _ => ColorEffect::Unset,
        }
    }

    /// Get the 24-bit colour code.
    pub fn rgb(&self) -> (rgb: Option<u32>)
        ensures
            rgb is Some <==> self.spec_rgb() is Some,
            rgb matches Some(v) ==> self.spec_rgb() == Some(v as int),
    {
        match self {
            ColorEffect::Unset => None,
            ColorEffect::Name(named) => Some(named.rgb(false)),
            ColorEffect::NameBright(named) => Some(named.rgb(true)),
            ColorEffect::Rgb(rgb) => Some(*rgb),
        }
    }

    /// The colour that a parameter sets.
    pub fn from_sgr(sgr: &Sgr) -> (effect: ColorEffect)
        ensures
            effect == Self::spec_from_sgr(*sgr),
    {
        match sgr {
            Sgr::ColorFgRgb(rgb) => ColorEffect::Rgb(*rgb),
            Sgr::ColorBgRgb(rgb) => ColorEffect::Rgb(*rgb),
            Sgr::ColorFgName(name) => ColorEffect::Name(*name),
            Sgr::ColorBgName(name) => ColorEffect::Name(*name),
            Sgr::ColorFgNameBright(name) => ColorEffect::NameBright(*name),
            Sgr::ColorBgNameBright(name) => ColorEffect::NameBright(*name),
            _ => ColorEffect::Unset,
        }
    }
}

impl Default for ColorEffect {
    fn default() -> (effect: ColorEffect)
        ensures
            effect == ColorEffect::Unset,
    {
        ColorEffect::Unset
    }
}

/// Describes the effect that multiple SGR parameters have on text.
#[derive(Clone, Copy, Debug, PartialEq, Eq, Structural)]
pub struct SgrEffect {
    pub bold: bool,
    pub dim: bool,
    pub italic: bool,
    pub underline: bool,
    pub reverse: bool,
    /// Foreground colour
    pub fg: ColorEffect,
    /// Background colour
    pub bg: ColorEffect,
}

impl Default for SgrEffect {
    fn default() -> (effect: SgrEffect)
        ensures
            effect == SgrEffect::spec_default(),
    {
        SgrEffect {
            bold: false,
            dim: false,
            italic: false,
            underline: false,
            reverse: false,
            fg: ColorEffect::Unset,
            bg: ColorEffect::Unset,
        }
    }
}

impl SgrEffect {
    /// The style of text that no parameter has touched.
    pub open spec fn spec_default() -> SgrEffect {
        SgrEffect {
            bold: false,
            dim: false,
            italic: false,
            underline: false,
            reverse: false,
            fg: ColorEffect::Unset,
            bg: ColorEffect::Unset,
        }
    }

    /// The style after one parameter. A reset gives the default style; every
    /// other parameter changes the one attribute it names, and leaving bold
    /// leaves dim too.
    pub open spec fn spec_apply(self, sgr: Sgr) -> SgrEffect {
        match sgr {
            Sgr::Reset => Self::spec_default(),
            Sgr::Bold => SgrEffect { bold: true, ..self },
            Sgr::Dim => SgrEffect { dim: true, ..self },
            Sgr::BoldOff => SgrEffect { bold: false, dim: false, ..self },
            Sgr::Italic => SgrEffect { italic: true, ..self },
            Sgr::ItalicOff => SgrEffect { italic: false, ..self },
            Sgr::Underline => SgrEffect { underline: true, ..self },
            Sgr::UnderlineOff => SgrEffect { underline: false, ..self },
            Sgr::Reverse => SgrEffect { reverse: true, ..self },
            Sgr::ReverseOff => SgrEffect { reverse: false, ..self },
            Sgr::ColorFgRgb(_) | Sgr::ColorFgName(_) | Sgr::ColorFgNameBright(_) | Sgr::ResetColorFg => SgrEffect {
                fg: ColorEffect::spec_from_sgr(sgr),
                ..self
            },
            Sgr::ColorBgRgb(_) | Sgr::ColorBgName(_) | Sgr::ColorBgNameBright(_) | Sgr::ResetColorBg => SgrEffect {
                bg: ColorEffect::spec_from_sgr(sgr),
                ..self
            },
        }
    }

    /// The style after a list of parameters, applied from first to last.
    pub open spec fn spec_apply_all(self, sgrs: Seq<Sgr>) -> SgrEffect
        decreases sgrs.len(),
    {
        if sgrs.len() == 0 {
            self
        } else {
            self.spec_apply_all(sgrs.drop_last()).spec_apply(sgrs.last())
        }
    }

    /// Puts every attribute back to its default.
    pub fn reset(&mut self)
        ensures
            *final(self) == Self::spec_default(),
    {
        *self = SgrEffect::default();
    }

    /// Apply a SGR parameter to this effect.
    pub fn apply_sgr(&mut self, sgr: &Sgr)
        ensures
            *final(self) == old(self).spec_apply(*sgr),
    {
        match sgr {
            Sgr::Reset => self.reset(),
            Sgr::Bold => self.bold = true,
            Sgr::Dim => self.dim = true,
            Sgr::BoldOff => {
                self.bold = false;
                self.dim = false;
            },
            Sgr::Italic => self.italic = true,
            Sgr::ItalicOff => self.italic = false,
            Sgr::Underline => self.underline = true,
            Sgr::UnderlineOff => self.underline = false,
            Sgr::Reverse => self.reverse = true,
            Sgr::ReverseOff => self.reverse = false,
            Sgr::ColorFgRgb(_) | Sgr::ColorFgName(_) | Sgr::ColorFgNameBright(_) | Sgr::ResetColorFg => {
                self.fg = ColorEffect::from_sgr(sgr);
            },
            Sgr::ColorBgRgb(_) | Sgr::ColorBgName(_) | Sgr::ColorBgNameBright(_) | Sgr::ResetColorBg => {
                self.bg = ColorEffect::from_sgr(sgr);
            },
        }
    }

    /// Apply multiple SGR parameters to this effect.
    pub fn apply_sgrs(&mut self, sgrs: &[Sgr])
        ensures
            *final(self) == old(self).spec_apply_all(sgrs@),
    {
        let mut i: usize = 0;
        while i < sgrs.len()
            invariant
                i <= sgrs@.len(),
                *self == old(self).spec_apply_all(sgrs@.take(i as int)),
            decreases sgrs@.len() - i,
        {
            self.apply_sgr(&sgrs[i]);
            proof {
                assert(sgrs@.take(i + 1).drop_last() =~= sgrs@.take(i as int));
            }
            i += 1;
        }
        proof {
            assert(sgrs@.take(i as int) =~= sgrs@);
        }
    }
}

/// A reset gives the default style, whatever the style was.
pub proof fn lemma_reset_clears(effect: SgrEffect)
    ensures
        effect.spec_apply(Sgr::Reset) == SgrEffect::spec_default(),
{
}

/// Parameters applied in two runs give the style that they give in one.
pub proof fn lemma_apply_all_concat(effect: SgrEffect, first: Seq<Sgr>, second: Seq<Sgr>)
    ensures
        effect.spec_apply_all(first + second) == effect.spec_apply_all(first).spec_apply_all(second),
    decreases second.len(),
{
    if second.len() == 0 {
        assert(first + second =~= first);
    } else {
        lemma_apply_all_concat(effect, first, second.drop_last());
        assert((first + second).drop_last() =~= first + second.drop_last());
        assert((first + second).last() == second.last());
    }
}

/// Three channels of eight bits each pack into the value that holds red in
/// bits 16 to 23, green in bits 8 to 15 and blue in bits 0 to 7, and each
/// channel can be read back from it.
pub proof fn lemma_pack_rgb_channels(r: u32, g: u32, b: u32)
    requires
        r <= 255,
        g <= 255,
        b <= 255,
    ensures
        pack_rgb(r as int, g as int, b as int) == (r << 16) + (g << 8) + b,
        pack_rgb(r as int, g as int, b as int) <= 0xff_ffff,
        (((r << 16) + (g << 8) + b) as u32 >> 16) & 0xff == r,
        (((r << 16) + (g << 8) + b) as u32 >> 8) & 0xff == g,
        ((r << 16) + (g << 8) + b) as u32 & 0xff == b,
        Sgr::spec_from_rgb(r as int, g as int, b as int, false) == Some(
            Sgr::ColorFgRgb(((r << 16) + (g << 8) + b) as u32),
        ),
        Sgr::spec_from_rgb(r as int, g as int, b as int, true) == Some(
            Sgr::ColorBgRgb(((r << 16) + (g << 8) + b) as u32),
        ),
{
    assert(r << 16 == r * 65536 && g << 8 == g * 256) by (bit_vector)
        requires
            r <= 255,
            g <= 255,
    ;
    let rgb: u32 = ((r << 16) + (g << 8) + b) as u32;
    assert(rgb == (r << 16) | (g << 8) | b) by (bit_vector)
        requires
            r <= 255,
            g <= 255,
            b <= 255,
            rgb == ((r << 16) + (g << 8) + b) as u32,
    ;
    assert((rgb >> 16) & 0xff == r && (rgb >> 8) & 0xff == g && rgb & 0xff == b) by (bit_vector)
        requires
            r <= 255,
            g <= 255,
            b <= 255,
            rgb == (r << 16) | (g << 8) | b,
    ;
}

} // verus!
