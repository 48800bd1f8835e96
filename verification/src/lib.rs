//! Decoding of ANSI escape sequences embedded in text.
//!
//! [`get_markers`] walks a text and yields its literal spans and the escape
//! sequences between them; [`get_sgr_segments`] folds the graphic-rendition
//! sequences into a running [`SgrEffect`] and yields each span of text with the
//! style that applies to it. A [`StyleBuilder`] turns such a style into class
//! names and inline styles.
pub mod cursor;
pub mod escape;
pub mod face;
pub mod graphic_rendition;
pub mod hex;
pub mod segments;
pub mod sequences;
pub mod style;

pub use crate::cursor::CharCursor;
pub use crate::escape::EscapeIterator;
pub use crate::escape::Token;
pub use crate::graphic_rendition::ColorEffect;
pub use crate::graphic_rendition::ColorName;
pub use crate::graphic_rendition::Sgr;
pub use crate::graphic_rendition::SgrEffect;
pub use crate::segments::get_sgr_segments;
pub use crate::segments::SgrSegmentIter;
pub use crate::sequences::get_markers;
pub use crate::sequences::read_next_sequence;
pub use crate::sequences::Csi;
pub use crate::sequences::Escape;
pub use crate::sequences::Marker;
pub use crate::sequences::MarkerIter;
pub use crate::style::ClassStyle;
pub use crate::style::InlineStyle;
pub use crate::style::StyleBuilder;
