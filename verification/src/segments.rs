//! Spans of text with the style that applies to each.
use crate::graphic_rendition::SgrEffect;
use crate::sequences::{
    get_markers, lemma_markers_keep_text, lemma_markers_of_plain_text, marker_text, markers_text, spec_markers,
    without_escapes, Csi, CsiModel, Escape, EscapeModel, Marker, MarkerIter, MarkerModel, ESC,
};
use crate::style::{spec_built, ClassStyle, StyleBuilder};
use vstd::prelude::*;
use vstd::string::*;

verus! {

/// The segments that a list of markers gives when the style before them is
/// `effect`: one for each span of text, with the style that the sequences
/// before it have added up to.
pub open spec fn spec_segments(effect: SgrEffect, markers: Seq<MarkerModel>) -> Seq<(SgrEffect, Seq<char>)>
    decreases markers.len(),
{
    if markers.len() == 0 {
        Seq::empty()
    } else {
        match markers[0] {
            MarkerModel::Text(text) => seq![(effect, text)] + spec_segments(effect, markers.drop_first()),
            MarkerModel::Sequence(EscapeModel::Csi(CsiModel::Sgr(sgrs))) => spec_segments(
                effect.spec_apply_all(sgrs),
                markers.drop_first(),
            ),
        }
    }
}

/// The texts of a list of segments, joined in order.
pub open spec fn segments_text(segments: Seq<(SgrEffect, Seq<char>)>) -> Seq<char>
    decreases segments.len(),
{
    if segments.len() == 0 {
        Seq::empty()
    } else {
        segments[0].1 + segments_text(segments.drop_first())
    }
}

/// Iterator over the SGR segments in a string slice.
///
/// Each item is a tuple containing the [`SgrEffect`] and the [`&str`][str] it applies to.
///
/// Returned by [`get_sgr_segments`].
#[must_use]
#[derive(Clone, Debug)]
pub struct SgrSegmentIter<'a> {
    markers: MarkerIter<'a>,
    effect: SgrEffect,
}

impl<'a> SgrSegmentIter<'a> {
    /// The segments that are still to come, in order.
    pub closed spec fn pending(&self) -> Seq<(SgrEffect, Seq<char>)> {
        spec_segments(self.effect, self.markers.pending())
    }

    /// An iterator over the segments of `s`, starting from the default style.
    pub fn new(s: &'a str) -> (iter: Self)
        ensures
            iter.pending() == spec_segments(SgrEffect::spec_default(), spec_markers(s@)),
    {
        SgrSegmentIter { markers: get_markers(s), effect: SgrEffect::default() }
    }

    /// The next segment, or `None` once the text is used up.
    pub fn next(&mut self) -> (segment: Option<(SgrEffect, &'a str)>)
        ensures
            match segment {
                Some(s) => {
                    &&& old(self).pending().len() > 0
                    &&& (s.0, s.1@) == old(self).pending()[0]
                    &&& final(self).pending() == old(self).pending().drop_first()
                },
                None => old(self).pending().len() == 0 && final(self).pending().len() == 0,
            },
    {
        loop
            invariant
                self.pending() == old(self).pending(),
            decreases self.markers.pending().len(),
        {
            let ghost before = self.markers.pending();
            match self.markers.next() {
                None => {
                    return None;
                },
                Some(Marker::Text(text)) => {
                    proof {
                        assert(spec_segments(self.effect, before).drop_first() =~= self.pending());
                    }
                    return Some((self.effect, text));
                },
                Some(Marker::Sequence(Escape::Csi(Csi::Sgr(sgrs)))) => {
                    self.effect.apply_sgrs(sgrs.as_slice());
                },
            }
        }
    }

    /// All the segments that are still to come, in order.
    pub fn collect(self) -> (segments: Vec<(SgrEffect, &'a str)>)
        ensures
            segments@.len() == self.pending().len(),
            forall|i: int|
                0 <= i < segments@.len() ==> ((#[trigger] segments@[i]).0, segments@[i].1@)
                    == self.pending()[i],
    {
        let mut iter = self;
        let mut segments: Vec<(SgrEffect, &'a str)> = Vec::new();
        loop
            invariant
                segments@.len() + iter.pending().len() == self.pending().len(),
                forall|i: int|
                    0 <= i < segments@.len() ==> ((#[trigger] segments@[i]).0, segments@[i].1@)
                        == self.pending()[i],
                forall|i: int|
                    0 <= i < iter.pending().len() ==> #[trigger] iter.pending()[i] == self.pending()[segments@.len()
                        + i],
            ensures
                iter.pending().len() == 0,
            decreases iter.pending().len(),
        {
            let ghost before = iter.pending();
            match iter.next() {
                Some(segment) => {
                    segments.push(segment);
                    proof {
                        assert forall|i: int| 0 <= i < iter.pending().len() implies #[trigger] iter.pending()[i]
                            == self.pending()[segments@.len() + i] by {
                            assert(iter.pending()[i] == before[i + 1]);
                        }
                    }
                },
                None => {
                    break ;
                },
            }
        }
        segments
    }
}

/// Create an iterator which iterates over SGR segments in a string slice.
/// Each item consists of a [`SgrEffect`] and the corresponding text slice it applies to.
pub fn get_sgr_segments<'a>(s: &'a str) -> (iter: SgrSegmentIter<'a>)
    ensures
        iter.pending() == spec_segments(SgrEffect::spec_default(), spec_markers(s@)),
{
    SgrSegmentIter::new(s)
}

/// The texts of the segments of a list of markers are the texts of the
/// markers, whatever the style before them.
pub proof fn lemma_segments_keep_text(effect: SgrEffect, markers: Seq<MarkerModel>)
    ensures
        segments_text(spec_segments(effect, markers)) == markers_text(markers),
    decreases markers.len(),
{
    if markers.len() > 0 {
        let rest = markers.drop_first();
        match markers[0] {
            MarkerModel::Text(text) => {
                lemma_segments_keep_text(effect, rest);
                let segments = spec_segments(effect, markers);
                assert(segments.drop_first() =~= spec_segments(effect, rest));
            },
            MarkerModel::Sequence(EscapeModel::Csi(CsiModel::Sgr(sgrs))) => {
                lemma_segments_keep_text(effect.spec_apply_all(sgrs), rest);
                assert(marker_text(markers[0]) + markers_text(rest) =~= markers_text(rest));
            },
        }
    }
}

/// The texts of the segments of a text, joined in order, are the text
/// without the characters of its escape sequences.
pub proof fn lemma_segments_of_text_keep_text(s: Seq<char>)
    ensures
        segments_text(spec_segments(SgrEffect::spec_default(), spec_markers(s))) == without_escapes(s),
{
    lemma_markers_keep_text(s);
    lemma_segments_keep_text(SgrEffect::spec_default(), spec_markers(s));
}

/// A text without an introducer is one segment in the default style, the
/// text itself; an empty text has no segment.
pub proof fn lemma_segments_of_plain_text(s: Seq<char>)
    requires
        forall|i: int| 0 <= i < s.len() ==> #[trigger] s[i] != ESC,
    ensures
        spec_segments(SgrEffect::spec_default(), spec_markers(s)) == if s.len() == 0 {
            Seq::<(SgrEffect, Seq<char>)>::empty()
        } else {
            seq![(SgrEffect::spec_default(), s)]
        },
{
    lemma_markers_of_plain_text(s);
    if s.len() > 0 {
        let markers = seq![MarkerModel::Text(s)];
        assert(markers.drop_first() =~= Seq::<MarkerModel>::empty());
        assert(spec_segments(SgrEffect::spec_default(), markers.drop_first()) =~= Seq::<
            (SgrEffect, Seq<char>),
        >::empty());
        assert(spec_segments(SgrEffect::spec_default(), markers) =~= seq![(SgrEffect::spec_default(), s)]);
    }
}

/// The segments of a text, each with its style as a builder of the given
/// kind finishes it, and with its text copied out.
pub fn styled_segments<B: StyleBuilder>(s: &str) -> (styled: Vec<(ClassStyle, String)>)
    ensures
        styled@.len() == spec_segments(SgrEffect::spec_default(), spec_markers(s@)).len(),
        forall|i: int|
            0 <= i < styled@.len() ==> {
                let segment = spec_segments(SgrEffect::spec_default(), spec_markers(s@))[i];
                &&& (#[trigger] styled@[i]).0@ == B::finish_model(spec_built::<B>(segment.0))
                &&& styled@[i].1@ == segment.1
            },
{
    let ghost all = spec_segments(SgrEffect::spec_default(), spec_markers(s@));
    let mut iter = get_sgr_segments(s);
    let mut styled: Vec<(ClassStyle, String)> = Vec::new();
    loop
        invariant
            all == spec_segments(SgrEffect::spec_default(), spec_markers(s@)),
            styled@.len() + iter.pending().len() == all.len(),
            forall|i: int|
                0 <= i < styled@.len() ==> (#[trigger] styled@[i]).0@ == B::finish_model(spec_built::<B>(all[i].0))
                    && styled@[i].1@ == all[i].1,
            forall|i: int| 0 <= i < iter.pending().len() ==> #[trigger] iter.pending()[i] == all[styled@.len() + i],
        ensures
            iter.pending().len() == 0,
        decreases iter.pending().len(),
    {
        let ghost before = iter.pending();
        match iter.next() {
            Some((effect, content)) => {
                let style = effect.to_class_style::<B>();
                styled.push((style, content.to_owned()));
                proof {
                    assert forall|i: int| 0 <= i < iter.pending().len() implies #[trigger] iter.pending()[i]
                        == all[styled@.len() + i] by {
                        assert(iter.pending()[i] == before[i + 1]);
                    }
                }
            },
            None => {
                break ;
            },
        }
    }
    styled
}

} // verus!
