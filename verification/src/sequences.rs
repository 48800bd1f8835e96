//! Escape sequences, and the markers that a text is made of.
use crate::cursor::{lemma_run_len, lemma_run_len_unique, run_len, CharCursor};
use crate::graphic_rendition::{parse_sgrs, spec_parse_sgrs, Sgr};
use vstd::prelude::*;

verus! {

/// The character that introduces an escape sequence.
pub const ESC: char = '\u{1b}';

/// The character that starts a control sequence after the introducer.
pub const CSI_START: char = '[';

/// The character that separates the parameters of a control sequence.
pub const SEPARATOR: char = ';';

/// The final character that selects graphic rendition.
pub const SGR_FINAL: char = 'm';

/// Intermediate characters, from the space to the slash.
pub open spec fn is_intermediate(c: char) -> bool {
    '\u{20}' <= c <= '\u{2f}'
}

/// Characters of a parameter list, from the digit zero to the question mark;
/// the separator is one of them.
pub open spec fn is_param_char(c: char) -> bool {
    '\u{30}' <= c <= '\u{3f}'
}

/// Characters of a single parameter: those of a parameter list but the separator.
pub open spec fn is_piece_char(c: char) -> bool {
    is_param_char(c) && c != SEPARATOR
}

/// Final characters, from the at sign to the tilde.
pub open spec fn is_final(c: char) -> bool {
    '\u{40}' <= c <= '\u{7e}'
}

/// The decimal digits.
pub open spec fn is_digit(c: char) -> bool {
    '0' <= c <= '9'
}

/// The test for intermediate characters.
pub open spec fn intermediate() -> spec_fn(char) -> bool {
    |c: char| is_intermediate(c)
}

/// The test for the characters of a single parameter.
pub open spec fn piece_char() -> spec_fn(char) -> bool {
    |c: char| is_piece_char(c)
}

/// The test for the characters of plain text: all but the introducer.
pub open spec fn plain() -> spec_fn(char) -> bool {
    |c: char| c != ESC
}

/// The value of a decimal digit.
pub open spec fn digit_value(c: char) -> nat {
    if is_digit(c) {
        (c as nat - '0' as nat) as nat
    } else {
        0
    }
}

/// The number that a run of decimal digits writes.
pub open spec fn decimal_value(s: Seq<char>) -> nat
    decreases s.len(),
{
    if s.len() == 0 {
        0
    } else {
        decimal_value(s.drop_last()) * 10 + digit_value(s.last())
    }
}

/// The number that a text writes in decimal digits, where it is not empty,
/// holds nothing but digits, and the number has room in a `usize`.
pub open spec fn spec_parse_decimal(s: Seq<char>) -> Option<usize> {
    if s.len() > 0 && (forall|i: int| 0 <= i < s.len() ==> is_digit(#[trigger] s[i])) && decimal_value(s)
        <= usize::MAX {
        Some(decimal_value(s) as usize)
    } else {
        None
    }
}

/// A prefix of a run of digits writes no larger number than the whole run.
pub proof fn lemma_decimal_prefix(s: Seq<char>, k: int)
    requires
        0 <= k <= s.len(),
    ensures
        decimal_value(s.take(k)) <= decimal_value(s),
    decreases s.len(),
{
    if k == s.len() {
        assert(s.take(k) =~= s);
    } else {
        lemma_decimal_prefix(s.drop_last(), k);
        assert(s.drop_last().take(k) =~= s.take(k));
    }
}

/// Reads a text as a decimal number.
pub fn parse_decimal(s: &str) -> (value: Option<usize>)
    ensures
        value == spec_parse_decimal(s@),
{
    let mut cursor = CharCursor::new(s);
    let mut value: usize = 0;
    let mut any: bool = false;
    loop
        invariant
            cursor.wf(),
            cursor.text() == s@,
            forall|i: int| 0 <= i < cursor.consumed().len() ==> is_digit(#[trigger] cursor.consumed()[i]),
            value == decimal_value(cursor.consumed()),
            any == (cursor.consumed().len() > 0),
        ensures
            cursor.consumed() == s@,
        decreases cursor.rest().len(),
    {
        let ghost before = cursor;
        proof {
            cursor.lemma_consumed_rest();
        }
        match cursor.read() {
            None => {
                proof {
                    assert(before.consumed() + before.rest() =~= before.consumed());
                }
                break ;
            },
            Some(c) => {
                let ghost seen = before.consumed().push(c);
                proof {
                    assert(before.rest().take(1) =~= seq![c]);
                    assert(cursor.consumed() =~= seen);
                    assert(seen =~= s@.take(seen.len() as int));
                    assert(s@[before.consumed().len() as int] == c);
                    assert(seen.drop_last() =~= before.consumed());
                    lemma_decimal_prefix(s@, seen.len() as int);
                }
                if !('0' <= c && c <= '9') {
                    return None;
                }
                let digit: usize = (c as u32 - '0' as u32) as usize;
                if value > (usize::MAX - digit) / 10 {
                    return None;
                }
                value = value * 10 + digit;
                any = true;
            },
        }
    }
    if any {
        Some(value)
    } else {
        None
    }
}

/// What a control sequence says.
pub ghost enum CsiModel {
    Sgr(Seq<Sgr>),
}

/// What an escape sequence says.
pub ghost enum EscapeModel {
    Csi(CsiModel),
}

/// What a marker says: a span of text, or an escape sequence.
pub ghost enum MarkerModel {
    Text(Seq<char>),
    Sequence(EscapeModel),
}

/// Control sequence.
#[derive(Clone, Debug, PartialEq, Eq)]
#[non_exhaustive]
pub enum Csi {
    Sgr(Vec<Sgr>),
}

/// ANSI Escape Sequence.
#[derive(Clone, Debug, PartialEq, Eq)]
#[non_exhaustive]
pub enum Escape {
    Csi(Csi),
}

/// Parts of a string containing ANSI escape sequences.
#[derive(Clone, Debug, PartialEq, Eq)]
pub enum Marker<'a> {
    /// Raw text without any escape sequences.
    Text(&'a str),
    /// Parsed escape sequence.
    Sequence(Escape),
}

impl View for Csi {
    type V = CsiModel;

    open spec fn view(&self) -> CsiModel {
        match self {
            Csi::Sgr(sgrs) => CsiModel::Sgr(sgrs@),
        }
    }
}

impl View for Escape {
    type V = EscapeModel;

    open spec fn view(&self) -> EscapeModel {
        match self {
            Escape::Csi(csi) => EscapeModel::Csi(csi@),
        }
    }
}

impl<'a> View for Marker<'a> {
    type V = MarkerModel;

    open spec fn view(&self) -> MarkerModel {
        match self {
            Marker::Text(text) => MarkerModel::Text(text@),
            Marker::Sequence(escape) => MarkerModel::Sequence(escape@),
        }
    }
}

/// The texts of a list of string slices.
pub open spec fn texts(parts: Seq<&str>) -> Seq<Seq<char>> {
    Seq::new(parts.len(), |i: int| parts[i]@)
}

/// The raw parameters at the start of `t`: runs of parameter characters with
/// a separator after each but the last. A last run that is empty is no
/// parameter; an empty run before a separator is one.
pub open spec fn params_of(t: Seq<char>) -> Seq<Seq<char>>
    decreases t.len(),
{
    let n = run_len(t, piece_char()) as int;
    if n < t.len() && t[n] == SEPARATOR {
        seq![t.take(n)] + params_of(t.skip(n + 1))
    } else if n > 0 {
        seq![t.take(n)]
    } else {
        Seq::empty()
    }
}

/// The number of characters that the parameters at the start of `t` take up,
/// separators included.
pub open spec fn params_len(t: Seq<char>) -> int
    decreases t.len(),
{
    let n = run_len(t, piece_char()) as int;
    if n < t.len() && t[n] == SEPARATOR {
        n + 1 + params_len(t.skip(n + 1))
    } else {
        n
    }
}

/// Where the final character of a control sequence is looked for in `t`, the
/// text after the sequence's start: behind the parameters and the
/// intermediate characters that follow them.
pub open spec fn final_at(t: Seq<char>) -> int {
    let a = params_len(t);
    a + run_len(t.skip(a), intermediate()) as int
}

/// The number of characters that the body of a control sequence takes up in
/// `t`: parameters, intermediate characters, and one more character where
/// the text goes on, whether or not it is a final character.
pub open spec fn csi_body_len(t: Seq<char>) -> int {
    if final_at(t) < t.len() {
        final_at(t) + 1
    } else {
        final_at(t)
    }
}

/// The final character of the control sequence whose body starts `t`.
pub open spec fn csi_final(t: Seq<char>) -> Option<char> {
    if 0 <= final_at(t) < t.len() && is_final(t[final_at(t)]) {
        Some(t[final_at(t)])
    } else {
        None
    }
}

/// The numbers that a list of raw parameters writes, where every one of them
/// is a decimal number.
pub open spec fn spec_parse_all(params: Seq<Seq<char>>) -> Option<Seq<usize>> {
    if forall|i: int| 0 <= i < params.len() ==> (#[trigger] spec_parse_decimal(params[i])) is Some {
        Some(Seq::new(params.len(), |i: int| spec_parse_decimal(params[i])->0))
    } else {
        None
    }
}

/// What the control sequence whose body starts `t` says. Only graphic
/// rendition is known, and only where every parameter is a number.
pub open spec fn spec_csi_body(t: Seq<char>) -> Option<CsiModel> {
    if csi_final(t) == Some(SGR_FINAL) {
        match spec_parse_all(params_of(t)) {
            Some(codes) => Some(CsiModel::Sgr(spec_parse_sgrs(codes, 0))),
            None => None,
        }
    } else {
        None
    }
}

/// Where the start of a control sequence is looked for in `t`, a text that
/// begins with the introducer: behind the intermediate characters after it.
pub open spec fn csi_at(t: Seq<char>) -> int {
    1 + run_len(t.skip(1), intermediate()) as int
}

/// True where `t` begins with the introducer and a control sequence's start.
pub open spec fn has_csi(t: Seq<char>) -> bool {
    t.len() > 0 && t[0] == ESC && csi_at(t) < t.len() && t[csi_at(t)] == CSI_START
}

/// The number of characters at the start of `t` that belong to an escape
/// sequence, well formed or not: none where `t` does not begin with the
/// introducer.
pub open spec fn escape_len(t: Seq<char>) -> int {
    if t.len() == 0 || t[0] != ESC {
        0
    } else if has_csi(t) {
        csi_at(t) + 1 + csi_body_len(t.skip(csi_at(t) + 1))
    } else {
        csi_at(t)
    }
}

/// What the escape sequence at the start of `t` says, where it is one that
/// is known and well formed.
pub open spec fn spec_escape(t: Seq<char>) -> Option<EscapeModel> {
    if has_csi(t) {
        match spec_csi_body(t.skip(csi_at(t) + 1)) {
            Some(csi) => Some(EscapeModel::Csi(csi)),
            None => None,
        }
    } else {
        None
    }
}

/// What an optional control sequence says.
pub open spec fn csi_model(csi: Option<Csi>) -> Option<CsiModel> {
    match csi {
        Some(c) => Some(c@),
        None => None,
    }
}

/// What an optional escape sequence says.
pub open spec fn escape_model(escape: Option<Escape>) -> Option<EscapeModel> {
    match escape {
        Some(e) => Some(e@),
        None => None,
    }
}

/// Tests for an intermediate character.
pub fn intermediate_char(c: char) -> (pass: bool)
    ensures
        pass == is_intermediate(c),
{
    '\u{20}' <= c && c <= '\u{2f}'
}

/// Tests for a character of a single parameter.
pub fn piece_character(c: char) -> (pass: bool)
    ensures
        pass == is_piece_char(c),
{
    '\u{30}' <= c && c <= '\u{3f}' && c != SEPARATOR
}

/// Tests for a final character.
pub fn final_char(c: char) -> (pass: bool)
    ensures
        pass == is_final(c),
{
    '\u{40}' <= c && c <= '\u{7e}'
}

/// Skips the intermediate characters at the cursor.
pub fn cursor_skip_space(cursor: &mut CharCursor)
    ensures
        old(cursor).wf(),
        final(cursor).advanced_by(*old(cursor), run_len(old(cursor).rest(), intermediate()) as int),
{
    cursor.read_while(intermediate_char);
    proof {
        let n = cursor.consumed().len() - old(cursor).consumed().len();
        assert(cursor.rest().len() > 0 ==> cursor.rest()[0] == old(cursor).rest()[n]);
        lemma_run_len_unique(old(cursor).rest(), intermediate(), n);
    }
}

/// Reads every raw parameter of a list of codes as a decimal number.
pub fn parse_params(params: &Vec<&str>) -> (codes: Option<Vec<usize>>)
    ensures
        codes is Some <==> spec_parse_all(texts(params@)) is Some,
        codes matches Some(v) ==> Some(v@) == spec_parse_all(texts(params@)),
{
    let mut codes: Vec<usize> = Vec::new();
    let mut i: usize = 0;
    while i < params.len()
        invariant
            i <= params@.len(),
            codes@.len() == i,
            forall|j: int| 0 <= j < i ==> spec_parse_decimal(#[trigger] texts(params@)[j]) == Some(codes@[j]),
        decreases params@.len() - i,
    {
        match parse_decimal(params[i]) {
            Some(code) => {
                codes.push(code);
            },
            None => {
                proof {
                    assert(spec_parse_decimal(texts(params@)[i as int]) is None);
                }
                return None;
            },
        }
        i += 1;
    }
    proof {
        assert(codes@ =~= spec_parse_all(texts(params@))->0);
    }
    Some(codes)
}

impl Csi {
    /// True where a control sequence starts at the cursor.
    pub fn peek(cursor: &CharCursor) -> (found: bool)
        ensures
            found == (cursor.next_char() == Some(CSI_START)),
            cursor.wf(),
    {
        cursor.peek_char(CSI_START)
    }

    /// Reads the body of a control sequence: its raw parameters, then its
    /// final character. The cursor moves over the body even where no final
    /// character ends it.
    pub fn read_params<'a>(cursor: &mut CharCursor<'a>) -> (body: Option<(char, Vec<&'a str>)>)
        ensures
            old(cursor).wf(),
            final(cursor).advanced_by(*old(cursor), csi_body_len(old(cursor).rest())),
            body is Some <==> csi_final(old(cursor).rest()) is Some,
            body matches Some(b) ==> csi_final(old(cursor).rest()) == Some(b.0) && texts(b.1@) == params_of(
                old(cursor).rest(),
            ),
    {
        let ghost first = *cursor;
        let ghost t0 = cursor.rest();
        let ghost mut k: int = 0;
        let mut params: Vec<&'a str> = Vec::new();
        proof {
            use_type_invariant(&*cursor);
            first.lemma_advanced_none();
        }
        loop
            invariant
                first == *old(cursor),
                t0 == first.rest(),
                first.wf(),
                cursor.advanced_by(first, k),
                texts(params@) + params_of(t0.skip(k)) == params_of(t0),
                k + params_len(t0.skip(k)) == params_len(t0),
            ensures
                cursor.advanced_by(first, params_len(t0)),
                texts(params@) == params_of(t0),
            decreases cursor.rest().len(),
        {
            let ghost here = *cursor;
            let ghost t = cursor.rest();
            let start: usize = cursor.position();
            cursor.read_while(piece_character);
            let ghost n = cursor.consumed().len() - here.consumed().len();
            let ghost middle = *cursor;
            proof {
                assert(cursor.rest().len() > 0 ==> cursor.rest()[0] == t[n]);
                lemma_run_len_unique(t, piece_char(), n);
                cursor.lemma_span(here, n);
            }
            let end: usize = cursor.position();
            let piece = cursor.get(start, end);
            let separator = cursor.read_char(SEPARATOR);
            match piece {
                Some(p) => {
                    let ghost before = params@;
                    if separator.is_some() {
                        params.push(p);
                        proof {
                            assert(middle.rest()[0] == t[n]);
                            cursor.lemma_advanced_twice(middle, here, 1, n);
                            cursor.lemma_advanced_twice(here, first, n + 1, k);
                            assert(t.skip(n + 1) =~= t0.skip(k + n + 1));
                            assert(texts(params@) =~= texts(before) + seq![t.take(n)]);
                            assert(texts(params@) + params_of(t.skip(n + 1)) =~= texts(before) + (seq![
                                t.take(n),
                            ] + params_of(t.skip(n + 1))));
                            k = k + n + 1;
                        }
                    } else {
                        if !p.is_empty() {
                            params.push(p);
                        }
                        proof {
                            assert(middle.rest().len() > 0 ==> middle.rest()[0] == t[n]);
                            cursor.lemma_advanced_twice(here, first, n, k);
                            if n > 0 {
                                assert(texts(params@) =~= texts(before) + seq![t.take(n)]);
                            } else {
                                assert(texts(params@) + Seq::<Seq<char>>::empty() =~= texts(params@));
                            }
                            k = k + n;
                        }
                        break ;
                    }
                },
                None => {
                    break ;
                },
            }
        }
        let ghost after_params = *cursor;
        cursor_skip_space(cursor);
        let ghost after_space = *cursor;
        let read = cursor.read();
        proof {
            let a = params_len(t0);
            let b = final_at(t0);
            after_space.lemma_advanced_twice(after_params, first, b - a, a);
            if read is Some {
                assert(after_space.rest()[0] == t0[b]);
                cursor.lemma_advanced_twice(after_space, first, 1, b);
            } else {
                assert(after_space.rest().len() == 0);
            }
        }
        match read {
            Some(c) => {
                if final_char(c) {
                    Some((c, params))
                } else {
                    None
                }
            },
            None => None,
        }
    }

    /// Parses the control sequence whose start stands at the cursor. The
    /// cursor moves over the whole sequence, known or not.
    pub fn parse(cursor: &mut CharCursor) -> (csi: Option<Csi>)
        ensures
            old(cursor).wf(),
            final(cursor).wf(),
            old(cursor).next_char() != Some(CSI_START) ==> csi is None && *final(cursor) == *old(cursor),
            old(cursor).next_char() == Some(CSI_START) ==> {
                &&& final(cursor).advanced_by(*old(cursor), 1 + csi_body_len(old(cursor).rest().skip(1)))
                &&& csi_model(csi) == spec_csi_body(old(cursor).rest().skip(1))
            },
    {
        if cursor.read_char(CSI_START).is_none() {
            return None;
        }
        let ghost middle = *cursor;
        let body = Self::read_params(cursor);
        proof {
            cursor.lemma_advanced_twice(middle, *old(cursor), csi_body_len(middle.rest()), 1);
        }
        match body {
            Some((method, params)) => {
                if method == SGR_FINAL {
                    match parse_params(&params) {
                        Some(codes) => {
                            let sgrs = parse_sgrs(codes.as_slice());
                            Some(Csi::Sgr(sgrs))
                        },
                        None => None,
                    }
                } else {
                    None
                }
            },
            None => None,
        }
    }
}

impl Escape {
    /// Parses the escape sequence whose introducer stands at the cursor. The
    /// cursor moves over every character that belongs to the sequence,
    /// whether or not the sequence is known and well formed.
    pub fn parse(cursor: &mut CharCursor) -> (escape: Option<Escape>)
        ensures
            old(cursor).wf(),
            final(cursor).advanced_by(*old(cursor), escape_len(old(cursor).rest())),
            escape_model(escape) == spec_escape(old(cursor).rest()),
            old(cursor).next_char() == Some(ESC) ==> 1 <= escape_len(old(cursor).rest()),
    {
        let ghost t = cursor.rest();
        if cursor.read_char(ESC).is_none() {
            proof {
                cursor.lemma_advanced_none();
            }
            return None;
        }
        let ghost after_esc = *cursor;
        cursor_skip_space(cursor);
        let ghost after_space = *cursor;
        proof {
            cursor.lemma_advanced_twice(after_esc, *old(cursor), csi_at(t) - 1, 1);
            assert(cursor.rest().len() > 0 ==> cursor.rest()[0] == t[csi_at(t)]);
        }
        if Csi::peek(cursor) {
            let csi = Csi::parse(cursor);
            proof {
                assert(after_space.rest().skip(1) =~= t.skip(csi_at(t) + 1));
                cursor.lemma_advanced_twice(
                    after_space,
                    *old(cursor),
                    1 + csi_body_len(t.skip(csi_at(t) + 1)),
                    csi_at(t),
                );
            }
            match csi {
                Some(c) => Some(Escape::Csi(c)),
                None => None,
            }
        } else {
            None
        }
    }
}

/// Tests for a character of plain text.
pub fn plain_char(c: char) -> (pass: bool)
    ensures
        pass == (c != ESC),
{
    c != ESC
}

/// The number of characters of plain text at the start of `s`: those before
/// the first introducer, or all where there is none.
pub open spec fn text_len(s: Seq<char>) -> int {
    run_len(s, plain()) as int
}

/// The markers of a text, in order: each span of plain text that is not
/// empty, and each escape sequence that is known and well formed. The
/// characters of an escape sequence that is not are in no marker.
pub open spec fn spec_markers(s: Seq<char>) -> Seq<MarkerModel>
    decreases s.len(),
{
    let n = text_len(s);
    let text = if 0 < n <= s.len() {
        seq![MarkerModel::Text(s.take(n))]
    } else {
        Seq::empty()
    };
    if 0 <= n < s.len() {
        let t = s.skip(n);
        let sequence = match spec_escape(t) {
            Some(escape) => seq![MarkerModel::Sequence(escape)],
            None => Seq::empty(),
        };
        if 1 <= escape_len(t) <= t.len() {
            text + sequence + spec_markers(t.skip(escape_len(t)))
        } else {
            text + sequence
        }
    } else {
        text
    }
}

/// A list of the one marker that there is, or of none.
pub open spec fn one_marker(marker: Option<MarkerModel>) -> Seq<MarkerModel> {
    match marker {
        Some(m) => seq![m],
        None => Seq::empty(),
    }
}

/// Read the next sequence in the given slice.
/// Returns the content before the escape sequence, the escape sequence itself, and everything following it.
/// The escape sequence can be `None` if it's invalid.
/// If the slice doesn't contain an escape sequence the entire string slice will be returned as the first item.
pub fn read_next_sequence<'a>(s: &'a str) -> (parts: (&'a str, Option<Escape>, &'a str))
    ensures
        0 <= text_len(s@) <= s@.len(),
        0 <= escape_len(s@.skip(text_len(s@))) <= s@.len() - text_len(s@),
        text_len(s@) < s@.len() ==> s@[text_len(s@)] == ESC && 1 <= escape_len(s@.skip(text_len(s@))),
        parts.0@ == s@.take(text_len(s@)),
        escape_model(parts.1) == spec_escape(s@.skip(text_len(s@))),
        parts.2@ == s@.skip(text_len(s@) + escape_len(s@.skip(text_len(s@)))),
{
    let mut cursor = CharCursor::new(s);
    let ghost first = cursor;
    cursor.read_while(plain_char);
    let ghost n = cursor.consumed().len() as int;
    let ghost at_escape = cursor;
    proof {
        assert(cursor.rest().len() > 0 ==> cursor.rest()[0] == s@[n]);
        lemma_run_len_unique(s@, plain(), n);
        lemma_run_len(s@, plain());
        cursor.lemma_span(first, n);
    }
    let end: usize = cursor.position();
    let pre: &'a str = match cursor.get(0, end) {
        Some(text) => text,
        None => s,
    };
    let escape = Escape::parse(&mut cursor);
    let post: &'a str = cursor.remainder();
    proof {
        let t = s@.skip(n);
        assert(t.skip(escape_len(t)) =~= s@.skip(n + escape_len(t)));
    }
    (pre, escape, post)
}

/// What an optional marker says.
pub open spec fn marker_model(marker: Option<Marker>) -> Option<MarkerModel> {
    match marker {
        Some(m) => Some(m@),
        None => None,
    }
}

/// Iterator yielding markers in a string.
///
/// Each item is a [`Marker`].
///
/// Returned by [`get_markers`].
#[must_use]
#[derive(Clone, Debug)]
pub struct MarkerIter<'a> {
    remaining: &'a str,
    buf: Option<Marker<'a>>,
}

impl<'a> MarkerIter<'a> {
    /// The markers that are still to come, in order: the one held back from
    /// the last step, then those of the text that is left.
    pub closed spec fn pending(&self) -> Seq<MarkerModel> {
        one_marker(marker_model(self.buf)) + spec_markers(self.remaining@)
    }

    /// An iterator over the markers of `s`.
    pub fn new(s: &'a str) -> (iter: Self)
        ensures
            iter.pending() == spec_markers(s@),
    {
        let iter = MarkerIter { remaining: s, buf: None };
        proof {
            assert(iter.pending() =~= spec_markers(s@));
        }
        iter
    }

    /// The next marker, or `None` once the text is used up. After `None`
    /// every further call gives `None`.
    pub fn next(&mut self) -> (marker: Option<Marker<'a>>)
        ensures
            match marker {
                Some(m) => {
                    &&& old(self).pending().len() > 0
                    &&& m@ == old(self).pending()[0]
                    &&& final(self).pending() == old(self).pending().drop_first()
                },
                None => old(self).pending().len() == 0 && final(self).pending().len() == 0,
            },
    {
        // handle the marker that might have been buffered by last iteration
        if let Some(marker) = self.buf.take() {
            proof {
                assert(self.pending() =~= old(self).pending().drop_first());
            }
            return Some(marker);
        }
        proof {
            assert(self.pending() =~= spec_markers(self.remaining@));
            assert(old(self).pending() =~= spec_markers(self.remaining@));
        }
        while !self.remaining.is_empty()
            invariant
                self.buf is None,
                old(self).pending() == spec_markers(self.remaining@),
            decreases self.remaining@.len(),
        {
            let ghost s = self.remaining@;
            let (pre, escape, post) = read_next_sequence(self.remaining);
            self.remaining = post;
            let ghost n = text_len(s);
            let ghost t = s.skip(n);
            proof {
                assert(pre@.len() == n);
                assert(t.skip(escape_len(t)) =~= post@);
                if n == s.len() {
                    assert(post@.len() == 0);
                    assert(spec_markers(post@) =~= Seq::<MarkerModel>::empty());
                }
            }
            let sequence = match escape {
                Some(e) => Some(Marker::Sequence(e)),
                None => None,
            };
            if pre.is_empty() {
                if let Some(marker) = sequence {
                    proof {
                        assert(self.pending() =~= spec_markers(post@));
                        assert(spec_markers(s) =~= seq![marker@] + spec_markers(post@));
                        assert(spec_markers(s).drop_first() =~= spec_markers(post@));
                    }
                    return Some(marker);
                }
                // nothing to yield right now: an escape sequence was skipped
                proof {
                    assert(spec_markers(s) =~= spec_markers(post@));
                }
            } else {
                // store the escape code for the next iteration
                self.buf = sequence;
                proof {
                    let head = seq![MarkerModel::Text(s.take(n))];
                    assert(spec_markers(s) =~= head + self.pending());
                    assert(spec_markers(s).drop_first() =~= self.pending());
                }
                return Some(Marker::Text(pre));
            }
        }
        proof {
            assert(spec_markers(self.remaining@) =~= Seq::<MarkerModel>::empty());
            assert(self.pending() =~= Seq::<MarkerModel>::empty());
        }
        None
    }

    /// All the markers that are still to come, in order.
    pub fn collect(self) -> (markers: Vec<Marker<'a>>)
        ensures
            markers@.len() == self.pending().len(),
            forall|i: int| 0 <= i < markers@.len() ==> (#[trigger] markers@[i])@ == self.pending()[i],
    {
        let mut iter = self;
        let mut markers: Vec<Marker<'a>> = Vec::new();
        loop
            invariant
                markers@.len() + iter.pending().len() == self.pending().len(),
                forall|i: int| 0 <= i < markers@.len() ==> (#[trigger] markers@[i])@ == self.pending()[i],
                forall|i: int|
                    0 <= i < iter.pending().len() ==> #[trigger] iter.pending()[i] == self.pending()[markers@.len()
                        + i],
            ensures
                iter.pending().len() == 0,
            decreases iter.pending().len(),
        {
            let ghost before = iter.pending();
            match iter.next() {
                Some(marker) => {
                    markers.push(marker);
                    proof {
                        assert forall|i: int| 0 <= i < iter.pending().len() implies #[trigger] iter.pending()[i]
                            == self.pending()[markers@.len() + i] by {
                            assert(iter.pending()[i] == before[i + 1]);
                        }
                    }
                },
                None => {
                    break ;
                },
            }
        }
        markers
    }
}

/// Iterate over all [`Marker`]s in given string.
pub fn get_markers<'a>(s: &'a str) -> (iter: MarkerIter<'a>)
    ensures
        iter.pending() == spec_markers(s@),
{
    MarkerIter::new(s)
}

/// The text of a marker: its span, or nothing for an escape sequence.
pub open spec fn marker_text(marker: MarkerModel) -> Seq<char> {
    match marker {
        MarkerModel::Text(text) => text,
        MarkerModel::Sequence(_) => Seq::empty(),
    }
}

/// The texts of a list of markers, joined in order.
pub open spec fn markers_text(markers: Seq<MarkerModel>) -> Seq<char>
    decreases markers.len(),
{
    if markers.len() == 0 {
        Seq::empty()
    } else {
        marker_text(markers[0]) + markers_text(markers.drop_first())
    }
}

/// A text without the characters of its escape sequences, well formed or
/// not: the plain text before the first introducer, then what is left of the
/// text behind the escape sequence that starts there.
pub open spec fn without_escapes(s: Seq<char>) -> Seq<char>
    decreases s.len(),
{
    let n = text_len(s);
    if 0 <= n < s.len() {
        let t = s.skip(n);
        if 1 <= escape_len(t) <= t.len() {
            s.take(n) + without_escapes(t.skip(escape_len(t)))
        } else {
            s.take(n)
        }
    } else {
        s
    }
}

/// The parameters at the start of a text take up no more than the text.
pub proof fn lemma_params_len_bounds(t: Seq<char>)
    ensures
        0 <= params_len(t) <= t.len(),
    decreases t.len(),
{
    lemma_run_len(t, piece_char());
    let n = run_len(t, piece_char()) as int;
    if n < t.len() && t[n] == SEPARATOR {
        lemma_params_len_bounds(t.skip(n + 1));
    }
}

/// An escape sequence takes up at least its introducer and no more than the
/// text that it starts.
pub proof fn lemma_escape_len_bounds(t: Seq<char>)
    requires
        t.len() > 0,
        t[0] == ESC,
    ensures
        1 <= escape_len(t) <= t.len(),
{
    lemma_run_len(t.skip(1), intermediate());
    if has_csi(t) {
        let body = t.skip(csi_at(t) + 1);
        lemma_params_len_bounds(body);
        lemma_run_len(body.skip(params_len(body)), intermediate());
    }
}

/// The text before the first introducer holds no introducer, and where it
/// is not the whole text an introducer follows it.
pub proof fn lemma_text_len(s: Seq<char>)
    ensures
        0 <= text_len(s) <= s.len(),
        forall|i: int| 0 <= i < text_len(s) ==> #[trigger] s[i] != ESC,
        text_len(s) < s.len() ==> s[text_len(s)] == ESC,
{
    lemma_run_len(s, plain());
}

/// The text of a list of one marker is the marker's text.
pub proof fn lemma_markers_text_one(marker: MarkerModel)
    ensures
        markers_text(seq![marker]) == marker_text(marker),
{
    let one = seq![marker];
    assert(one.drop_first() =~= Seq::<MarkerModel>::empty());
    assert(markers_text(one.drop_first()) =~= Seq::<char>::empty());
    assert(marker_text(one[0]) + Seq::<char>::empty() =~= marker_text(marker));
}

/// The texts of two lists of markers in a row are the texts of the first
/// followed by those of the second.
pub proof fn lemma_markers_text_concat(a: Seq<MarkerModel>, b: Seq<MarkerModel>)
    ensures
        markers_text(a + b) == markers_text(a) + markers_text(b),
    decreases a.len(),
{
    if a.len() == 0 {
        assert(a + b =~= b);
        assert(markers_text(a) + markers_text(b) =~= markers_text(b));
    } else {
        lemma_markers_text_concat(a.drop_first(), b);
        assert((a + b).drop_first() =~= a.drop_first() + b);
        assert(marker_text(a[0]) + (markers_text(a.drop_first()) + markers_text(b)) =~= (marker_text(a[0])
            + markers_text(a.drop_first())) + markers_text(b));
    }
}

/// The texts of the markers of a text, joined in order, are the text without
/// the characters of its escape sequences: nothing else is left out, and
/// nothing is added.
pub proof fn lemma_markers_keep_text(s: Seq<char>)
    ensures
        markers_text(spec_markers(s)) == without_escapes(s),
    decreases s.len(),
{
    let n = text_len(s);
    lemma_text_len(s);
    let text = if 0 < n <= s.len() {
        seq![MarkerModel::Text(s.take(n))]
    } else {
        Seq::empty()
    };
    assert(markers_text(text) =~= s.take(n)) by {
        if 0 < n {
            lemma_markers_text_one(MarkerModel::Text(s.take(n)));
        }
    }
    if n < s.len() {
        let t = s.skip(n);
        lemma_escape_len_bounds(t);
        let sequence = match spec_escape(t) {
            Some(escape) => seq![MarkerModel::Sequence(escape)],
            None => Seq::empty(),
        };
        assert(markers_text(sequence) =~= Seq::<char>::empty()) by {
            if let Some(escape) = spec_escape(t) {
                lemma_markers_text_one(MarkerModel::Sequence(escape));
            }
        }
        let rest = t.skip(escape_len(t));
        lemma_markers_keep_text(rest);
        lemma_markers_text_concat(text, sequence);
        lemma_markers_text_concat(text + sequence, spec_markers(rest));
        assert(s.take(n) + Seq::<char>::empty() + without_escapes(rest) =~= s.take(n) + without_escapes(rest));
    } else {
        assert(s.take(n) =~= s);
    }
}

/// A text without an introducer has one marker, the text itself, or none
/// where it is empty.
pub proof fn lemma_markers_of_plain_text(s: Seq<char>)
    requires
        forall|i: int| 0 <= i < s.len() ==> #[trigger] s[i] != ESC,
    ensures
        spec_markers(s) == if s.len() == 0 {
            Seq::<MarkerModel>::empty()
        } else {
            seq![MarkerModel::Text(s)]
        },
        without_escapes(s) == s,
{
    lemma_run_len_unique(s, plain(), s.len() as int);
    assert(s.take(s.len() as int) =~= s);
}

/// The test for the characters of a parameter list.
pub open spec fn param_char() -> spec_fn(char) -> bool {
    |c: char| is_param_char(c)
}

/// The parameters at the start of a text, separators included, take up the
/// longest run of parameter characters that the text begins with.
pub proof fn lemma_params_len_is_run(t: Seq<char>)
    ensures
        params_len(t) == run_len(t, param_char()),
    decreases t.len(),
{
    lemma_run_len(t, piece_char());
    let n = run_len(t, piece_char()) as int;
    if n < t.len() && t[n] == SEPARATOR {
        let tail = t.skip(n + 1);
        lemma_params_len_is_run(tail);
        lemma_run_len(tail, param_char());
        let m = run_len(tail, param_char()) as int;
        assert forall|i: int| 0 <= i < n + 1 + m implies param_char()(#[trigger] t[i]) by {
            if i < n {
                assert(piece_char()(t[i]));
            } else if i > n {
                assert(t[i] == tail[i - n - 1]);
            }
        }
        if n + 1 + m < t.len() {
            assert(t[n + 1 + m] == tail[m]);
        }
        lemma_run_len_unique(t, param_char(), n + 1 + m);
    } else {
        assert forall|i: int| 0 <= i < n implies param_char()(#[trigger] t[i]) by {
            assert(piece_char()(t[i]));
        }
        if n < t.len() {
            assert(!piece_char()(t[n]));
        }
        lemma_run_len_unique(t, param_char(), n);
    }
}

/// True of an escape sequence, and of a span of text that is not empty and
/// holds no introducer.
pub open spec fn well_formed_marker(marker: MarkerModel) -> bool {
    match marker {
        MarkerModel::Text(text) => text.len() > 0 && forall|j: int| 0 <= j < text.len() ==> #[trigger] text[j] != ESC,
        MarkerModel::Sequence(_) => true,
    }
}

/// No span of text among the markers of a text is empty, and none holds an
/// introducer.
pub proof fn lemma_markers_well_formed(s: Seq<char>)
    ensures
        forall|i: int| 0 <= i < spec_markers(s).len() ==> well_formed_marker(#[trigger] spec_markers(s)[i]),
    decreases s.len(),
{
    let n = text_len(s);
    lemma_text_len(s);
    let text = if 0 < n <= s.len() {
        seq![MarkerModel::Text(s.take(n))]
    } else {
        Seq::empty()
    };
    assert forall|i: int| 0 <= i < text.len() implies well_formed_marker(#[trigger] text[i]) by {
        assert forall|j: int| 0 <= j < s.take(n).len() implies #[trigger] s.take(n)[j] != ESC by {
            assert(s.take(n)[j] == s[j]);
        }
    }
    if n < s.len() {
        let t = s.skip(n);
        lemma_escape_len_bounds(t);
        let sequence = match spec_escape(t) {
            Some(escape) => seq![MarkerModel::Sequence(escape)],
            None => Seq::empty(),
        };
        let rest = spec_markers(t.skip(escape_len(t)));
        lemma_markers_well_formed(t.skip(escape_len(t)));
        let all = text + sequence + rest;
        assert forall|i: int| 0 <= i < all.len() implies well_formed_marker(#[trigger] all[i]) by {
            if i < text.len() {
                assert(all[i] == text[i]);
            } else if i < text.len() + sequence.len() {
                assert(all[i] == sequence[i - text.len()]);
            } else {
                assert(all[i] == rest[i - text.len() - sequence.len()]);
            }
        }
    }
}

} // verus!
